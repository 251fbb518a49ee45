//! The mark that asks for an entity's destruction.

use vstd::prelude::*;

verus! {

/// Marks an entity for destruction: in the tick in which the bridge sees the
/// mark it takes down everything that it holds for the entity.
#[derive(Clone, Copy, Debug, PartialEq, Eq, Structural)]
pub struct DestroyEntity;

impl Default for DestroyEntity {
    fn default() -> (d: DestroyEntity) {
        DestroyEntity
    }
}

} // verus!
