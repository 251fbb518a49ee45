//! Identities: gameplay entities and the handles that the simulation hands out.

use vstd::prelude::*;

verus! {

/// The slot of an entity in the gameplay world's entity table.
pub type Index = u32;

/// A gameplay entity: a slot together with the generation that tells
/// successive occupants of the slot apart.
#[derive(Clone, Copy, Debug, PartialEq, Eq, Hash, Structural)]
pub struct Entity {
    pub id: Index,
    pub generation: i32,
}

impl Entity {
    /// The entity in slot `id` with the given generation.
    pub fn new(id: Index, generation: i32) -> (e: Entity)
        ensures
            e.id == id,
            e.generation == generation,
    {
        Entity { id, generation }
    }

    /// The slot of the entity.
    pub fn id(&self) -> (id: Index)
        ensures
            id == self.id,
    {
        self.id
    }
}

/// `specs::world::EntitiesRes`, the entity table of the gameplay world, which
/// knows the current generation of every slot. The bridge looks nothing up in
/// it but through [`Entity::in_slot`].
#[verifier::external_type_specification]
#[verifier::external_body]
pub struct ExEntitiesRes(specs::world::EntitiesRes);

/// The number of slots that the entity table can answer for: the size of the
/// bit sets that it keeps, which is 64 * 64 * 64 * 64 on a machine with
/// words of 64 bits and 32 * 32 * 32 * 32 on one with words of 32 bits.
pub open spec fn slots() -> int {
    if usize::BITS == 64 {
        0x100_0000
    } else {
        0x10_0000
    }
}

/// `EntitiesRes::entity` of specs, read with `Entity::id` and `Generation::id`:
/// the entity that the table names for the slot `id`. The contract is taken
/// from specs on trust: the entity has that slot. Its generation is whatever
/// the table holds for the slot at the time of the call, and it need not be
/// alive. The slot is to be one of [`slots`]: beyond them the table's bit
/// set is asked out of its bounds.
#[verifier::external_body]
fn entity_in_slot(entities: &specs::world::EntitiesRes, id: Index) -> (entity: Entity)
    requires
        id < slots(),
    ensures
        entity.id == id,
{
    let found = entities.entity(id);
    Entity { id: found.id(), generation: found.gen().id() }
}

impl Entity {
    /// The number of slots that the entity table of the gameplay world can
    /// answer for.
    pub fn slot_limit() -> (limit: Index)
        ensures
            limit == slots(),
    {
        if usize::BITS == 64 {
            0x100_0000
        } else {
            0x10_0000
        }
    }

    /// The entity that the gameplay world currently names for the slot `id`,
    /// which is to be below [`Entity::slot_limit`].
    pub fn in_slot(entities: &specs::world::EntitiesRes, id: Index) -> (entity: Entity)
        requires
            id < slots(),
        ensures
            entity.id == id,
    {
        entity_in_slot(entities, id)
    }
}

/// A value that can key a [`crate::table::Table`]: copying it and testing two
/// of them for equality needs nothing but the value itself.
pub trait Key: Copy {
    /// Whether the two keys are the same value.
    fn same(&self, other: &Self) -> (r: bool)
        ensures
            r == (*self == *other),
    ;
}

impl Key for Entity {
    fn same(&self, other: &Self) -> (r: bool) {
        self.id == other.id && self.generation == other.generation
    }
}

/// The handle of a body part in a room's simulation world: the body's slot and
/// generation in the world's body set, and the part of the body (the link of a
/// multibody, zero for a rigid body or the ground).
#[derive(Clone, Copy, Debug, PartialEq, Eq, Hash, Structural)]
pub struct BodyHandle {
    pub index: usize,
    pub generation: u64,
    pub part: usize,
}

impl Key for BodyHandle {
    fn same(&self, other: &Self) -> (r: bool) {
        self.index == other.index && self.generation == other.generation && self.part
            == other.part
    }
}

/// The handle of a collision object in a room's collision world.
#[derive(Clone, Copy, Debug, PartialEq, Eq, Hash, Structural)]
pub struct CollisionObjectHandle {
    pub index: usize,
    pub generation: u64,
}

impl Key for CollisionObjectHandle {
    fn same(&self, other: &Self) -> (r: bool) {
        self.index == other.index && self.generation == other.generation
    }
}

/// The handle of a joint constraint in a room's simulation world.
#[derive(Clone, Copy, Debug, PartialEq, Eq, Hash, Structural)]
pub struct ConstraintHandle {
    pub index: usize,
    pub generation: u64,
}

/// The handle of a force generator in a room's simulation world.
#[derive(Clone, Copy, Debug, PartialEq, Eq, Hash, Structural)]
pub struct ForceGeneratorHandle {
    pub index: usize,
    pub generation: u64,
}

} // verus!
