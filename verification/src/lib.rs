//! Room-scoped bookkeeping for a rigid-body simulation that is driven from an
//! entity-component world.
//!
//! Every room owns one isolated simulation world. The bridge in [`physics`]
//! tracks which simulation handles belong to which gameplay entity, decides
//! when bodies and joints are created, marks what was seen during a tick and
//! sweeps what was not. Numbers are carried as IEEE-754 bit patterns
//! ([`scalar::Scalar`]): the bridge classifies, compares and negates them,
//! and where it has to add or subtract it does so with the operation that
//! its caller hands in.

pub mod scalar;
pub mod entity;
pub mod table;
pub mod physics;
pub mod draw;
pub mod animate;
pub mod input;
pub mod shift;
pub mod saveload;
pub mod control;
pub mod perfcount;
pub mod error;

use vstd::prelude::*;
use crate::scalar::Scalar;

verus! {

/// The length of the current update, in seconds.
#[derive(Clone, Copy, Debug, PartialEq, Eq, Structural)]
pub struct UpdateDeltaTime {
    pub dt: Scalar,
}

} // verus!
