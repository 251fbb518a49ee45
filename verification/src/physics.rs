//! The bridge between gameplay entities and the per-room simulation worlds.
//!
//! This file holds the gameplay components that the bridge reads and writes
//! and the records that it keeps; the modules below hold the bridge itself,
//! one per concern.
//!
//! A tick goes through the steps of [`tick::Phase`]. The caller walks the
//! gameplay world and hands every entity that it finds to the bridge,
//! together with what makes a body, a collision shape or a joint in a
//! simulation world; the bridge decides whether anything is made, and tracks
//! what was ([`registry::PhysicsSystem::ensure_room`],
//! [`objects`], [`constraints`]). What the bridge decides alone (the sweep,
//! the teardown, the target of an aim, who is touched by a contact) it hands
//! out as lists that the caller carries out in order.

use vstd::prelude::*;
use crate::entity::{BodyHandle, CollisionObjectHandle, ConstraintHandle, Entity, Index};
use crate::scalar::Scalar;
use crate::table::Visited;

pub use crate::physics::registry::PhysicsSystem;

pub mod model;
pub mod registry;
pub mod objects;
pub mod constraints;
pub mod teardown;
pub mod raycast;
pub mod forces;
pub mod collisions;
pub mod laws;
pub mod tick;

verus! {

/// Marks an entity as a room. A room with a size is backed by one simulation
/// world of its own.
#[derive(Clone, Copy, Debug, PartialEq, Eq, Structural)]
pub struct Room;

/// Places an object in a room, so that it interacts with the other objects of
/// that room and with nothing else.
#[derive(Clone, Copy, Debug, PartialEq, Eq, Structural)]
pub struct InRoom {
    pub room_entity: Index,
}

/// The linear velocity of an object.
#[derive(Clone, Copy, Debug, PartialEq, Eq, Structural)]
pub struct Velocity {
    pub x: Scalar,
    pub y: Scalar,
}

impl Default for Velocity {
    fn default() -> (v: Self)
        ensures
            v.x.bits == 0,
            v.y.bits == 0,
    {
        Velocity { x: Scalar { bits: 0 }, y: Scalar { bits: 0 } }
    }
}

/// The forces that gameplay asks for. `continuous` is applied on every step of
/// the simulation for as long as it stays set; `impulse` is added to the
/// body's velocity once per tick.
#[derive(Clone, Copy, Debug, PartialEq, Eq)]
pub struct Force {
    pub continuous: (Scalar, Scalar),
    pub impulse: (Scalar, Scalar),
}

impl Default for Force {
    fn default() -> (f: Self)
        ensures
            f.continuous.0.bits == 0,
            f.continuous.1.bits == 0,
            f.impulse.0.bits == 0,
            f.impulse.1.bits == 0,
    {
        let zero = Scalar { bits: 0 };
        Force { continuous: (zero, zero), impulse: (zero, zero) }
    }
}

/// Where an entity aims. `aiming_at_entity` and `aiming_at_point` are derived
/// by the bridge on every tick in which the direction is not zero.
#[derive(Clone, Copy, Debug, PartialEq, Eq)]
pub struct Aim {
    pub aiming: bool,
    pub aiming_toward: (Scalar, Scalar),
    pub aiming_at_entity: Option<Entity>,
    pub aiming_at_point: Option<(Scalar, Scalar)>,
}

impl Default for Aim {
    fn default() -> (a: Self)
        ensures
            !a.aiming,
            a.aiming_toward.0.bits == 0,
            a.aiming_toward.1.bits == 0,
            a.aiming_at_entity.is_none(),
            a.aiming_at_point.is_none(),
    {
        let zero = Scalar { bits: 0 };
        Aim {
            aiming: false,
            aiming_toward: (zero, zero),
            aiming_at_entity: None,
            aiming_at_point: None,
        }
    }
}

/// What touched an entity. `collision_normal` and `colliding` describe the
/// current tick; `last_collision_normal` and `time_since_collision` remember
/// the most recent contact.
#[derive(Clone, Copy, Debug, PartialEq, Eq)]
pub struct CollisionSet {
    pub colliding: bool,
    pub collision_normal: (Scalar, Scalar),
    pub last_collision_normal: (Scalar, Scalar),
    pub time_since_collision: Scalar,
}

impl Default for CollisionSet {
    fn default() -> (c: Self)
        ensures
            !c.colliding,
            c.collision_normal.0.bits == 0,
            c.collision_normal.1.bits == 0,
            c.last_collision_normal.0.bits == 0,
            c.last_collision_normal.1.bits == 0,
            c.time_since_collision.bits == 0,
    {
        let zero = Scalar { bits: 0 };
        CollisionSet {
            colliding: false,
            collision_normal: (zero, zero),
            last_collision_normal: (zero, zero),
            time_since_collision: zero,
        }
    }
}

/// Pins an entity to another entity of its room, or to the room itself.
/// With `multibody_link` set the entity is a link of a multibody chain that
/// hangs from the other entity, and no joint constraint is made for it.
#[derive(Clone, Copy, Debug, PartialEq, Eq, Structural)]
pub struct RevoluteJoint {
    pub linked_to_entity: Index,
    pub multibody_link: bool,
}

impl Default for RevoluteJoint {
    fn default() -> (j: Self)
        ensures
            j.linked_to_entity == 0,
            !j.multibody_link,
    {
        RevoluteJoint { linked_to_entity: 0, multibody_link: false }
    }
}

/// What the bridge keeps for an entity that has a body in its room's world.
#[derive(Clone, Copy, Debug, PartialEq, Eq)]
pub struct PhysicalObject {
    /// The body of the entity.
    pub body_handle: BodyHandle,
    /// The collision shape of the body.
    pub collision_object_handle: CollisionObjectHandle,
    /// The entity that the body hangs from, if it was made as a link of a
    /// multibody chain; none for a body that stands alone.
    pub multibody_parent: Option<Entity>,
    /// Whether the entity was seen in the current tick.
    pub visited: bool,
}

impl Visited for PhysicalObject {
    open spec fn visited(&self) -> bool {
        self.visited
    }

    open spec fn unvisited(&self) -> Self {
        PhysicalObject { visited: false, ..*self }
    }

    fn is_visited(&self) -> (r: bool) {
        self.visited
    }

    fn cleared(&self) -> (r: Self) {
        PhysicalObject {
            body_handle: self.body_handle,
            collision_object_handle: self.collision_object_handle,
            multibody_parent: self.multibody_parent,
            visited: false,
        }
    }
}

/// What the bridge keeps for an entity whose joint has a constraint in its
/// room's world.
#[derive(Clone, Copy, Debug, PartialEq, Eq, Structural)]
pub struct PhysicalConstraint {
    pub revolute_constraint_handle: ConstraintHandle,
    pub room_entity: Entity,
    pub visited: bool,
}

impl Visited for PhysicalConstraint {
    open spec fn visited(&self) -> bool {
        self.visited
    }

    open spec fn unvisited(&self) -> Self {
        PhysicalConstraint { visited: false, ..*self }
    }

    fn is_visited(&self) -> (r: bool) {
        self.visited
    }

    fn cleared(&self) -> (r: Self) {
        PhysicalConstraint {
            revolute_constraint_handle: self.revolute_constraint_handle,
            room_entity: self.room_entity,
            visited: false,
        }
    }
}

} // verus!
