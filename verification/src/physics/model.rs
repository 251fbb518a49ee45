//! The mathematical picture of the bridge's state, over which its contracts
//! are stated.

use vstd::prelude::*;
use crate::entity::{
    BodyHandle,
    CollisionObjectHandle,
    ConstraintHandle,
    Entity,
    ForceGeneratorHandle,
};
use crate::physics::{PhysicalConstraint, PhysicalObject, RevoluteJoint};
use crate::table::{all_unvisited, entry_in, only_visited, unvisited_in, visited_in};

verus! {

/// One room: its world, the handles made with it, and what it tracks.
pub struct RoomView<W> {
    /// The simulation world of the room.
    pub world: W,
    /// The gameplay entity of the room.
    pub room_entity: Entity,
    /// The static body that stands for the room's frame.
    pub ground: BodyHandle,
    /// The four boundaries of the room.
    pub walls: [CollisionObjectHandle; 4],
    /// The generator that applies the continuous forces.
    pub force_generator: ForceGeneratorHandle,
    /// The tracked objects.
    pub objects: Map<Entity, PhysicalObject>,
    /// The tracked objects' entities, first tracked first.
    pub object_order: Seq<Entity>,
    /// The entity behind each collision object.
    pub colliders: Map<CollisionObjectHandle, Entity>,
    /// The tracked joint constraints, by the entity that owns the joint.
    pub constraints: Map<Entity, PhysicalConstraint>,
    /// The owners of the tracked constraints, first tracked first.
    pub constraint_order: Seq<Entity>,
}

/// The registry: every room by its entity, and the order of registration.
pub struct SystemView<W> {
    pub rooms: Map<Entity, RoomView<W>>,
    pub order: Seq<Entity>,
}

impl<W> RoomView<W> {
    /// The orders list what the maps hold, each entity once, and every
    /// constraint names this room.
    pub open spec fn valid(self) -> bool {
        &&& self.object_order.no_duplicates()
        &&& forall|e: Entity| self.objects.dom().contains(e) <==> self.object_order.contains(e)
        &&& self.constraint_order.no_duplicates()
        &&& forall|e: Entity|
            self.constraints.dom().contains(e) <==> self.constraint_order.contains(e)
        &&& forall|e: Entity| #[trigger]
            self.constraints.dom().contains(e) ==> self.constraints[e].room_entity
                == self.room_entity
    }

    /// The room as it is made: four walls that belong to the room's own
    /// entity, and nothing tracked.
    pub open spec fn fresh(
        room_entity: Entity,
        world: W,
        ground: BodyHandle,
        walls: [CollisionObjectHandle; 4],
        force_generator: ForceGeneratorHandle,
    ) -> RoomView<W> {
        RoomView {
            world,
            room_entity,
            ground,
            walls,
            force_generator,
            objects: Map::empty(),
            object_order: Seq::empty(),
            colliders: Map::new(
                |h: CollisionObjectHandle| walls@.contains(h),
                |h: CollisionObjectHandle| room_entity,
            ),
            constraints: Map::empty(),
            constraint_order: Seq::empty(),
        }
    }
}

/// Something that the caller is to take out of a room's simulation world.
#[derive(Clone, Copy, Debug, PartialEq, Eq)]
pub enum WorldAction {
    /// Remove the joint constraint.
    RemoveConstraint(ConstraintHandle),
    /// Remove the body, as a body of its own, and its collision object.
    RemoveBody { body: BodyHandle, collision_object: CollisionObjectHandle },
    /// Remove the body, as a link of its multibody chain, and its collision
    /// object.
    RemoveMultibodyLink { body: BodyHandle, collision_object: CollisionObjectHandle },
}

/// How the body of a tracked object leaves the world: as a link of a chain if
/// a chain parent was recorded for it, as a body of its own otherwise.
pub open spec fn removal_of(object: PhysicalObject) -> WorldAction {
    if object.multibody_parent.is_some() {
        WorldAction::RemoveMultibodyLink {
            body: object.body_handle,
            collision_object: object.collision_object_handle,
        }
    } else {
        WorldAction::RemoveBody {
            body: object.body_handle,
            collision_object: object.collision_object_handle,
        }
    }
}

/// The removal of an entry of the object table.
pub open spec fn object_removal() -> spec_fn((Entity, PhysicalObject)) -> WorldAction {
    |entry: (Entity, PhysicalObject)| removal_of(entry.1)
}

/// The removal of an entry of the constraint table.
pub open spec fn constraint_removal() -> spec_fn((Entity, PhysicalConstraint)) -> WorldAction {
    |entry: (Entity, PhysicalConstraint)|
        WorldAction::RemoveConstraint(entry.1.revolute_constraint_handle)
}

/// The collision object of an entry of the object table.
pub open spec fn collision_object_of() -> spec_fn(
    (Entity, PhysicalObject),
) -> CollisionObjectHandle {
    |entry: (Entity, PhysicalObject)| entry.1.collision_object_handle
}

impl<W> RoomView<W> {
    /// The room at the start of a tick: nothing is marked as seen.
    pub open spec fn at_tick_start(self) -> RoomView<W> {
        RoomView {
            objects: all_unvisited(self.objects),
            constraints: all_unvisited(self.constraints),
            ..self
        }
    }

    /// The tracked objects that were not seen, in the order of tracking.
    pub open spec fn dropped_objects(self) -> Seq<(Entity, PhysicalObject)> {
        self.object_order.filter(unvisited_in(self.objects)).map_values(entry_in(self.objects))
    }

    /// The tracked constraints that were not seen, in the order of tracking.
    pub open spec fn dropped_constraints(self) -> Seq<(Entity, PhysicalConstraint)> {
        self.constraint_order.filter(unvisited_in(self.constraints)).map_values(
            entry_in(self.constraints),
        )
    }

    /// The room after the sweep: what was not seen is gone, and so are the
    /// collision objects of the objects that went.
    pub open spec fn swept(self) -> RoomView<W> {
        RoomView {
            objects: only_visited(self.objects),
            object_order: self.object_order.filter(visited_in(self.objects)),
            constraints: only_visited(self.constraints),
            constraint_order: self.constraint_order.filter(visited_in(self.constraints)),
            colliders: self.colliders.remove_keys(
                self.dropped_objects().map_values(collision_object_of()).to_set(),
            ),
            ..self
        }
    }

    /// What the sweep takes out of the world: first the constraints that were
    /// not seen, then the bodies that were not seen.
    pub open spec fn sweep_actions(self) -> Seq<WorldAction> {
        self.dropped_constraints().map_values(constraint_removal())
            + self.dropped_objects().map_values(object_removal())
    }
}

impl<W> RoomView<W> {
    /// The room without the constraint of the joint of `entity`.
    pub open spec fn without_constraint(self, entity: Entity) -> RoomView<W> {
        if self.constraints.dom().contains(entity) {
            RoomView {
                constraints: self.constraints.remove(entity),
                constraint_order: self.constraint_order.remove(
                    self.constraint_order.index_of(entity),
                ),
                ..self
            }
        } else {
            self
        }
    }

    /// The room without the object of `entity` and without the way back from
    /// its collision object.
    pub open spec fn without_object(self, entity: Entity) -> RoomView<W> {
        if self.objects.dom().contains(entity) {
            RoomView {
                objects: self.objects.remove(entity),
                object_order: self.object_order.remove(self.object_order.index_of(entity)),
                colliders: self.colliders.remove(self.objects[entity].collision_object_handle),
                ..self
            }
        } else {
            self
        }
    }

    /// The room after `entity` was destroyed: its object is gone, and unless
    /// the object was a link of a chain, so is the constraint of its joint.
    pub open spec fn after_destroy(self, entity: Entity) -> RoomView<W> {
        if self.objects.dom().contains(entity) {
            if self.objects[entity].multibody_parent.is_some() {
                self.without_object(entity)
            } else {
                self.without_object(entity).without_constraint(entity)
            }
        } else {
            self
        }
    }

    /// What leaves the world when `entity` is destroyed: the constraint of
    /// its joint, if it has one and is a body of its own, and then its body.
    pub open spec fn destroy_actions(self, entity: Entity) -> Seq<WorldAction> {
        if self.objects.dom().contains(entity) {
            let object = self.objects[entity];
            if object.multibody_parent.is_some() {
                seq![removal_of(object)]
            } else if self.constraints.dom().contains(entity) {
                seq![
                    WorldAction::RemoveConstraint(
                        self.constraints[entity].revolute_constraint_handle,
                    ),
                    removal_of(object),
                ]
            } else {
                seq![removal_of(object)]
            }
        } else {
            Seq::empty()
        }
    }
}

/// A joint of an entity together with what the gameplay world says of its far
/// end: the entity in the slot that the joint names, and the room which that
/// entity is placed in, if it is placed in one.
#[derive(Clone, Copy, Debug, PartialEq, Eq)]
pub struct JointLink {
    pub joint: RevoluteJoint,
    pub linked_to: Entity,
    pub linked_room: Option<Entity>,
}

impl<W> RoomView<W> {
    /// The body that stands for `entity` in this room: the ground for the
    /// room's own entity, the tracked body for a tracked object.
    pub open spec fn body_of(self, entity: Entity) -> Option<BodyHandle> {
        if self.room_entity == entity {
            Some(self.ground)
        } else if self.objects.dom().contains(entity) {
            Some(self.objects[entity].body_handle)
        } else {
            None
        }
    }

    /// The room with `object` newly tracked for `entity`: the object goes to
    /// the end of the order, and its collision object leads back to `entity`.
    pub open spec fn with_object(self, entity: Entity, object: PhysicalObject) -> RoomView<W> {
        RoomView {
            objects: self.objects.insert(entity, object),
            object_order: self.object_order.push(entity),
            colliders: self.colliders.insert(object.collision_object_handle, entity),
            ..self
        }
    }

    /// The room with `constraint` newly tracked for the joint of `entity`.
    pub open spec fn with_constraint(
        self,
        entity: Entity,
        constraint: PhysicalConstraint,
    ) -> RoomView<W> {
        RoomView {
            constraints: self.constraints.insert(entity, constraint),
            constraint_order: self.constraint_order.push(entity),
            ..self
        }
    }

    /// The room with the tracked constraint of `entity` marked as seen.
    pub open spec fn with_constraint_visited(self, entity: Entity) -> RoomView<W> {
        RoomView {
            constraints: self.constraints.insert(
                entity,
                PhysicalConstraint { visited: true, ..self.constraints[entity] },
            ),
            ..self
        }
    }

    /// The room with the tracked object of `entity` marked as seen.
    pub open spec fn with_object_visited(self, entity: Entity) -> RoomView<W> {
        RoomView {
            objects: self.objects.insert(
                entity,
                PhysicalObject { visited: true, ..self.objects[entity] },
            ),
            ..self
        }
    }
}

/// Where an entity stands with the bridge.
#[derive(Clone, Copy, Debug, PartialEq, Eq, Structural)]
pub enum Presence {
    /// Nothing is tracked for the entity.
    Absent,
    /// An object is tracked and was seen in the current tick.
    Seen,
    /// An object is tracked and was not seen since the tick started: the
    /// sweep will take it.
    Unseen,
}

impl<W> SystemView<W> {
    /// Where `entity` stands in `room`.
    pub open spec fn presence(self, entity: Entity, room: Entity) -> Presence {
        match self.object_of(entity, room) {
            Some(object) => if object.visited {
                Presence::Seen
            } else {
                Presence::Unseen
            },
            None => Presence::Absent,
        }
    }

    /// The body that stands for `entity` in `room`, if the room is registered
    /// and knows the entity.
    pub open spec fn body_of(self, entity: Entity, room: Entity) -> Option<BodyHandle> {
        if self.rooms.dom().contains(room) {
            self.rooms[room].body_of(entity)
        } else {
            None
        }
    }

    /// The object tracked for `entity` in `room`.
    pub open spec fn object_of(self, entity: Entity, room: Entity) -> Option<PhysicalObject> {
        if self.rooms.dom().contains(room) && self.rooms[room].objects.dom().contains(entity) {
            Some(self.rooms[room].objects[entity])
        } else {
            None
        }
    }

    /// The entity behind `collision_object` in `room`.
    pub open spec fn entity_behind(
        self,
        room: Entity,
        collision_object: CollisionObjectHandle,
    ) -> Option<Entity> {
        if self.rooms.dom().contains(room) && self.rooms[room].colliders.dom().contains(
            collision_object,
        ) {
            Some(self.rooms[room].colliders[collision_object])
        } else {
            None
        }
    }

    /// The constraint tracked for the joint of `entity` in `room`.
    pub open spec fn constraint_of(self, entity: Entity, room: Entity) -> Option<
        PhysicalConstraint,
    > {
        if self.rooms.dom().contains(room) && self.rooms[room].constraints.dom().contains(entity) {
            Some(self.rooms[room].constraints[entity])
        } else {
            None
        }
    }

    /// The body of the object tracked for `entity` in `room`.
    pub open spec fn body_of_object(self, entity: Entity, room: Entity) -> Option<BodyHandle> {
        match self.object_of(entity, room) {
            Some(object) => Some(object.body_handle),
            None => None,
        }
    }

    /// The chain parent of an entity with the given joint: for a multibody
    /// link whose far end is placed in a room that knows a body for it, that
    /// body and the far end's entity. There is none for any other joint, nor
    /// while the far end has no body to hang from.
    pub open spec fn multibody_parent(self, link: Option<JointLink>) -> Option<
        (BodyHandle, Entity),
    > {
        match link {
            Some(l) => if l.joint.multibody_link && l.linked_room.is_some() {
                match self.body_of(l.linked_to, l.linked_room.unwrap()) {
                    Some(parent) => Some((parent, l.linked_to)),
                    None => None,
                }
            } else {
                None
            },
            None => None,
        }
    }

    /// The order lists the rooms, each once; every room is valid and stands
    /// under its own entity.
    pub open spec fn valid(self) -> bool {
        &&& self.order.no_duplicates()
        &&& forall|e: Entity| self.rooms.dom().contains(e) <==> self.order.contains(e)
        &&& forall|e: Entity| #[trigger]
            self.rooms.dom().contains(e) ==> self.rooms[e].valid() && self.rooms[e].room_entity
                == e
    }

    /// The registry with `room` added under its entity, at the end of the
    /// order.
    pub open spec fn with_room(self, room: RoomView<W>) -> SystemView<W> {
        SystemView {
            rooms: self.rooms.insert(room.room_entity, room),
            order: self.order.push(room.room_entity),
        }
    }

    /// The registry with the world of the room under `entity` replaced by
    /// `world`.
    pub open spec fn with_world(self, entity: Entity, world: W) -> SystemView<W> {
        SystemView {
            rooms: self.rooms.insert(entity, RoomView { world, ..self.rooms[entity] }),
            order: self.order,
        }
    }

    /// The registry with the room under `entity` replaced by `room`.
    pub open spec fn with_room_changed(self, entity: Entity, room: RoomView<W>) -> SystemView<W> {
        SystemView { rooms: self.rooms.insert(entity, room), order: self.order }
    }
}

} // verus!
