//! The object bridge: which entity has which body, made lazily and marked on
//! every tick in which the entity is seen.

use vstd::prelude::*;
use crate::entity::{slots, BodyHandle, CollisionObjectHandle, Entity, Key};
use crate::physics::{InRoom, PhysicalObject, RevoluteJoint};
use crate::physics::model::{JointLink, Presence, SystemView};
use crate::physics::registry::{lemma_room_views_insert, PhysicsSystem, ONE_BITS};
use crate::draw::ShapeClass;
use crate::scalar::Scalar;

verus! {

/// The encoding of the density of a chain link: 0.8.
pub const CHAIN_LINK_DENSITY_BITS: u64 = 0x3fe9_9999_9999_999a;

/// The density of a body of the given class: a chain link is lighter than a
/// ball, so that a chain sags less.
pub fn density(class: ShapeClass) -> (d: Scalar)
    ensures
        d.bits == match class {
            ShapeClass::ChainLink => CHAIN_LINK_DENSITY_BITS,
            ShapeClass::Ball => ONE_BITS,
        },
{
    match class {
        ShapeClass::ChainLink => Scalar::from_bits(CHAIN_LINK_DENSITY_BITS),
        ShapeClass::Ball => Scalar::from_bits(ONE_BITS),
    }
}

impl JointLink {
    /// The far end of `joint`: the entity that the gameplay world currently
    /// names for the slot that the joint links to, which is to be below
    /// [`Entity::slot_limit`].
    pub fn far_end(entities: &specs::world::EntitiesRes, joint: &RevoluteJoint) -> (linked_to:
        Entity)
        requires
            joint.linked_to_entity < slots(),
        ensures
            linked_to.id == joint.linked_to_entity,
    {
        Entity::in_slot(entities, joint.linked_to_entity)
    }

    /// The joint together with its far end `linked_to` and the room that the
    /// far end is placed in, if `linked_in_room` places it in one. The slot
    /// of that room is to be below [`Entity::slot_limit`].
    pub fn resolve(
        entities: &specs::world::EntitiesRes,
        joint: RevoluteJoint,
        linked_to: Entity,
        linked_in_room: Option<InRoom>,
    ) -> (link: JointLink)
        requires
            linked_in_room.is_some() ==> linked_in_room.unwrap().room_entity < slots(),
        ensures
            link.joint == joint,
            link.linked_to == linked_to,
            link.linked_room.is_some() == linked_in_room.is_some(),
            linked_in_room.is_some() ==> link.linked_room.unwrap().id
                == linked_in_room.unwrap().room_entity,
    {
        let linked_room = match linked_in_room {
            Some(in_room) => Some(Entity::in_slot(entities, in_room.room_entity)),
            None => None,
        };
        JointLink { joint, linked_to, linked_room }
    }
}

/// What the bridge asks of its caller for one object in one tick.
#[derive(Clone, Copy, Debug, PartialEq, Eq)]
pub enum ObjectPlan {
    /// The object's room has no world yet: nothing is made, and the object
    /// is looked at again on the next tick.
    MissingRoom,
    /// The object is tracked already: nothing is made.
    Keep(PhysicalObject),
    /// A fixed collision shape is to be made on the room's ground.
    CreateTerrain { ground: BodyHandle },
    /// A rigid body is to be made, which stands alone: no chain parent is
    /// recorded with it.
    CreateRigidBody,
    /// A multibody link is to be made that hangs from `parent`, the body of
    /// `parent_entity`, which is the chain parent to record with it.
    CreateMultibodyLink { parent: BodyHandle, parent_entity: Entity },
}

/// How a call that tracks something ended.
#[derive(Clone, Copy, Debug, PartialEq, Eq, Structural)]
pub enum Tracking {
    /// The room has no world: nothing was recorded.
    MissingRoom,
    /// The entity was not tracked before and is now.
    Created,
    /// The entity was tracked already: what was recorded for it stays, and
    /// it is marked as seen.
    Existing,
}

impl<W> SystemView<W> {
    /// What is to be done for a static object of `room`.
    pub open spec fn terrain_plan(self, room: Entity, entity: Entity) -> ObjectPlan {
        if !self.rooms.dom().contains(room) {
            ObjectPlan::MissingRoom
        } else if self.rooms[room].objects.dom().contains(entity) {
            ObjectPlan::Keep(self.rooms[room].objects[entity])
        } else {
            ObjectPlan::CreateTerrain { ground: self.rooms[room].ground }
        }
    }

    /// What is to be done for a dynamic object of `room` with the given joint.
    pub open spec fn dynamic_plan(
        self,
        room: Entity,
        entity: Entity,
        link: Option<JointLink>,
    ) -> ObjectPlan {
        if !self.rooms.dom().contains(room) {
            ObjectPlan::MissingRoom
        } else if self.rooms[room].objects.dom().contains(entity) {
            ObjectPlan::Keep(self.rooms[room].objects[entity])
        } else {
            match self.multibody_parent(link) {
                Some((parent, parent_entity)) => ObjectPlan::CreateMultibodyLink {
                    parent,
                    parent_entity,
                },
                None => ObjectPlan::CreateRigidBody,
            }
        }
    }

    /// The state after `object` was offered for `entity` in `room`.
    pub open spec fn after_track_object(
        self,
        room: Entity,
        entity: Entity,
        object: PhysicalObject,
    ) -> SystemView<W> {
        if !self.rooms.dom().contains(room) {
            self
        } else if self.rooms[room].objects.dom().contains(entity) {
            self.with_room_changed(room, self.rooms[room].with_object_visited(entity))
        } else {
            self.with_room_changed(
                room,
                self.rooms[room].with_object(entity, PhysicalObject { visited: true, ..object }),
            )
        }
    }

    /// How offering an object for `entity` in `room` ends.
    pub open spec fn track_object_outcome(self, room: Entity, entity: Entity) -> Tracking {
        if !self.rooms.dom().contains(room) {
            Tracking::MissingRoom
        } else if self.rooms[room].objects.dom().contains(entity) {
            Tracking::Existing
        } else {
            Tracking::Created
        }
    }
}

impl<W> PhysicsSystem<W> {
    /// The body that stands for `entity` in the room `room_entity`: the
    /// ground if `entity` is the room itself, else the entity's tracked body.
    pub fn get_body_handle(&self, entity: &Entity, room_entity: &Entity) -> (r: Option<BodyHandle>)
        requires
            self.wf(),
        ensures
            r == self@.body_of(*entity, *room_entity),
    {
        match self.physical_rooms.get(room_entity) {
            Some(physical_room) => {
                if physical_room.room_entity.same(entity) {
                    Some(physical_room.ground)
                } else {
                    match physical_room.physical_objects.get(entity) {
                        Some(physical_object) => Some(physical_object.body_handle),
                        None => None,
                    }
                }
            },
            None => None,
        }
    }

    /// What is tracked for `entity` in `room`.
    pub fn tracked_object(&self, room: &Entity, entity: &Entity) -> (r: Option<PhysicalObject>)
        requires
            self.wf(),
        ensures
            r == self@.object_of(*entity, *room),
    {
        match self.physical_rooms.get(room) {
            Some(physical_room) => match physical_room.physical_objects.get(entity) {
                Some(physical_object) => Some(*physical_object),
                None => None,
            },
            None => None,
        }
    }

    /// Where `entity` stands in `room`.
    pub fn presence(&self, room: &Entity, entity: &Entity) -> (r: Presence)
        requires
            self.wf(),
        ensures
            r == self@.presence(*entity, *room),
    {
        match self.tracked_object(room, entity) {
            Some(physical_object) => if physical_object.visited {
                Presence::Seen
            } else {
                Presence::Unseen
            },
            None => Presence::Absent,
        }
    }

    /// The chain parent of an entity with the given joint: the body that a
    /// link of a chain is to hang from, and the entity of that body.
    pub fn resolve_multibody_parent(&self, link: Option<JointLink>) -> (r: Option<
        (BodyHandle, Entity),
    >)
        requires
            self.wf(),
        ensures
            r == self@.multibody_parent(link),
    {
        match link {
            Some(l) => {
                if l.joint.multibody_link {
                    match l.linked_room {
                        Some(room) => match self.get_body_handle(&l.linked_to, &room) {
                            Some(parent) => Some((parent, l.linked_to)),
                            None => None,
                        },
                        None => None,
                    }
                } else {
                    None
                }
            },
            None => None,
        }
    }

    /// What is to be done for the static object `entity` of `room`.
    pub fn plan_terrain(&self, room: &Entity, entity: &Entity) -> (plan: ObjectPlan)
        requires
            self.wf(),
        ensures
            plan == self@.terrain_plan(*room, *entity),
    {
        match self.physical_rooms.get(room) {
            Some(physical_room) => match physical_room.physical_objects.get(entity) {
                Some(physical_object) => ObjectPlan::Keep(*physical_object),
                None => ObjectPlan::CreateTerrain { ground: physical_room.ground },
            },
            None => ObjectPlan::MissingRoom,
        }
    }

    /// What is to be done for the dynamic object `entity` of `room`, whose
    /// joint, if it has one, is `link`.
    pub fn plan_dynamic(&self, room: &Entity, entity: &Entity, link: Option<JointLink>) -> (plan:
        ObjectPlan)
        requires
            self.wf(),
        ensures
            plan == self@.dynamic_plan(*room, *entity, link),
    {
        let chain_parent = self.resolve_multibody_parent(link);
        match self.physical_rooms.get(room) {
            Some(physical_room) => match physical_room.physical_objects.get(entity) {
                Some(physical_object) => ObjectPlan::Keep(*physical_object),
                None => match chain_parent {
                    Some((parent, parent_entity)) => ObjectPlan::CreateMultibodyLink {
                        parent,
                        parent_entity,
                    },
                    None => ObjectPlan::CreateRigidBody,
                },
            },
            None => ObjectPlan::MissingRoom,
        }
    }

    /// Records the body that was made for `entity` in `room`, and marks the
    /// entity as seen in this tick. `multibody_parent` is the chain parent of
    /// a body that was made as a link of a chain, and none for a body that
    /// stands alone: by it the body leaves the world later. An entity that
    /// is tracked already keeps what was recorded for it: a second offer
    /// makes no second object.
    pub fn track_object(
        &mut self,
        room: &Entity,
        entity: Entity,
        body_handle: BodyHandle,
        collision_object_handle: CollisionObjectHandle,
        multibody_parent: Option<Entity>,
    ) -> (outcome: Tracking)
        requires
            old(self).wf(),
        ensures
            final(self).wf(),
            outcome == old(self)@.track_object_outcome(*room, entity),
            final(self)@ == old(self)@.after_track_object(
                *room,
                entity,
                PhysicalObject { body_handle, collision_object_handle, multibody_parent, visited: true },
            ),
    {
        let ghost before = *self;
        match self.physical_rooms.position(room) {
            None => Tracking::MissingRoom,
            Some(i) => {
                let physical_room = self.physical_rooms.value_at_mut(i);
                let outcome = match physical_room.physical_objects.position(&entity) {
                    Some(j) => {
                        let physical_object = physical_room.physical_objects.value_at_mut(j);
                        physical_object.visited = true;
                        Tracking::Existing
                    },
                    None => {
                        physical_room.physical_objects.insert(
                            entity,
                            PhysicalObject {
                                body_handle,
                                collision_object_handle,
                                multibody_parent,
                                visited: true,
                            },
                        );
                        physical_room.collision_object_to_entity.insert(
                            collision_object_handle,
                            entity,
                        );
                        Tracking::Created
                    },
                };
                proof {
                    lemma_room_views_insert(
                        before.physical_rooms@,
                        *room,
                        self.physical_rooms@[*room],
                    );
                }
                outcome
            },
        }
    }

    /// Sees the static object `entity` of `room`. An object that is tracked
    /// is marked as seen. For one that is not, `make` makes the fixed
    /// collision shape on the ground of the room's world, and the shape is
    /// tracked for the entity. In a room without a world nothing happens.
    pub fn see_terrain<M: FnOnce(&mut W, BodyHandle) -> CollisionObjectHandle>(
        &mut self,
        room: &Entity,
        entity: Entity,
        make: M,
    ) -> (outcome: Tracking)
        requires
            old(self).wf(),
            forall|world: &mut W, ground: BodyHandle| make.requires((world, ground)),
        ensures
            final(self).wf(),
            outcome == old(self)@.track_object_outcome(*room, entity),
            outcome == Tracking::MissingRoom ==> final(self)@ == old(self)@,
            outcome == Tracking::Existing ==> final(self)@ == old(self)@.with_room_changed(
                *room,
                old(self)@.rooms[*room].with_object_visited(entity),
            ),
            outcome == Tracking::Created ==> exists|
                world: &mut W,
                collision_object_handle: CollisionObjectHandle,
            |
                {
                    &&& *world == old(self)@.rooms[*room].world
                    &&& #[trigger] make.ensures(
                        (world, old(self)@.rooms[*room].ground),
                        collision_object_handle,
                    )
                    &&& final(self)@ == old(self)@.with_world(
                        *room,
                        *final(world),
                    ).after_track_object(
                        *room,
                        entity,
                        PhysicalObject {
                            body_handle: old(self)@.rooms[*room].ground,
                            collision_object_handle,
                            multibody_parent: None,
                            visited: true,
                        },
                    )
                },
    {
        let ghost before = *self;
        match self.physical_rooms.position(room) {
            None => Tracking::MissingRoom,
            Some(i) => {
                let physical_room = self.physical_rooms.value_at_mut(i);
                let outcome = match physical_room.physical_objects.position(&entity) {
                    Some(j) => {
                        let physical_object = physical_room.physical_objects.value_at_mut(j);
                        physical_object.visited = true;
                        Tracking::Existing
                    },
                    None => {
                        let ground = physical_room.ground;
                        let collision_object_handle = make(&mut physical_room.world, ground);
                        physical_room.physical_objects.insert(
                            entity,
                            PhysicalObject {
                                body_handle: ground,
                                collision_object_handle,
                                multibody_parent: None,
                                visited: true,
                            },
                        );
                        physical_room.collision_object_to_entity.insert(
                            collision_object_handle,
                            entity,
                        );
                        Tracking::Created
                    },
                };
                proof {
                    lemma_room_views_insert(
                        before.physical_rooms@,
                        *room,
                        self.physical_rooms@[*room],
                    );
                    if outcome == Tracking::Created {
                        let made = self.physical_rooms@[*room];
                        assert(self@.rooms =~= before@.with_world(*room, made.world).after_track_object(
                            *room,
                            entity,
                            made.physical_objects@[entity],
                        ).rooms);
                    }
                }
                outcome
            },
        }
    }

    /// Sees the dynamic object `entity` of `room`, whose joint, if it has
    /// one, is `link`. An object that is tracked is marked as seen. For one
    /// that is not, a body is made in the room's world and tracked for the
    /// entity: by `make_multibody_link`, hanging from the body of its chain
    /// parent, if the joint makes it a link of a chain and the parent has a
    /// body; by `make_rigid_body` otherwise. The chain parent is recorded
    /// with a link and with nothing else, so that a body that stands alone
    /// leaves the world as one. In a room without a world nothing happens.
    /// The answer holds the body of the object, if it has one now.
    pub fn see_dynamic<
        R: FnOnce(&mut W) -> (BodyHandle, CollisionObjectHandle),
        L: FnOnce(&mut W, BodyHandle) -> (BodyHandle, CollisionObjectHandle),
    >(
        &mut self,
        room: &Entity,
        entity: Entity,
        link: Option<JointLink>,
        make_rigid_body: R,
        make_multibody_link: L,
    ) -> (r: (Tracking, Option<BodyHandle>))
        requires
            old(self).wf(),
            forall|world: &mut W| make_rigid_body.requires((world,)),
            forall|world: &mut W, parent: BodyHandle| make_multibody_link.requires((world, parent)),
        ensures
            final(self).wf(),
            r.0 == old(self)@.track_object_outcome(*room, entity),
            r.1 == final(self)@.body_of_object(entity, *room),
            r.0 == Tracking::MissingRoom ==> final(self)@ == old(self)@,
            r.0 == Tracking::Existing ==> final(self)@ == old(self)@.with_room_changed(
                *room,
                old(self)@.rooms[*room].with_object_visited(entity),
            ),
            old(self)@.dynamic_plan(*room, entity, link) is CreateRigidBody ==> exists|
                world: &mut W,
                made: (BodyHandle, CollisionObjectHandle),
            |
                {
                    &&& *world == old(self)@.rooms[*room].world
                    &&& #[trigger] make_rigid_body.ensures((world,), made)
                    &&& final(self)@ == old(self)@.with_world(
                        *room,
                        *final(world),
                    ).after_track_object(
                        *room,
                        entity,
                        PhysicalObject {
                            body_handle: made.0,
                            collision_object_handle: made.1,
                            multibody_parent: None,
                            visited: true,
                        },
                    )
                },
            old(self)@.dynamic_plan(*room, entity, link) is CreateMultibodyLink ==> exists|
                world: &mut W,
                made: (BodyHandle, CollisionObjectHandle),
            |
                {
                    &&& *world == old(self)@.rooms[*room].world
                    &&& #[trigger] make_multibody_link.ensures(
                        (world, old(self)@.multibody_parent(link).unwrap().0),
                        made,
                    )
                    &&& final(self)@ == old(self)@.with_world(
                        *room,
                        *final(world),
                    ).after_track_object(
                        *room,
                        entity,
                        PhysicalObject {
                            body_handle: made.0,
                            collision_object_handle: made.1,
                            multibody_parent: Some(old(self)@.multibody_parent(link).unwrap().1),
                            visited: true,
                        },
                    )
                },
    {
        let ghost before = *self;
        let chain_parent = self.resolve_multibody_parent(link);
        match self.physical_rooms.position(room) {
            None => (Tracking::MissingRoom, None),
            Some(i) => {
                let physical_room = self.physical_rooms.value_at_mut(i);
                let r = match physical_room.physical_objects.position(&entity) {
                    Some(j) => {
                        let physical_object = physical_room.physical_objects.value_at_mut(j);
                        physical_object.visited = true;
                        (Tracking::Existing, Some(physical_object.body_handle))
                    },
                    None => {
                        let (body_handle, collision_object_handle, multibody_parent) =
                            match chain_parent {
                            Some((parent, parent_entity)) => {
                                let made = make_multibody_link(&mut physical_room.world, parent);
                                (made.0, made.1, Some(parent_entity))
                            },
                            None => {
                                let made = make_rigid_body(&mut physical_room.world);
                                (made.0, made.1, None)
                            },
                        };
                        physical_room.physical_objects.insert(
                            entity,
                            PhysicalObject {
                                body_handle,
                                collision_object_handle,
                                multibody_parent,
                                visited: true,
                            },
                        );
                        physical_room.collision_object_to_entity.insert(
                            collision_object_handle,
                            entity,
                        );
                        (Tracking::Created, Some(body_handle))
                    },
                };
                proof {
                    lemma_room_views_insert(
                        before.physical_rooms@,
                        *room,
                        self.physical_rooms@[*room],
                    );
                    if r.0 == Tracking::Created {
                        let made = self.physical_rooms@[*room];
                        assert(self@.rooms =~= before@.with_world(*room, made.world).after_track_object(
                            *room,
                            entity,
                            made.physical_objects@[entity],
                        ).rooms);
                    }
                }
                r
            },
        }
    }

    /// Marks the tracked object of `entity` in `room` as seen in this tick.
    /// Tells whether there was one.
    pub fn visit_object(&mut self, room: &Entity, entity: &Entity) -> (seen: bool)
        requires
            old(self).wf(),
        ensures
            final(self).wf(),
            seen == old(self)@.object_of(*entity, *room).is_some(),
            seen ==> final(self)@ == old(self)@.with_room_changed(
                *room,
                old(self)@.rooms[*room].with_object_visited(*entity),
            ),
            !seen ==> final(self)@ == old(self)@,
    {
        let ghost before = *self;
        match self.physical_rooms.position(room) {
            None => false,
            Some(i) => {
                let physical_room = self.physical_rooms.value_at_mut(i);
                let seen = match physical_room.physical_objects.position(entity) {
                    Some(j) => {
                        let physical_object = physical_room.physical_objects.value_at_mut(j);
                        physical_object.visited = true;
                        true
                    },
                    None => false,
                };
                proof {
                    lemma_room_views_insert(
                        before.physical_rooms@,
                        *room,
                        self.physical_rooms@[*room],
                    );
                    if !seen {
                        assert(self.physical_rooms@ =~= before.physical_rooms@);
                    }
                }
                seen
            },
        }
    }
}

} // verus!
