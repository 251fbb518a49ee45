//! The constraint bridge: a pin constraint for every joint that is not a
//! multibody link, made once and marked on every tick in which the joint is
//! seen.

use vstd::prelude::*;
use crate::entity::{BodyHandle, ConstraintHandle, Entity};
use crate::physics::PhysicalConstraint;
use crate::physics::model::{JointLink, SystemView};
use crate::physics::objects::Tracking;
use crate::physics::registry::{lemma_room_views_insert, PhysicsSystem};
use crate::scalar::Scalar;

verus! {

/// Where a pin constraint holds its two bodies, each place given from the
/// body that it is on.
#[derive(Clone, Copy, Debug, PartialEq, Eq)]
pub struct Anchors {
    pub anchor1: (Scalar, Scalar),
    pub anchor2: (Scalar, Scalar),
}

/// The anchors of a pin constraint between a body at `position1` and a body
/// at `position2` that keeps the two where they are: the first body is held
/// at its own position, the second at the offset from it to the first,
/// taken component by component with the subtraction `difference` of the
/// caller.
pub fn pin_anchors<S: Fn(Scalar, Scalar) -> Scalar>(
    position1: (Scalar, Scalar),
    position2: (Scalar, Scalar),
    difference: S,
) -> (anchors: Anchors)
    requires
        forall|a: Scalar, b: Scalar| difference.requires((a, b)),
    ensures
        anchors.anchor1 == (Scalar { bits: 0 }, Scalar { bits: 0 }),
        difference.ensures((position1.0, position2.0), anchors.anchor2.0),
        difference.ensures((position1.1, position2.1), anchors.anchor2.1),
{
    let x = difference(position1.0, position2.0);
    let y = difference(position1.1, position2.1);
    Anchors { anchor1: (Scalar::zero(), Scalar::zero()), anchor2: (x, y) }
}

/// What the bridge asks of its caller for one joint in one tick.
#[derive(Clone, Copy, Debug, PartialEq, Eq)]
pub enum ConstraintPlan {
    /// The joint is a multibody link: it has no constraint.
    MultibodyLink,
    /// The far end is placed in another room than the joint's owner: no
    /// constraint is made.
    RoomMismatch,
    /// The far end is placed in no room and is not the owner's room itself:
    /// no constraint is made.
    LinkedRoomUnknown,
    /// The owner's room has no world.
    MissingRoom,
    /// One end has no body in the room.
    MissingBody,
    /// The constraint is tracked already: nothing is made.
    Keep(PhysicalConstraint),
    /// A pin constraint is to be made between the two bodies, at the offset
    /// that they have now.
    Create { body1: BodyHandle, body2: BodyHandle },
}

impl<W> SystemView<W> {
    /// What is to be done for the joint `link` of `entity`, an object of the
    /// room `room_entity`.
    pub open spec fn constraint_plan(
        self,
        room_entity: Entity,
        entity: Entity,
        link: JointLink,
    ) -> ConstraintPlan {
        if link.joint.multibody_link {
            ConstraintPlan::MultibodyLink
        } else if link.linked_room.is_some() && link.linked_room.unwrap().id != room_entity.id {
            ConstraintPlan::RoomMismatch
        } else if link.linked_room.is_none() && link.linked_to.id != room_entity.id {
            ConstraintPlan::LinkedRoomUnknown
        } else if !self.rooms.dom().contains(room_entity) {
            ConstraintPlan::MissingRoom
        } else {
            match (self.body_of(entity, room_entity), self.body_of(link.linked_to, room_entity)) {
                (Some(body1), Some(body2)) => if self.rooms[room_entity].constraints.dom().contains(
                    entity,
                ) {
                    ConstraintPlan::Keep(self.rooms[room_entity].constraints[entity])
                } else {
                    ConstraintPlan::Create { body1, body2 }
                },
                _ => ConstraintPlan::MissingBody,
            }
        }
    }

    /// The state after the constraint `handle` was offered for the joint of
    /// `entity` in `room`.
    pub open spec fn after_track_constraint(
        self,
        room: Entity,
        entity: Entity,
        handle: ConstraintHandle,
    ) -> SystemView<W> {
        if !self.rooms.dom().contains(room) {
            self
        } else if self.rooms[room].constraints.dom().contains(entity) {
            self.with_room_changed(room, self.rooms[room].with_constraint_visited(entity))
        } else {
            self.with_room_changed(
                room,
                self.rooms[room].with_constraint(
                    entity,
                    PhysicalConstraint {
                        revolute_constraint_handle: handle,
                        room_entity: room,
                        visited: true,
                    },
                ),
            )
        }
    }

    /// How offering a constraint for the joint of `entity` in `room` ends.
    pub open spec fn track_constraint_outcome(self, room: Entity, entity: Entity) -> Tracking {
        if !self.rooms.dom().contains(room) {
            Tracking::MissingRoom
        } else if self.rooms[room].constraints.dom().contains(entity) {
            Tracking::Existing
        } else {
            Tracking::Created
        }
    }
}

impl<W> PhysicsSystem<W> {
    /// What is tracked for the joint of `entity` in `room`.
    pub fn tracked_constraint(&self, room: &Entity, entity: &Entity) -> (r: Option<
        PhysicalConstraint,
    >)
        requires
            self.wf(),
        ensures
            r == self@.constraint_of(*entity, *room),
    {
        match self.physical_rooms.get(room) {
            Some(physical_room) => match physical_room.physical_constraints.get(entity) {
                Some(physical_constraint) => Some(*physical_constraint),
                None => None,
            },
            None => None,
        }
    }

    /// What is to be done for the joint `link` of `entity`, an object of the
    /// room `room_entity`.
    pub fn plan_constraint(&self, room_entity: &Entity, entity: &Entity, link: JointLink) -> (plan:
        ConstraintPlan)
        requires
            self.wf(),
        ensures
            plan == self@.constraint_plan(*room_entity, *entity, link),
    {
        if link.joint.multibody_link {
            return ConstraintPlan::MultibodyLink;
        }
        let body1 = self.get_body_handle(entity, room_entity);
        let body2 = self.get_body_handle(&link.linked_to, room_entity);
        match link.linked_room {
            Some(linked_room) => {
                if linked_room.id != room_entity.id {
                    return ConstraintPlan::RoomMismatch;
                }
            },
            None => {
                if link.linked_to.id != room_entity.id {
                    return ConstraintPlan::LinkedRoomUnknown;
                }
            },
        }
        let physical_room = match self.physical_rooms.get(room_entity) {
            Some(physical_room) => physical_room,
            None => {
                return ConstraintPlan::MissingRoom;
            },
        };
        match (body1, body2) {
            (Some(body1), Some(body2)) => match physical_room.physical_constraints.get(entity) {
                Some(physical_constraint) => ConstraintPlan::Keep(*physical_constraint),
                None => ConstraintPlan::Create { body1, body2 },
            },
            _ => ConstraintPlan::MissingBody,
        }
    }

    /// Records the constraint that was made for the joint of `entity` in
    /// `room`, and marks it as seen in this tick. A joint whose constraint is
    /// tracked already keeps it: the constraint is made once.
    pub fn track_constraint(&mut self, room: &Entity, entity: Entity, handle: ConstraintHandle) -> (outcome:
        Tracking)
        requires
            old(self).wf(),
        ensures
            final(self).wf(),
            outcome == old(self)@.track_constraint_outcome(*room, entity),
            final(self)@ == old(self)@.after_track_constraint(*room, entity, handle),
    {
        let ghost before = *self;
        match self.physical_rooms.position(room) {
            None => Tracking::MissingRoom,
            Some(i) => {
                let physical_room = self.physical_rooms.value_at_mut(i);
                let outcome = match physical_room.physical_constraints.position(&entity) {
                    Some(j) => {
                        let physical_constraint = physical_room.physical_constraints.value_at_mut(j);
                        physical_constraint.visited = true;
                        Tracking::Existing
                    },
                    None => {
                        physical_room.physical_constraints.insert(
                            entity,
                            PhysicalConstraint {
                                revolute_constraint_handle: handle,
                                room_entity: *room,
                                visited: true,
                            },
                        );
                        Tracking::Created
                    },
                };
                proof {
                    lemma_room_views_insert(
                        before.physical_rooms@,
                        *room,
                        self.physical_rooms@[*room],
                    );
                }
                outcome
            },
        }
    }

    /// Sees the joint `link` of `entity`, an object of the room
    /// `room_entity`, and tells what was to be done for it. A constraint
    /// that is tracked is marked as seen. Where one is to be made, `make`
    /// makes it between the two bodies in the room's world, and it is tracked
    /// for the entity. In every other case nothing happens.
    pub fn see_constraint<M: FnOnce(&mut W, BodyHandle, BodyHandle) -> ConstraintHandle>(
        &mut self,
        room_entity: &Entity,
        entity: Entity,
        link: JointLink,
        make: M,
    ) -> (plan: ConstraintPlan)
        requires
            old(self).wf(),
            forall|world: &mut W, body1: BodyHandle, body2: BodyHandle|
                make.requires((world, body1, body2)),
        ensures
            final(self).wf(),
            plan == old(self)@.constraint_plan(*room_entity, entity, link),
            plan is Keep ==> final(self)@ == old(self)@.with_room_changed(
                *room_entity,
                old(self)@.rooms[*room_entity].with_constraint_visited(entity),
            ),
            plan is Create ==> exists|world: &mut W, handle: ConstraintHandle|
                {
                    &&& *world == old(self)@.rooms[*room_entity].world
                    &&& #[trigger] make.ensures((world, plan->body1, plan->body2), handle)
                    &&& final(self)@ == old(self)@.with_world(
                        *room_entity,
                        *final(world),
                    ).after_track_constraint(*room_entity, entity, handle)
                },
            !(plan is Keep) && !(plan is Create) ==> final(self)@ == old(self)@,
    {
        let ghost before = *self;
        let plan = self.plan_constraint(room_entity, &entity, link);
        match plan {
            ConstraintPlan::Keep(_) => {
                self.visit_constraint(room_entity, &entity);
            },
            ConstraintPlan::Create { body1, body2 } => {
                match self.physical_rooms.position(room_entity) {
                    Some(i) => {
                        let physical_room = self.physical_rooms.value_at_mut(i);
                        let handle = make(&mut physical_room.world, body1, body2);
                        physical_room.physical_constraints.insert(
                            entity,
                            PhysicalConstraint {
                                revolute_constraint_handle: handle,
                                room_entity: *room_entity,
                                visited: true,
                            },
                        );
                        proof {
                            lemma_room_views_insert(
                                before.physical_rooms@,
                                *room_entity,
                                self.physical_rooms@[*room_entity],
                            );
                            let made = self.physical_rooms@[*room_entity];
                            assert(self@.rooms =~= before@.with_world(
                                *room_entity,
                                made.world,
                            ).after_track_constraint(*room_entity, entity, handle).rooms);
                        }
                    },
                    None => {},
                }
            },
            _ => {},
        }
        plan
    }

    /// Marks the tracked constraint of the joint of `entity` in `room` as
    /// seen in this tick. Tells whether there was one.
    pub fn visit_constraint(&mut self, room: &Entity, entity: &Entity) -> (seen: bool)
        requires
            old(self).wf(),
        ensures
            final(self).wf(),
            seen == old(self)@.constraint_of(*entity, *room).is_some(),
            seen ==> final(self)@ == old(self)@.with_room_changed(
                *room,
                old(self)@.rooms[*room].with_constraint_visited(*entity),
            ),
            !seen ==> final(self)@ == old(self)@,
    {
        let ghost before = *self;
        match self.physical_rooms.position(room) {
            None => false,
            Some(i) => {
                let physical_room = self.physical_rooms.value_at_mut(i);
                let seen = match physical_room.physical_constraints.position(entity) {
                    Some(j) => {
                        let physical_constraint = physical_room.physical_constraints.value_at_mut(j);
                        physical_constraint.visited = true;
                        true
                    },
                    None => false,
                };
                proof {
                    lemma_room_views_insert(
                        before.physical_rooms@,
                        *room,
                        self.physical_rooms@[*room],
                    );
                    if !seen {
                        assert(self.physical_rooms@ =~= before.physical_rooms@);
                    }
                }
                seen
            },
        }
    }
}

} // verus!
