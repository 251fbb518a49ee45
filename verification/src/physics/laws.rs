//! What holds of the bridge as a whole, proved over its state.

use vstd::prelude::*;
use crate::entity::{
    BodyHandle,
    CollisionObjectHandle,
    ConstraintHandle,
    Entity,
    ForceGeneratorHandle,
};
use crate::physics::{Aim, PhysicalConstraint, PhysicalObject};
use crate::physics::model::{
    object_removal,
    removal_of,
    JointLink,
    Presence,
    RoomView,
    SystemView,
    WorldAction,
};
use crate::physics::objects::{ObjectPlan, Tracking};
use crate::physics::raycast::RayHit;
use crate::physics::teardown::{in_room, MarkedView, Placed};
use crate::table::{entry_in, unvisited_in, Visited};

verus! {

/// Rooms are isolated. Whatever is tracked, marked, swept, severed or
/// destroyed in one room, every other room stays exactly as it is: it knows
/// the same objects, constraints and collision objects, and an aim that is
/// resolved in it finds the same target.
pub proof fn rooms_are_isolated<W>(
    view: SystemView<W>,
    a: Entity,
    b: Entity,
    entity: Entity,
    object: PhysicalObject,
    handle: ConstraintHandle,
    shooter: Entity,
    aim: Aim,
    hits: Seq<RayHit>,
    collision_object: CollisionObjectHandle,
)
    requires
        a != b,
    ensures
        forall|after: SystemView<W>| #[trigger]
            changes_only(view, a, after) ==> {
                &&& after.rooms.dom().contains(b) == view.rooms.dom().contains(b)
                &&& view.rooms.dom().contains(b) ==> after.rooms[b] == view.rooms[b]
                &&& after.object_of(entity, b) == view.object_of(entity, b)
                &&& after.constraint_of(entity, b) == view.constraint_of(entity, b)
                &&& after.body_of(entity, b) == view.body_of(entity, b)
                &&& after.entity_behind(b, collision_object) == view.entity_behind(
                    b,
                    collision_object,
                )
                &&& after.resolved_aim(b, shooter, aim, hits) == view.resolved_aim(
                    b,
                    shooter,
                    aim,
                    hits,
                )
            },
        changes_only(view, a, view.after_track_object(a, entity, object)),
        changes_only(view, a, view.after_track_constraint(a, entity, handle)),
        changes_only(view, a, view.after_sweep_room(a)),
        changes_only(view, a, view.after_sever(a, entity)),
        changes_only(view, a, view.after_destroy_object(a, entity)),
{
}

/// `after` differs from `before` in the room `room` at most: the same rooms
/// are registered, and every other room is the same.
pub open spec fn changes_only<W>(before: SystemView<W>, room: Entity, after: SystemView<W>) -> bool {
    &&& forall|e: Entity| after.rooms.dom().contains(e) == before.rooms.dom().contains(e)
    &&& forall|e: Entity| #[trigger]
        before.rooms.dom().contains(e) && e != room ==> after.rooms[e] == before.rooms[e]
}

/// Tracking preserves validity.
pub proof fn tracking_keeps_valid<W>(
    view: SystemView<W>,
    room: Entity,
    entity: Entity,
    object: PhysicalObject,
    handle: ConstraintHandle,
)
    requires
        view.valid(),
    ensures
        view.after_track_object(room, entity, object).valid(),
        view.after_track_constraint(room, entity, handle).valid(),
{
    if view.rooms.dom().contains(room) {
        let r = view.rooms[room];
        assert(r.valid());
        let after_object = view.after_track_object(room, entity, object);
        lemma_room_tracking_keeps_valid(r, entity, object, handle);
        assert forall|e: Entity| #[trigger] after_object.rooms.dom().contains(e) implies after_object.rooms[e].valid()
            && after_object.rooms[e].room_entity == e by {
            if e != room {
                assert(view.rooms.dom().contains(e));
            }
        }
        let after_constraint = view.after_track_constraint(room, entity, handle);
        assert forall|e: Entity| #[trigger] after_constraint.rooms.dom().contains(e) implies after_constraint.rooms[e].valid()
            && after_constraint.rooms[e].room_entity == e by {
            if e != room {
                assert(view.rooms.dom().contains(e));
            }
        }
    }
}

proof fn lemma_room_tracking_keeps_valid<W>(
    r: RoomView<W>,
    entity: Entity,
    object: PhysicalObject,
    handle: ConstraintHandle,
)
    requires
        r.valid(),
    ensures
        r.with_object_visited(entity).valid() || !r.objects.dom().contains(entity),
        r.with_object(entity, object).valid() || r.objects.dom().contains(entity),
        r.with_constraint_visited(entity).valid() || !r.constraints.dom().contains(entity),
        r.with_constraint(
            entity,
            PhysicalConstraint {
                revolute_constraint_handle: handle,
                room_entity: r.room_entity,
                visited: true,
            },
        ).valid() || r.constraints.dom().contains(entity),
{
    if r.objects.dom().contains(entity) {
        let r1 = r.with_object_visited(entity);
        assert forall|e: Entity| r1.objects.dom().contains(e) <==> r1.object_order.contains(e) by {
            assert(r.objects.dom().contains(e) <==> r.object_order.contains(e));
        }
        assert(r1.valid());
    } else {
        let r1 = r.with_object(entity, object);
        lemma_push_fresh(r.object_order, entity);
        assert forall|e: Entity| r1.objects.dom().contains(e) <==> r1.object_order.contains(e) by {
            assert(r.objects.dom().contains(e) <==> r.object_order.contains(e));
        }
        assert(r1.valid());
    }
    if r.constraints.dom().contains(entity) {
        let r2 = r.with_constraint_visited(entity);
        assert forall|e: Entity|
            r2.constraints.dom().contains(e) <==> r2.constraint_order.contains(e) by {
            assert(r.constraints.dom().contains(e) <==> r.constraint_order.contains(e));
        }
        assert forall|e: Entity| #[trigger] r2.constraints.dom().contains(e) implies r2.constraints[e].room_entity
            == r2.room_entity by {
            assert(r.constraints.dom().contains(e));
        }
        assert(r2.valid());
    } else {
        let r2 = r.with_constraint(
            entity,
            PhysicalConstraint {
                revolute_constraint_handle: handle,
                room_entity: r.room_entity,
                visited: true,
            },
        );
        lemma_push_fresh(r.constraint_order, entity);
        assert forall|e: Entity|
            r2.constraints.dom().contains(e) <==> r2.constraint_order.contains(e) by {
            assert(r.constraints.dom().contains(e) <==> r.constraint_order.contains(e));
        }
        assert forall|e: Entity| #[trigger] r2.constraints.dom().contains(e) implies r2.constraints[e].room_entity
            == r2.room_entity by {
            if e != entity {
                assert(r.constraints.dom().contains(e));
            }
        }
        assert(r2.valid());
    }
}

proof fn lemma_push_fresh<A>(s: Seq<A>, a: A)
    requires
        s.no_duplicates(),
        !s.contains(a),
    ensures
        s.push(a).no_duplicates(),
        forall|x: A| s.push(a).contains(x) <==> s.contains(x) || x == a,
{
    assert forall|x: A| s.push(a).contains(x) <==> s.contains(x) || x == a by {
        if s.push(a).contains(x) {
            let i = s.push(a).index_of(x);
            assert(0 <= i < s.push(a).len() && s.push(a)[i] == x);
            if i < s.len() {
                assert(s[i] == x);
            }
        }
        if s.contains(x) {
            let i = s.index_of(x);
            assert(0 <= i < s.len() && s[i] == x);
            assert(s.push(a)[i] == x);
        }
        if x == a {
            assert(s.push(a)[s.len() as int] == x);
        }
    }
    assert forall|i: int, j: int| 0 <= i < s.push(a).len() && 0 <= j < s.push(a).len() && i
        != j implies s.push(a)[i] != s.push(a)[j] by {
        if i < s.len() && j < s.len() {
        } else if i < s.len() {
            assert(s.contains(s[i]));
        } else {
            assert(s.contains(s[j]));
        }
    }
}

/// Creation is lazy and happens once. When an object has been kept for an
/// entity of a registered room, the plan for that entity is to keep what is
/// there, whatever kind of object it is; offering another body for it records
/// nothing new; and the room holds the entity once.
pub proof fn creation_happens_once<W>(
    view: SystemView<W>,
    room: Entity,
    entity: Entity,
    object: PhysicalObject,
    other: PhysicalObject,
    link: Option<JointLink>,
)
    requires
        view.valid(),
        view.rooms.dom().contains(room),
    ensures
        ({
            let once = view.after_track_object(room, entity, object);
            let kept = once.rooms[room].objects[entity];
            &&& once.valid()
            &&& once.object_of(entity, room) == Some(kept)
            &&& kept.visited
            &&& once.terrain_plan(room, entity) == ObjectPlan::Keep(kept)
            &&& once.dynamic_plan(room, entity, link) == ObjectPlan::Keep(kept)
            &&& once.track_object_outcome(room, entity) == Tracking::Existing
            &&& once.after_track_object(room, entity, other) == once
            &&& once.rooms[room].object_order.no_duplicates()
            &&& once.rooms[room].object_order.contains(entity)
        }),
{
    tracking_keeps_valid(view, room, entity, object, ConstraintHandle { index: 0, generation: 0 });
    let once = view.after_track_object(room, entity, object);
    let twice = once.after_track_object(room, entity, other);
    assert(once.rooms[room].valid());
    assert(twice.rooms[room].objects =~= once.rooms[room].objects);
    assert(twice.rooms[room] == once.rooms[room]);
    assert(twice.rooms =~= once.rooms);
}

/// One step of the walk over the gameplay world that follows the start of a
/// tick: a room is registered, something is made in the world of a room, or
/// something is offered or marked as seen.
pub enum Pass<W> {
    AddRoom {
        room_entity: Entity,
        world: W,
        ground: BodyHandle,
        walls: [CollisionObjectHandle; 4],
        force_generator: ForceGeneratorHandle,
    },
    ChangeWorld { room: Entity, world: W },
    TrackObject { room: Entity, entity: Entity, object: PhysicalObject },
    VisitObject { room: Entity, entity: Entity },
    TrackConstraint { room: Entity, entity: Entity, handle: ConstraintHandle },
    VisitConstraint { room: Entity, entity: Entity },
}

impl<W> Pass<W> {
    /// The step offers or marks the object of `entity` in `room`.
    pub open spec fn marks_object(self, room: Entity, entity: Entity) -> bool {
        match self {
            Pass::TrackObject { room: r, entity: e, .. } => r == room && e == entity,
            Pass::VisitObject { room: r, entity: e } => r == room && e == entity,
            _ => false,
        }
    }
}

impl<W> SystemView<W> {
    /// The state after one step of the walk.
    pub open spec fn after_pass(self, pass: Pass<W>) -> SystemView<W> {
        match pass {
            Pass::AddRoom { room_entity, world, ground, walls, force_generator } => {
                if self.rooms.dom().contains(room_entity) {
                    self
                } else {
                    self.with_room(RoomView::fresh(room_entity, world, ground, walls, force_generator))
                }
            },
            Pass::ChangeWorld { room, world } => {
                if self.rooms.dom().contains(room) {
                    self.with_world(room, world)
                } else {
                    self
                }
            },
            Pass::TrackObject { room, entity, object } => self.after_track_object(
                room,
                entity,
                object,
            ),
            Pass::VisitObject { room, entity } => {
                if self.object_of(entity, room).is_some() {
                    self.with_room_changed(room, self.rooms[room].with_object_visited(entity))
                } else {
                    self
                }
            },
            Pass::TrackConstraint { room, entity, handle } => self.after_track_constraint(
                room,
                entity,
                handle,
            ),
            Pass::VisitConstraint { room, entity } => {
                if self.constraint_of(entity, room).is_some() {
                    self.with_room_changed(room, self.rooms[room].with_constraint_visited(entity))
                } else {
                    self
                }
            },
        }
    }

    /// The state after the steps of `passes`, first to last.
    pub open spec fn after_passes(self, passes: Seq<Pass<W>>) -> SystemView<W>
        decreases passes.len(),
    {
        if passes.len() == 0 {
            self
        } else {
            self.after_passes(passes.drop_last()).after_pass(passes.last())
        }
    }
}

proof fn lemma_tick_start_keeps_valid<W>(view: SystemView<W>)
    requires
        view.valid(),
    ensures
        view.at_tick_start().valid(),
{
    let after = view.at_tick_start();
    assert forall|e: Entity| #[trigger] after.rooms.dom().contains(e) implies after.rooms[e].valid()
        && after.rooms[e].room_entity == e by {
        let r = view.rooms[e];
        let r1 = after.rooms[e];
        assert(r.valid());
        assert forall|x: Entity| r1.objects.dom().contains(x) <==> r1.object_order.contains(x) by {
            assert(r.objects.dom().contains(x) <==> r.object_order.contains(x));
        }
        assert forall|x: Entity|
            r1.constraints.dom().contains(x) <==> r1.constraint_order.contains(x) by {
            assert(r.constraints.dom().contains(x) <==> r.constraint_order.contains(x));
        }
        assert forall|x: Entity| #[trigger] r1.constraints.dom().contains(x) implies r1.constraints[x].room_entity
            == r1.room_entity by {
            assert(r.constraints.dom().contains(x));
        }
    }
}

proof fn lemma_pass_keeps_valid<W>(view: SystemView<W>, pass: Pass<W>)
    requires
        view.valid(),
    ensures
        view.after_pass(pass).valid(),
{
    let after = view.after_pass(pass);
    match pass {
        Pass::AddRoom { room_entity, world, ground, walls, force_generator } => {
            if !view.rooms.dom().contains(room_entity) {
                lemma_push_fresh(view.order, room_entity);
                let fresh = RoomView::fresh(room_entity, world, ground, walls, force_generator);
                assert(fresh.valid());
                assert forall|e: Entity| after.rooms.dom().contains(e) <==> after.order.contains(
                    e,
                ) by {
                    assert(view.rooms.dom().contains(e) <==> view.order.contains(e));
                }
                assert forall|e: Entity| #[trigger] after.rooms.dom().contains(e) implies after.rooms[e].valid()
                    && after.rooms[e].room_entity == e by {
                    if e != room_entity {
                        assert(view.rooms.dom().contains(e));
                    }
                }
            }
        },
        Pass::ChangeWorld { room, world } => {
            if view.rooms.dom().contains(room) {
                let r = view.rooms[room];
                let r1 = after.rooms[room];
                assert(r.valid());
                assert forall|e: Entity| #[trigger] r1.constraints.dom().contains(e) implies r1.constraints[e].room_entity
                    == r1.room_entity by {
                    assert(r.constraints.dom().contains(e));
                }
                assert(r1.valid());
                assert forall|e: Entity| #[trigger] after.rooms.dom().contains(e) implies after.rooms[e].valid()
                    && after.rooms[e].room_entity == e by {
                    if e != room {
                        assert(view.rooms.dom().contains(e));
                    }
                }
            }
        },
        Pass::TrackObject { room, entity, object } => {
            tracking_keeps_valid(
                view,
                room,
                entity,
                object,
                ConstraintHandle { index: 0, generation: 0 },
            );
        },
        Pass::VisitObject { room, entity } => {
            if view.object_of(entity, room).is_some() {
                tracking_keeps_valid(
                    view,
                    room,
                    entity,
                    view.rooms[room].objects[entity],
                    ConstraintHandle { index: 0, generation: 0 },
                );
            }
        },
        Pass::TrackConstraint { room, entity, handle } => {
            tracking_keeps_valid(
                view,
                room,
                entity,
                PhysicalObject {
                    body_handle: BodyHandle { index: 0, generation: 0, part: 0 },
                    collision_object_handle: CollisionObjectHandle { index: 0, generation: 0 },
                    multibody_parent: None,
                    visited: false,
                },
                handle,
            );
        },
        Pass::VisitConstraint { room, entity } => {
            if view.constraint_of(entity, room).is_some() {
                tracking_keeps_valid(
                    view,
                    room,
                    entity,
                    PhysicalObject {
                        body_handle: BodyHandle { index: 0, generation: 0, part: 0 },
                        collision_object_handle: CollisionObjectHandle { index: 0, generation: 0 },
                        multibody_parent: None,
                        visited: false,
                    },
                    ConstraintHandle { index: 0, generation: 0 },
                );
            }
        },
    }
}

proof fn lemma_passes_leave_unmarked<W>(
    view: SystemView<W>,
    room: Entity,
    entity: Entity,
    passes: Seq<Pass<W>>,
)
    requires
        view.valid(),
        view.object_of(entity, room).is_some(),
        forall|i: int| 0 <= i < passes.len() ==> !(#[trigger] passes[i]).marks_object(room, entity),
    ensures
        view.after_passes(passes).valid(),
        view.after_passes(passes).object_of(entity, room) == view.object_of(entity, room),
    decreases passes.len(),
{
    if passes.len() > 0 {
        let earlier = passes.drop_last();
        assert forall|i: int| 0 <= i < earlier.len() implies !(#[trigger] earlier[i]).marks_object(
            room,
            entity,
        ) by {
            assert(earlier[i] == passes[i]);
        }
        lemma_passes_leave_unmarked(view, room, entity, earlier);
        let before = view.after_passes(earlier);
        let pass = passes.last();
        assert(pass == passes[passes.len() - 1]);
        assert(!pass.marks_object(room, entity));
        lemma_pass_keeps_valid(before, pass);
    }
}

proof fn lemma_filter_keeps<A>(s: Seq<A>, pred: spec_fn(A) -> bool, a: A)
    requires
        s.contains(a),
        pred(a),
    ensures
        s.filter(pred).contains(a),
{
    let i = s.index_of(a);
    assert(0 <= i < s.len() && s[i] == a);
    s.lemma_filter_contains(pred, i);
}

proof fn lemma_map_values_keeps<A, B>(s: Seq<A>, f: spec_fn(A) -> B, a: A)
    requires
        s.contains(a),
    ensures
        s.map_values(f).contains(f(a)),
{
    let i = s.index_of(a);
    assert(0 <= i < s.len() && s[i] == a);
    assert(s.map_values(f)[i] == f(a));
}

proof fn lemma_add_keeps<A>(s: Seq<A>, t: Seq<A>, a: A)
    requires
        s.contains(a) || t.contains(a),
    ensures
        (s + t).contains(a),
{
    if s.contains(a) {
        let i = s.index_of(a);
        assert(0 <= i < s.len() && s[i] == a);
        assert((s + t)[i] == a);
    } else {
        let i = t.index_of(a);
        assert(0 <= i < t.len() && t[i] == a);
        assert((s + t)[s.len() + i] == a);
    }
}

proof fn lemma_sweep_actions_hold<W>(view: SystemView<W>, n: int, k: int, action: WorldAction)
    requires
        0 <= k < n <= view.order.len(),
        view.rooms[view.order[k]].sweep_actions().contains(action),
    ensures
        view.sweep_actions_of_first(n).contains((view.order[k], action)),
    decreases n,
{
    let room = view.order[n - 1];
    let earlier = view.sweep_actions_of_first(n - 1);
    let last = view.rooms[room].sweep_actions().map_values(in_room(room));
    if k == n - 1 {
        lemma_map_values_keeps(view.rooms[room].sweep_actions(), in_room(room), action);
    } else {
        lemma_sweep_actions_hold(view, n - 1, k, action);
    }
    lemma_add_keeps(earlier, last, (view.order[k], action));
}

/// What is not seen is collected. Take an object that is tracked for an
/// entity of a room when a tick starts. If the walk that follows neither
/// offers nor marks that object, whatever else it does, then the sweep at the
/// end of the tick forgets the object, and the removal of its body is among
/// what the sweep takes out of the room's world.
pub proof fn unseen_object_is_collected<W>(
    view: SystemView<W>,
    room: Entity,
    entity: Entity,
    passes: Seq<Pass<W>>,
)
    requires
        view.valid(),
        view.object_of(entity, room).is_some(),
        forall|i: int| 0 <= i < passes.len() ==> !(#[trigger] passes[i]).marks_object(room, entity),
    ensures
        ({
            let object = view.object_of(entity, room).unwrap();
            let walked = view.at_tick_start().after_passes(passes);
            &&& walked.object_of(entity, room) == Some(object.unvisited())
            &&& walked.swept().object_of(entity, room).is_none()
            &&& walked.after_sweep_room(room).object_of(entity, room).is_none()
            &&& walked.sweep_room_actions(room).contains(removal_of(object))
            &&& walked.sweep_actions().contains((room, removal_of(object)))
        }),
{
    let object = view.object_of(entity, room).unwrap();
    let started = view.at_tick_start();
    lemma_tick_start_keeps_valid(view);
    assert(started.object_of(entity, room) == Some(object.unvisited()));
    lemma_passes_leave_unmarked(started, room, entity, passes);
    let walked = started.after_passes(passes);
    let r = walked.rooms[room];
    assert(r.valid());
    assert(r.object_order.contains(entity));
    lemma_filter_keeps(r.object_order, unvisited_in(r.objects), entity);
    let unseen = r.object_order.filter(unvisited_in(r.objects));
    lemma_map_values_keeps(unseen, entry_in(r.objects), entity);
    lemma_map_values_keeps(r.dropped_objects(), object_removal(), (entity, r.objects[entity]));
    lemma_add_keeps(
        r.dropped_constraints().map_values(crate::physics::model::constraint_removal()),
        r.dropped_objects().map_values(object_removal()),
        removal_of(object),
    );
    assert(walked.order.contains(room));
    let k = walked.order.index_of(room);
    assert(0 <= k < walked.order.len() && walked.order[k] == room);
    lemma_sweep_actions_hold(walked, walked.order.len() as int, k, removal_of(object));
}

/// The life of a tracked object. In a registered room, an entity that is
/// absent is seen once an object is offered for it. The start of a tick
/// turns seen into unseen. Marking turns unseen into seen. The sweep leaves
/// what is seen and takes what is unseen, and what is absent stays absent
/// through all of these but the offer.
pub proof fn presence_follows_the_marks<W>(
    view: SystemView<W>,
    room: Entity,
    entity: Entity,
    object: PhysicalObject,
)
    requires
        view.rooms.dom().contains(room),
    ensures
        view.after_track_object(room, entity, object).presence(entity, room) == Presence::Seen,
        view.at_tick_start().presence(entity, room) == match view.presence(entity, room) {
            Presence::Absent => Presence::Absent,
            _ => Presence::Unseen,
        },
        view.after_sweep_room(room).presence(entity, room) == match view.presence(entity, room) {
            Presence::Seen => Presence::Seen,
            _ => Presence::Absent,
        },
        view.swept().presence(entity, room) == view.after_sweep_room(room).presence(entity, room),
        view.after_destroy_object(room, entity).presence(entity, room) == Presence::Absent,
        view.after_destroy_room(room).presence(entity, room) == Presence::Absent,
{
}

/// What is seen is kept: the sweep leaves a marked object as it is.
pub proof fn seen_object_is_kept<W>(view: SystemView<W>, room: Entity, entity: Entity)
    requires
        view.object_of(entity, room).is_some(),
        view.object_of(entity, room).unwrap().visited,
    ensures
        view.swept().object_of(entity, room) == view.object_of(entity, room),
        view.after_sweep_room(room).object_of(entity, room) == view.object_of(entity, room),
{
}

/// Bodies leave as they were made. A tracked body that stands alone leaves
/// the world as a body of its own, and when its entity is destroyed the
/// constraint of its joint is forgotten with it and leaves first. A body that
/// was made as a link of a chain leaves as a link.
pub proof fn bodies_leave_as_they_were_made<W>(room: RoomView<W>, entity: Entity)
    requires
        room.objects.dom().contains(entity),
    ensures
        ({
            let object = room.objects[entity];
            let alone = WorldAction::RemoveBody {
                body: object.body_handle,
                collision_object: object.collision_object_handle,
            };
            let linked = WorldAction::RemoveMultibodyLink {
                body: object.body_handle,
                collision_object: object.collision_object_handle,
            };
            &&& object.multibody_parent.is_none() ==> removal_of(object) == alone
            &&& object.multibody_parent.is_none() ==> !room.after_destroy(
                entity,
            ).constraints.dom().contains(entity)
            &&& object.multibody_parent.is_none() && room.constraints.dom().contains(entity)
                ==> room.destroy_actions(entity) == seq![
                WorldAction::RemoveConstraint(room.constraints[entity].revolute_constraint_handle),
                alone,
            ]
            &&& object.multibody_parent.is_none() && !room.constraints.dom().contains(entity)
                ==> room.destroy_actions(entity) == seq![alone]
            &&& object.multibody_parent.is_some() ==> removal_of(object) == linked
                && room.destroy_actions(entity) == seq![linked]
        }),
{
}

/// The action is the removal of a constraint.
pub open spec fn removes_constraint(action: WorldAction) -> bool {
    action is RemoveConstraint
}

proof fn lemma_sever_keeps_absent<W>(
    view: SystemView<W>,
    room: Entity,
    entity: Entity,
    other_room: Entity,
    other: Entity,
)
    ensures
        view.after_sever(room, entity).constraint_of(entity, room).is_none(),
        view.constraint_of(entity, room).is_none() ==> view.after_sever(other_room, other).constraint_of(
            entity,
            room,
        ).is_none(),
        view.constraint_of(entity, room).is_none() ==> view.after_destroy_object(
            other_room,
            other,
        ).constraint_of(entity, room).is_none(),
        view.constraint_of(entity, room).is_none() ==> view.after_destroy_room(
            other_room,
        ).constraint_of(entity, room).is_none(),
        (other_room != room || other != entity) ==> view.after_sever(other_room, other).constraint_of(
            entity,
            room,
        ) == view.constraint_of(entity, room),
{
}

proof fn lemma_severing_keeps_absent<W>(
    view: SystemView<W>,
    room: Entity,
    entity: Entity,
    joints: Seq<Placed>,
)
    requires
        view.constraint_of(entity, room).is_none(),
    ensures
        view.after_severing(joints).constraint_of(entity, room).is_none(),
    decreases joints.len(),
{
    if joints.len() > 0 {
        lemma_severing_keeps_absent(view, room, entity, joints.drop_last());
        lemma_sever_keeps_absent(
            view.after_severing(joints.drop_last()),
            room,
            entity,
            joints.last().room,
            joints.last().entity,
        );
    }
}

proof fn lemma_destroying_objects_keeps_absent<W>(
    view: SystemView<W>,
    room: Entity,
    entity: Entity,
    objects: Seq<Placed>,
)
    requires
        view.constraint_of(entity, room).is_none(),
    ensures
        view.after_destroying_objects(objects).constraint_of(entity, room).is_none(),
    decreases objects.len(),
{
    if objects.len() > 0 {
        lemma_destroying_objects_keeps_absent(view, room, entity, objects.drop_last());
        lemma_sever_keeps_absent(
            view.after_destroying_objects(objects.drop_last()),
            room,
            entity,
            objects.last().room,
            objects.last().entity,
        );
    }
}

proof fn lemma_destroying_rooms_keeps_absent<W>(
    view: SystemView<W>,
    room: Entity,
    entity: Entity,
    rooms: Seq<Entity>,
)
    requires
        view.constraint_of(entity, room).is_none(),
    ensures
        view.after_destroying_rooms(rooms).constraint_of(entity, room).is_none(),
    decreases rooms.len(),
{
    if rooms.len() > 0 {
        lemma_destroying_rooms_keeps_absent(view, room, entity, rooms.drop_last());
        lemma_sever_keeps_absent(
            view.after_destroying_rooms(rooms.drop_last()),
            room,
            entity,
            rooms.last(),
            entity,
        );
    }
}

proof fn lemma_severing_severs<W>(view: SystemView<W>, joints: Seq<Placed>, k: int)
    requires
        0 <= k < joints.len(),
    ensures
        view.after_severing(joints).constraint_of(joints[k].entity, joints[k].room).is_none(),
        forall|i: int|
            0 <= i < view.severing_actions(joints).len() ==> removes_constraint(
                (#[trigger] view.severing_actions(joints)[i]).1,
            ),
        view.constraint_of(joints[k].entity, joints[k].room).is_some() ==> view.severing_actions(
            joints,
        ).contains(
            (
                joints[k].room,
                WorldAction::RemoveConstraint(
                    view.constraint_of(
                        joints[k].entity,
                        joints[k].room,
                    ).unwrap().revolute_constraint_handle,
                ),
            ),
        ),
    decreases joints.len(),
{
    let earlier = joints.drop_last();
    let before = view.after_severing(earlier);
    let last = joints.last();
    let room = joints[k].room;
    let entity = joints[k].entity;
    let earlier_actions = view.severing_actions(earlier);
    let step = before.sever_actions(last.room, last.entity);
    assert(view.severing_actions(joints) == earlier_actions + step);
    lemma_sever_keeps_absent(before, room, entity, last.room, last.entity);
    if k < earlier.len() {
        assert(earlier[k] == joints[k]);
        lemma_severing_severs(view, earlier, k);
        if view.constraint_of(entity, room).is_some() {
            lemma_add_keeps(
                earlier_actions,
                step,
                (
                    room,
                    WorldAction::RemoveConstraint(
                        view.constraint_of(entity, room).unwrap().revolute_constraint_handle,
                    ),
                ),
            );
        }
    } else {
        assert(last == joints[k]);
        lemma_severing_all_remove_constraints(view, earlier);
        if view.constraint_of(entity, room).is_some() {
            lemma_severing_severs_or_keeps(view, earlier, room, entity);
            let wanted = (
                room,
                WorldAction::RemoveConstraint(
                    view.constraint_of(entity, room).unwrap().revolute_constraint_handle,
                ),
            );
            if !earlier_actions.contains(wanted) {
                assert(step[0] == wanted);
            }
            lemma_add_keeps(earlier_actions, step, wanted);
        }
    }
    assert forall|i: int| 0 <= i < view.severing_actions(joints).len() implies removes_constraint(
        (#[trigger] view.severing_actions(joints)[i]).1,
    ) by {
        if i < earlier_actions.len() {
            assert(view.severing_actions(joints)[i] == earlier_actions[i]);
        } else {
            assert(view.severing_actions(joints)[i] == step[i - earlier_actions.len()]);
        }
    }
}

proof fn lemma_severing_all_remove_constraints<W>(view: SystemView<W>, joints: Seq<Placed>)
    ensures
        forall|i: int|
            0 <= i < view.severing_actions(joints).len() ==> removes_constraint(
                (#[trigger] view.severing_actions(joints)[i]).1,
            ),
    decreases joints.len(),
{
    if joints.len() > 0 {
        let earlier = joints.drop_last();
        lemma_severing_all_remove_constraints(view, earlier);
        let earlier_actions = view.severing_actions(earlier);
        let step = view.after_severing(earlier).sever_actions(
            joints.last().room,
            joints.last().entity,
        );
        assert forall|i: int|
            0 <= i < view.severing_actions(joints).len() implies removes_constraint(
            (#[trigger] view.severing_actions(joints)[i]).1,
        ) by {
            if i < earlier_actions.len() {
                assert(view.severing_actions(joints)[i] == earlier_actions[i]);
            } else {
                assert(view.severing_actions(joints)[i] == step[i - earlier_actions.len()]);
            }
        }
    }
}

proof fn lemma_severing_severs_or_keeps<W>(
    view: SystemView<W>,
    joints: Seq<Placed>,
    room: Entity,
    entity: Entity,
)
    requires
        view.constraint_of(entity, room).is_some(),
    ensures
        view.after_severing(joints).constraint_of(entity, room) == view.constraint_of(entity, room)
            || view.severing_actions(joints).contains(
            (
                room,
                WorldAction::RemoveConstraint(
                    view.constraint_of(entity, room).unwrap().revolute_constraint_handle,
                ),
            ),
        ),
    decreases joints.len(),
{
    if joints.len() > 0 {
        let earlier = joints.drop_last();
        let before = view.after_severing(earlier);
        let last = joints.last();
        let earlier_actions = view.severing_actions(earlier);
        let step = before.sever_actions(last.room, last.entity);
        let wanted = (
            room,
            WorldAction::RemoveConstraint(
                view.constraint_of(entity, room).unwrap().revolute_constraint_handle,
            ),
        );
        lemma_severing_severs_or_keeps(view, earlier, room, entity);
        lemma_sever_keeps_absent(before, room, entity, last.room, last.entity);
        if earlier_actions.contains(wanted) {
            lemma_add_keeps(earlier_actions, step, wanted);
        } else if last.room == room && last.entity == entity {
            assert(step[0] == wanted);
            lemma_add_keeps(earlier_actions, step, wanted);
        }
    }
}

/// Severance comes first. Take a joint whose far end is marked for
/// destruction. After the teardown of the tick no constraint is tracked for
/// the joint. If one was tracked before, its removal is among the first
/// actions of the teardown, those of the step that severs such joints; that
/// step removes constraints and nothing else, so the removal comes before
/// every body that the teardown takes out of a world.
pub proof fn severed_before_destroyed<W>(view: SystemView<W>, marked: MarkedView, k: int)
    requires
        0 <= k < marked.severed_joints.len(),
    ensures
        ({
            let joint = marked.severed_joints[k];
            let severing = view.severing_actions(marked.severed_joints);
            let actions = view.teardown_actions(marked);
            &&& view.after_teardown(marked).constraint_of(joint.entity, joint.room).is_none()
            &&& severing.len() <= actions.len()
            &&& forall|i: int|
                0 <= i < severing.len() ==> removes_constraint((#[trigger] actions[i]).1)
            &&& forall|i: int|
                0 <= i < actions.len() && !removes_constraint((#[trigger] actions[i]).1)
                    ==> severing.len() <= i
            &&& view.constraint_of(joint.entity, joint.room).is_some() ==> exists|i: int|
                0 <= i < severing.len() && #[trigger] actions[i] == (
                    joint.room,
                    WorldAction::RemoveConstraint(
                        view.constraint_of(
                            joint.entity,
                            joint.room,
                        ).unwrap().revolute_constraint_handle,
                    ),
                )
        }),
{
    let joint = marked.severed_joints[k];
    let severing = view.severing_actions(marked.severed_joints);
    let actions = view.teardown_actions(marked);
    lemma_severing_severs(view, marked.severed_joints, k);
    lemma_destroying_objects_keeps_absent(
        view.teardown_severed(marked),
        joint.room,
        joint.entity,
        marked.objects,
    );
    lemma_destroying_rooms_keeps_absent(
        view.teardown_objects_gone(marked),
        joint.room,
        joint.entity,
        marked.rooms,
    );
    lemma_severing_keeps_absent(
        view.teardown_rooms_gone(marked),
        joint.room,
        joint.entity,
        marked.joints,
    );
    assert forall|i: int| 0 <= i < severing.len() implies removes_constraint(
        (#[trigger] actions[i]).1,
    ) by {
        assert(actions[i] == severing[i]);
    }
    if view.constraint_of(joint.entity, joint.room).is_some() {
        let wanted = (
            joint.room,
            WorldAction::RemoveConstraint(
                view.constraint_of(joint.entity, joint.room).unwrap().revolute_constraint_handle,
            ),
        );
        let i = severing.index_of(wanted);
        assert(0 <= i < severing.len() && severing[i] == wanted);
        assert(actions[i] == wanted);
    }
}

} // verus!
