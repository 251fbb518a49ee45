//! Taking things down. Mark and sweep: the marks are cleared when a tick
//! starts, set while the gameplay world is walked, and what is left unmarked
//! is taken out. Explicit teardown: what the gameplay world marks for
//! destruction is taken out whether it was seen or not, joints before the
//! bodies that they hold.

use vstd::prelude::*;
use crate::entity::{slots, CollisionObjectHandle, ConstraintHandle, Entity};
use crate::physics::{InRoom, PhysicalObject};
use crate::physics::model::{
    collision_object_of,
    constraint_removal,
    object_removal,
    removal_of,
    SystemView,
    WorldAction,
};
use crate::physics::registry::{
    lemma_room_views_insert,
    lemma_room_views_remove,
    PhysicalRoom,
    PhysicsSystem,
};

verus! {

impl<W> SystemView<W> {
    /// The state at the start of a tick: nothing is marked as seen.
    pub open spec fn at_tick_start(self) -> SystemView<W> {
        SystemView {
            rooms: Map::new(
                |e: Entity| self.rooms.dom().contains(e),
                |e: Entity| self.rooms[e].at_tick_start(),
            ),
            order: self.order,
        }
    }

    /// The state after the sweep of `room`.
    pub open spec fn after_sweep_room(self, room: Entity) -> SystemView<W> {
        if self.rooms.dom().contains(room) {
            self.with_room_changed(room, self.rooms[room].swept())
        } else {
            self
        }
    }

    /// The state after the sweep of every room.
    pub open spec fn swept(self) -> SystemView<W> {
        SystemView {
            rooms: Map::new(
                |e: Entity| self.rooms.dom().contains(e),
                |e: Entity| self.rooms[e].swept(),
            ),
            order: self.order,
        }
    }

    /// What the sweep of the first `n` rooms of the order takes out of
    /// their worlds.
    pub open spec fn sweep_actions_of_first(self, n: int) -> Seq<(Entity, WorldAction)>
        decreases n,
    {
        if n <= 0 {
            Seq::empty()
        } else {
            let room = self.order[n - 1];
            self.sweep_actions_of_first(n - 1) + self.rooms[room].sweep_actions().map_values(
                in_room(room),
            )
        }
    }

    /// What the sweep of every room takes out of the worlds, room after room
    /// in the order of registration.
    pub open spec fn sweep_actions(self) -> Seq<(Entity, WorldAction)> {
        self.sweep_actions_of_first(self.order.len() as int)
    }

    /// What the sweep of `room` takes out of its world.
    pub open spec fn sweep_room_actions(self, room: Entity) -> Seq<WorldAction> {
        if self.rooms.dom().contains(room) {
            self.rooms[room].sweep_actions()
        } else {
            Seq::empty()
        }
    }
}

impl<W> SystemView<W> {
    /// The state after the constraint of the joint of `entity` in `room` was
    /// severed.
    pub open spec fn after_sever(self, room: Entity, entity: Entity) -> SystemView<W> {
        if self.rooms.dom().contains(room) {
            self.with_room_changed(room, self.rooms[room].without_constraint(entity))
        } else {
            self
        }
    }

    /// The state after `entity`, an object of `room`, was destroyed.
    pub open spec fn after_destroy_object(self, room: Entity, entity: Entity) -> SystemView<W> {
        if self.rooms.dom().contains(room) {
            self.with_room_changed(room, self.rooms[room].after_destroy(entity))
        } else {
            self
        }
    }

    /// What leaves the world of `room` when its object `entity` is destroyed;
    /// nothing is known of a room without a world.
    pub open spec fn destroy_object_actions(self, room: Entity, entity: Entity) -> Option<
        Seq<WorldAction>,
    > {
        if self.rooms.dom().contains(room) {
            Some(self.rooms[room].destroy_actions(entity))
        } else {
            None
        }
    }

    /// The state after `room` was destroyed: the room is gone with all that
    /// it tracked.
    pub open spec fn after_destroy_room(self, room: Entity) -> SystemView<W> {
        if self.rooms.dom().contains(room) {
            SystemView {
                rooms: self.rooms.remove(room),
                order: self.order.remove(self.order.index_of(room)),
            }
        } else {
            self
        }
    }
}

/// An entity together with the room that it is placed in.
#[derive(Clone, Copy, Debug, PartialEq, Eq)]
pub struct Placed {
    pub room: Entity,
    pub entity: Entity,
}

impl Placed {
    /// Places `entity` in the room that `in_room` names, as the gameplay
    /// world currently resolves the room's slot, which is to be below
    /// [`Entity::slot_limit`].
    pub fn resolve(entities: &specs::world::EntitiesRes, in_room: &InRoom, entity: Entity) -> (placed:
        Placed)
        requires
            in_room.room_entity < slots(),
        ensures
            placed.entity == entity,
            placed.room.id == in_room.room_entity,
    {
        Placed { room: Entity::in_slot(entities, in_room.room_entity), entity }
    }
}

/// What the gameplay world marks for destruction in one tick.
pub struct Marked {
    /// The owners of the joints whose far end is marked.
    pub severed_joints: Vec<Placed>,
    /// The marked entities that are placed in a room.
    pub objects: Vec<Placed>,
    /// The marked rooms.
    pub rooms: Vec<Entity>,
    /// The marked entities that are placed in a room and own a joint.
    pub joints: Vec<Placed>,
}

/// The lists of a [`Marked`].
pub struct MarkedView {
    pub severed_joints: Seq<Placed>,
    pub objects: Seq<Placed>,
    pub rooms: Seq<Entity>,
    pub joints: Seq<Placed>,
}

impl Marked {
    /// The lists.
    pub open spec fn view(&self) -> MarkedView {
        MarkedView {
            severed_joints: self.severed_joints@,
            objects: self.objects@,
            rooms: self.rooms@,
            joints: self.joints@,
        }
    }
}

/// What the explicit teardown of one tick asks of the caller.
pub struct Torn<W> {
    /// What is to leave which room's world, in this order.
    pub actions: Vec<(Entity, WorldAction)>,
    /// The worlds of the rooms that were destroyed.
    pub worlds: Vec<W>,
    /// The marked objects whose room has no world.
    pub homeless: Vec<Entity>,
}

/// Says of an action in which room's world it is to be done.
pub open spec fn in_room(room: Entity) -> spec_fn(WorldAction) -> (Entity, WorldAction) {
    |action: WorldAction| (room, action)
}

impl<W> SystemView<W> {
    /// What leaves the world of `room` when the constraint of the joint of
    /// `entity` is severed.
    pub open spec fn sever_actions(self, room: Entity, entity: Entity) -> Seq<
        (Entity, WorldAction),
    > {
        match self.constraint_of(entity, room) {
            Some(constraint) => seq![
                (room, WorldAction::RemoveConstraint(constraint.revolute_constraint_handle)),
            ],
            None => Seq::empty(),
        }
    }

    /// The state after the joints of `joints` were severed, first to last.
    pub open spec fn after_severing(self, joints: Seq<Placed>) -> SystemView<W>
        decreases joints.len(),
    {
        if joints.len() == 0 {
            self
        } else {
            self.after_severing(joints.drop_last()).after_sever(
                joints.last().room,
                joints.last().entity,
            )
        }
    }

    /// What leaves the worlds when the joints of `joints` are severed, first
    /// to last.
    pub open spec fn severing_actions(self, joints: Seq<Placed>) -> Seq<(Entity, WorldAction)>
        decreases joints.len(),
    {
        if joints.len() == 0 {
            Seq::empty()
        } else {
            self.severing_actions(joints.drop_last()) + self.after_severing(
                joints.drop_last(),
            ).sever_actions(joints.last().room, joints.last().entity)
        }
    }

    /// The state after the objects of `objects` were destroyed, first to
    /// last.
    pub open spec fn after_destroying_objects(self, objects: Seq<Placed>) -> SystemView<W>
        decreases objects.len(),
    {
        if objects.len() == 0 {
            self
        } else {
            self.after_destroying_objects(objects.drop_last()).after_destroy_object(
                objects.last().room,
                objects.last().entity,
            )
        }
    }

    /// What leaves the worlds when the objects of `objects` are destroyed,
    /// first to last.
    pub open spec fn destroying_objects_actions(self, objects: Seq<Placed>) -> Seq<
        (Entity, WorldAction),
    >
        decreases objects.len(),
    {
        if objects.len() == 0 {
            Seq::empty()
        } else {
            let earlier = self.after_destroying_objects(objects.drop_last());
            let last = objects.last();
            self.destroying_objects_actions(objects.drop_last()) + (
            match earlier.destroy_object_actions(last.room, last.entity) {
                Some(actions) => actions.map_values(in_room(last.room)),
                None => Seq::empty(),
            })
        }
    }

    /// The objects of `objects` that were in a room without a world when
    /// their turn to be destroyed came.
    pub open spec fn homeless(self, objects: Seq<Placed>) -> Seq<Entity>
        decreases objects.len(),
    {
        if objects.len() == 0 {
            Seq::empty()
        } else {
            let earlier = self.after_destroying_objects(objects.drop_last());
            let last = objects.last();
            if earlier.rooms.dom().contains(last.room) {
                self.homeless(objects.drop_last())
            } else {
                self.homeless(objects.drop_last()).push(last.entity)
            }
        }
    }

    /// The state after the rooms of `rooms` were destroyed, first to last.
    pub open spec fn after_destroying_rooms(self, rooms: Seq<Entity>) -> SystemView<W>
        decreases rooms.len(),
    {
        if rooms.len() == 0 {
            self
        } else {
            self.after_destroying_rooms(rooms.drop_last()).after_destroy_room(rooms.last())
        }
    }

    /// The worlds of the rooms of `rooms` that were there to be destroyed.
    pub open spec fn destroyed_worlds(self, rooms: Seq<Entity>) -> Seq<W>
        decreases rooms.len(),
    {
        if rooms.len() == 0 {
            Seq::empty()
        } else {
            let earlier = self.after_destroying_rooms(rooms.drop_last());
            if earlier.rooms.dom().contains(rooms.last()) {
                self.destroyed_worlds(rooms.drop_last()).push(earlier.rooms[rooms.last()].world)
            } else {
                self.destroyed_worlds(rooms.drop_last())
            }
        }
    }

    /// The state when the joints with a marked far end have been severed.
    pub open spec fn teardown_severed(self, marked: MarkedView) -> SystemView<W> {
        self.after_severing(marked.severed_joints)
    }

    /// The state when, after that, the marked objects have been destroyed.
    pub open spec fn teardown_objects_gone(self, marked: MarkedView) -> SystemView<W> {
        self.teardown_severed(marked).after_destroying_objects(marked.objects)
    }

    /// The state when, after that, the marked rooms have been destroyed.
    pub open spec fn teardown_rooms_gone(self, marked: MarkedView) -> SystemView<W> {
        self.teardown_objects_gone(marked).after_destroying_rooms(marked.rooms)
    }

    /// The state after the explicit teardown of a tick: the joints with a
    /// marked far end are severed, then the marked objects destroyed, then
    /// the marked rooms, then the joints of the marked entities severed.
    pub open spec fn after_teardown(self, marked: MarkedView) -> SystemView<W> {
        self.teardown_rooms_gone(marked).after_severing(marked.joints)
    }

    /// What the explicit teardown of a tick takes out of the worlds, in the
    /// order of its four steps.
    pub open spec fn teardown_actions(self, marked: MarkedView) -> Seq<(Entity, WorldAction)> {
        self.severing_actions(marked.severed_joints) + self.teardown_severed(
            marked,
        ).destroying_objects_actions(marked.objects) + self.teardown_rooms_gone(
            marked,
        ).severing_actions(marked.joints)
    }
}

/// How the body of a tracked object leaves the world.
pub fn removal(object: &PhysicalObject) -> (action: WorldAction)
    ensures
        action == removal_of(*object),
{
    match object.multibody_parent {
        Some(_) => WorldAction::RemoveMultibodyLink {
            body: object.body_handle,
            collision_object: object.collision_object_handle,
        },
        None => WorldAction::RemoveBody {
            body: object.body_handle,
            collision_object: object.collision_object_handle,
        },
    }
}

proof fn lemma_map_values_take_push<A, B>(s: Seq<A>, f: spec_fn(A) -> B, i: int)
    requires
        0 <= i < s.len(),
    ensures
        s.take(i + 1).map_values(f) == s.take(i).map_values(f).push(f(s[i])),
{
    assert(s.take(i + 1).map_values(f) =~= s.take(i).map_values(f).push(f(s[i])));
}

impl<W> PhysicalRoom<W> {
    pub(crate) fn clear_visited(&mut self)
        requires
            old(self).wf(),
        ensures
            final(self).wf(),
            final(self)@ == old(self)@.at_tick_start(),
    {
        self.physical_objects.clear_marks();
        self.physical_constraints.clear_marks();
    }

    pub(crate) fn sweep(&mut self) -> (actions: Vec<WorldAction>)
        requires
            old(self).wf(),
        ensures
            final(self).wf(),
            final(self)@ == old(self)@.swept(),
            actions@ == old(self)@.sweep_actions(),
    {
        let ghost before = self@;
        let dropped_constraints = self.physical_constraints.sweep();
        let dropped_objects = self.physical_objects.sweep();
        let mut actions: Vec<WorldAction> = Vec::new();
        let mut i: usize = 0;
        proof {
            assert(dropped_constraints@.take(0).map_values(constraint_removal())
                =~= Seq::<WorldAction>::empty());
        }
        while i < dropped_constraints.len()
            invariant
                i <= dropped_constraints@.len(),
                actions@ == dropped_constraints@.take(i as int).map_values(constraint_removal()),
            decreases dropped_constraints@.len() - i,
        {
            proof {
                lemma_map_values_take_push(dropped_constraints@, constraint_removal(), i as int);
            }
            actions.push(WorldAction::RemoveConstraint(dropped_constraints[i].1.revolute_constraint_handle));
            i += 1;
        }
        proof {
            assert(dropped_constraints@.take(dropped_constraints@.len() as int)
                =~= dropped_constraints@);
            assert(dropped_objects@.take(0).map_values(object_removal())
                =~= Seq::<WorldAction>::empty());
            assert(dropped_objects@.take(0).map_values(collision_object_of()).to_set()
                =~= Set::<CollisionObjectHandle>::empty());
            assert(before.colliders.remove_keys(Set::<CollisionObjectHandle>::empty())
                =~= before.colliders);
        }
        let ghost first = actions@;
        let mut j: usize = 0;
        while j < dropped_objects.len()
            invariant
                j <= dropped_objects@.len(),
                self.collision_object_to_entity.wf(),
                self.collision_object_to_entity@ == before.colliders.remove_keys(
                    dropped_objects@.take(j as int).map_values(collision_object_of()).to_set(),
                ),
                actions@ == first + dropped_objects@.take(j as int).map_values(object_removal()),
                self.physical_objects.wf(),
                self.physical_constraints.wf(),
                self.physical_objects@ == old(self)@.swept().objects,
                self.physical_objects.order() == old(self)@.swept().object_order,
                self.physical_constraints@ == old(self)@.swept().constraints,
                self.physical_constraints.order() == old(self)@.swept().constraint_order,
                self.world == old(self).world,
                self.walls == old(self).walls,
                self.room_entity == old(self).room_entity,
                self.ground == old(self).ground,
                self.force_generator == old(self).force_generator,
            decreases dropped_objects@.len() - j,
        {
            let object = dropped_objects[j].1;
            proof {
                lemma_map_values_take_push(dropped_objects@, object_removal(), j as int);
                lemma_map_values_take_push(dropped_objects@, collision_object_of(), j as int);
                let handles = dropped_objects@.take(j as int).map_values(collision_object_of());
                let handle = object.collision_object_handle;
                assert(handles.push(handle).to_set() =~= handles.to_set().insert(handle)) by {
                    assert forall|h: CollisionObjectHandle|
                        handles.push(handle).to_set().contains(h) <==> handles.to_set().insert(
                            handle,
                        ).contains(h) by {
                        if handles.push(handle).contains(h) {
                            let k = handles.push(handle).index_of(h);
                            assert(0 <= k < handles.push(handle).len() && handles.push(handle)[k]
                                == h);
                            if k < handles.len() {
                                assert(handles[k] == h);
                            }
                        }
                        if handles.contains(h) {
                            let k = handles.index_of(h);
                            assert(0 <= k < handles.len() && handles[k] == h);
                            assert(handles.push(handle)[k] == h);
                        }
                        if h == handle {
                            assert(handles.push(handle)[handles.len() as int] == h);
                        }
                    }
                }
                assert(before.colliders.remove_keys(handles.to_set()).remove(handle)
                    =~= before.colliders.remove_keys(handles.to_set().insert(handle)));
            }
            self.collision_object_to_entity.remove(&object.collision_object_handle);
            actions.push(removal(&object));
            j += 1;
        }
        proof {
            assert(dropped_objects@.take(dropped_objects@.len() as int) =~= dropped_objects@);
        }
        actions
    }
}

impl<W> PhysicsSystem<W> {
    /// Starts a tick: clears the mark of every tracked object and constraint
    /// of every room.
    pub fn begin_tick(&mut self)
        requires
            old(self).wf(),
        ensures
            final(self).wf(),
            final(self)@ == old(self)@.at_tick_start(),
    {
        let ghost before = *self;
        let n = self.physical_rooms.len();
        let mut i: usize = 0;
        while i < n
            invariant
                i <= n,
                n == before.physical_rooms.order().len(),
                before.wf(),
                self.wf(),
                self.physical_rooms.order() == before.physical_rooms.order(),
                self.physical_rooms@.dom() == before.physical_rooms@.dom(),
                forall|k: int|
                    0 <= k < i ==> (#[trigger] self.physical_rooms@[before.physical_rooms.order()[k]])@
                        == before.physical_rooms@[before.physical_rooms.order()[k]]@.at_tick_start(),
                forall|k: int|
                    i <= k < n ==> #[trigger] self.physical_rooms@[before.physical_rooms.order()[k]]
                        == before.physical_rooms@[before.physical_rooms.order()[k]],
            decreases n - i,
        {
            let ghost current = *self;
            proof {
                self.physical_rooms.lemma_order();
            }
            let physical_room = self.physical_rooms.value_at_mut(i);
            physical_room.clear_visited();
            proof {
                let order = before.physical_rooms.order();
                assert(self.physical_rooms@.dom() =~= before.physical_rooms@.dom());
                assert forall|k: int| 0 <= k < i + 1 implies (#[trigger] self.physical_rooms@[order[k]])@
                    == before.physical_rooms@[order[k]]@.at_tick_start() by {
                    if k < i {
                        assert(order[k] != order[i as int]);
                        assert(self.physical_rooms@[order[k]] == current.physical_rooms@[order[k]]);
                    }
                }
                assert forall|k: int| i + 1 <= k < n implies #[trigger] self.physical_rooms@[order[k]]
                    == before.physical_rooms@[order[k]] by {
                    assert(order[k] != order[i as int]);
                    assert(self.physical_rooms@[order[k]] == current.physical_rooms@[order[k]]);
                }
                assert forall|e: Entity| #[trigger]
                    self.physical_rooms@.dom().contains(e) implies self.physical_rooms@[e].wf()
                    && self.physical_rooms@[e].room_entity == e by {
                    if e != order[i as int] {
                        assert(self.physical_rooms@[e] == current.physical_rooms@[e]);
                    }
                }
            }
            i += 1;
        }
        proof {
            before.physical_rooms.lemma_order();
            assert(self@.rooms =~= before@.at_tick_start().rooms) by {
                assert forall|e: Entity| self@.rooms.dom().contains(e) implies #[trigger] self@.rooms[e]
                    == before@.at_tick_start().rooms[e] by {
                    let order = before.physical_rooms.order();
                    let k = order.index_of(e);
                    assert(0 <= k < order.len() && order[k] == e);
                }
            }
        }
    }

    /// Sweeps every room: forgets every object and constraint that was not
    /// seen since the tick started, and tells what is to leave which world
    /// for it, room after room, in each room constraints before bodies.
    pub fn sweep(&mut self) -> (actions: Vec<(Entity, WorldAction)>)
        requires
            old(self).wf(),
        ensures
            final(self).wf(),
            final(self)@ == old(self)@.swept(),
            actions@ == old(self)@.sweep_actions(),
    {
        let ghost before = *self;
        let ghost order = before.physical_rooms.order();
        let mut actions: Vec<(Entity, WorldAction)> = Vec::new();
        let n = self.physical_rooms.len();
        let mut i: usize = 0;
        while i < n
            invariant
                i <= n,
                n == order.len(),
                order == before.physical_rooms.order(),
                before.wf(),
                self.wf(),
                self.physical_rooms.order() == order,
                self.physical_rooms@.dom() == before.physical_rooms@.dom(),
                forall|k: int|
                    0 <= k < i ==> (#[trigger] self.physical_rooms@[order[k]])@
                        == before.physical_rooms@[order[k]]@.swept(),
                forall|k: int|
                    i <= k < n ==> #[trigger] self.physical_rooms@[order[k]]
                        == before.physical_rooms@[order[k]],
                actions@ == before@.sweep_actions_of_first(i as int),
            decreases n - i,
        {
            let ghost current = *self;
            let ghost earlier_actions = actions@;
            proof {
                self.physical_rooms.lemma_order();
            }
            let room = self.physical_rooms.key_at(i);
            let physical_room = self.physical_rooms.value_at_mut(i);
            let removals = physical_room.sweep();
            let mut j: usize = 0;
            proof {
                assert(removals@.take(0).map_values(in_room(room))
                    =~= Seq::<(Entity, WorldAction)>::empty());
            }
            while j < removals.len()
                invariant
                    j <= removals@.len(),
                    actions@ == earlier_actions + removals@.take(j as int).map_values(
                        in_room(room),
                    ),
                decreases removals@.len() - j,
            {
                proof {
                    lemma_map_values_take_push(removals@, in_room(room), j as int);
                }
                actions.push((room, removals[j]));
                j += 1;
            }
            proof {
                assert(removals@.take(removals@.len() as int) =~= removals@);
                assert(self.physical_rooms@.dom() =~= before.physical_rooms@.dom());
                assert forall|k: int| 0 <= k < i + 1 implies (#[trigger] self.physical_rooms@[order[k]])@
                    == before.physical_rooms@[order[k]]@.swept() by {
                    if k < i {
                        assert(order[k] != order[i as int]);
                        assert(self.physical_rooms@[order[k]] == current.physical_rooms@[order[k]]);
                    }
                }
                assert forall|k: int| i + 1 <= k < n implies #[trigger] self.physical_rooms@[order[k]]
                    == before.physical_rooms@[order[k]] by {
                    assert(order[k] != order[i as int]);
                    assert(self.physical_rooms@[order[k]] == current.physical_rooms@[order[k]]);
                }
                assert forall|e: Entity| #[trigger]
                    self.physical_rooms@.dom().contains(e) implies self.physical_rooms@[e].wf()
                    && self.physical_rooms@[e].room_entity == e by {
                    if e != order[i as int] {
                        assert(self.physical_rooms@[e] == current.physical_rooms@[e]);
                    }
                }
                let swept_room = order[i as int];
                assert(current.physical_rooms@[swept_room] == before.physical_rooms@[swept_room]);
            }
            i += 1;
        }
        proof {
            before.physical_rooms.lemma_order();
            assert(self@.rooms =~= before@.swept().rooms) by {
                assert forall|e: Entity| self@.rooms.dom().contains(e) implies #[trigger] self@.rooms[e]
                    == before@.swept().rooms[e] by {
                    let k = order.index_of(e);
                    assert(0 <= k < order.len() && order[k] == e);
                }
            }
        }
        actions
    }

    /// Forgets the constraint of the joint of `entity` in `room` and hands
    /// its handle back, so that the constraint can leave the world. There is
    /// nothing to hand back when the room or the constraint is not there.
    pub fn sever_constraint(&mut self, room: &Entity, entity: &Entity) -> (r: Option<
        ConstraintHandle,
    >)
        requires
            old(self).wf(),
        ensures
            final(self).wf(),
            final(self)@ == old(self)@.after_sever(*room, *entity),
            match r {
                Some(handle) => old(self)@.constraint_of(*entity, *room).is_some() && handle == old(
                    self,
                )@.constraint_of(*entity, *room).unwrap().revolute_constraint_handle,
                None => old(self)@.constraint_of(*entity, *room).is_none(),
            },
            final(self)@.constraint_of(*entity, *room).is_none(),
    {
        let ghost before = *self;
        match self.physical_rooms.position(room) {
            None => None,
            Some(i) => {
                let physical_room = self.physical_rooms.value_at_mut(i);
                let removed = physical_room.physical_constraints.remove(entity);
                proof {
                    lemma_room_views_insert(
                        before.physical_rooms@,
                        *room,
                        self.physical_rooms@[*room],
                    );
                    if removed.is_none() {
                        assert(self@.rooms =~= before@.rooms);
                    }
                }
                match removed {
                    Some(constraint) => Some(constraint.revolute_constraint_handle),
                    None => None,
                }
            },
        }
    }

    /// Forgets the object of `entity` in `room` and tells what is to leave
    /// the room's world for it. A body of its own takes the constraint of its
    /// joint with it, and the constraint leaves first. The answer is `None`
    /// when the room has no world.
    pub fn destroy_object(&mut self, room: &Entity, entity: &Entity) -> (r: Option<
        Vec<WorldAction>,
    >)
        requires
            old(self).wf(),
        ensures
            final(self).wf(),
            final(self)@ == old(self)@.after_destroy_object(*room, *entity),
            match r {
                Some(actions) => Some(actions@) == old(self)@.destroy_object_actions(*room, *entity),
                None => old(self)@.destroy_object_actions(*room, *entity).is_none(),
            },
            final(self)@.object_of(*entity, *room).is_none(),
    {
        let ghost before = *self;
        match self.physical_rooms.position(room) {
            None => None,
            Some(i) => {
                let mut actions: Vec<WorldAction> = Vec::new();
                let physical_room = self.physical_rooms.value_at_mut(i);
                match physical_room.physical_objects.remove(entity) {
                    Some(object) => {
                        physical_room.collision_object_to_entity.remove(
                            &object.collision_object_handle,
                        );
                        if object.multibody_parent.is_none() {
                            match physical_room.physical_constraints.remove(entity) {
                                Some(constraint) => {
                                    actions.push(
                                        WorldAction::RemoveConstraint(
                                            constraint.revolute_constraint_handle,
                                        ),
                                    );
                                },
                                None => {},
                            }
                        }
                        actions.push(removal(&object));
                    },
                    None => {},
                }
                proof {
                    lemma_room_views_insert(
                        before.physical_rooms@,
                        *room,
                        self.physical_rooms@[*room],
                    );
                    let old_room = before.physical_rooms@[*room];
                    if !old_room.physical_objects@.dom().contains(*entity) {
                        assert(self@.rooms =~= before@.rooms);
                    }
                    assert(actions@ =~= before@.rooms[*room].destroy_actions(*entity));
                }
                Some(actions)
            },
        }
    }

    /// Forgets `room` with all that it tracked, and hands its world back.
    pub fn destroy_room(&mut self, room: &Entity) -> (r: Option<W>)
        requires
            old(self).wf(),
        ensures
            final(self).wf(),
            final(self)@ == old(self)@.after_destroy_room(*room),
            match r {
                Some(world) => old(self)@.rooms.dom().contains(*room) && world == old(
                    self,
                )@.rooms[*room].world,
                None => !old(self)@.rooms.dom().contains(*room),
            },
            !final(self)@.rooms.dom().contains(*room),
    {
        let ghost before = *self;
        let removed = self.physical_rooms.remove(room);
        proof {
            lemma_room_views_remove(before.physical_rooms@, *room);
            if removed.is_none() {
                assert(self@.rooms =~= before@.rooms);
            }
        }
        match removed {
            Some(physical_room) => Some(physical_room.world),
            None => None,
        }
    }

    /// The explicit teardown of a tick, for what the gameplay world marked
    /// for destruction. In this order: every joint whose far end is marked
    /// loses its constraint; every marked object is forgotten with its body;
    /// every marked room is forgotten with its world; every marked entity's
    /// joint loses its constraint. The answer lists what is to leave which
    /// world, in that order.
    pub fn teardown(&mut self, marked: &Marked) -> (torn: Torn<W>)
        requires
            old(self).wf(),
        ensures
            final(self).wf(),
            final(self)@ == old(self)@.after_teardown(marked@),
            torn.actions@ == old(self)@.teardown_actions(marked@),
            torn.worlds@ == old(self)@.teardown_objects_gone(marked@).destroyed_worlds(
                marked@.rooms,
            ),
            torn.homeless@ == old(self)@.teardown_severed(marked@).homeless(marked@.objects),
    {
        let ghost start = self@;
        let mut actions: Vec<(Entity, WorldAction)> = Vec::new();
        let mut worlds: Vec<W> = Vec::new();
        let mut homeless: Vec<Entity> = Vec::new();

        let mut i: usize = 0;
        proof {
            assert(marked.severed_joints@.take(0) =~= Seq::<Placed>::empty());
        }
        while i < marked.severed_joints.len()
            invariant
                i <= marked.severed_joints@.len(),
                self.wf(),
                self@ == start.after_severing(marked.severed_joints@.take(i as int)),
                actions@ == start.severing_actions(marked.severed_joints@.take(i as int)),
            decreases marked.severed_joints@.len() - i,
        {
            let joint = marked.severed_joints[i];
            proof {
                let longer = marked.severed_joints@.take(i as int + 1);
                assert(longer.drop_last() =~= marked.severed_joints@.take(i as int));
                assert(longer.last() == joint);
            }
            match self.sever_constraint(&joint.room, &joint.entity) {
                Some(handle) => {
                    actions.push((joint.room, WorldAction::RemoveConstraint(handle)));
                },
                None => {},
            }
            proof {
                let earlier = start.after_severing(marked.severed_joints@.take(i as int));
                assert(actions@ =~= start.severing_actions(marked.severed_joints@.take(i as int))
                    + earlier.sever_actions(joint.room, joint.entity));
            }
            i += 1;
        }
        proof {
            assert(marked.severed_joints@.take(marked.severed_joints@.len() as int)
                =~= marked.severed_joints@);
            assert(marked.objects@.take(0) =~= Seq::<Placed>::empty());
        }

        let ghost severed = self@;
        let ghost first = actions@;
        let mut i: usize = 0;
        while i < marked.objects.len()
            invariant
                i <= marked.objects@.len(),
                self.wf(),
                self@ == severed.after_destroying_objects(marked.objects@.take(i as int)),
                actions@ == first + severed.destroying_objects_actions(
                    marked.objects@.take(i as int),
                ),
                homeless@ == severed.homeless(marked.objects@.take(i as int)),
            decreases marked.objects@.len() - i,
        {
            let object = marked.objects[i];
            let ghost earlier = self@;
            let ghost earlier_actions = actions@;
            proof {
                let longer = marked.objects@.take(i as int + 1);
                assert(longer.drop_last() =~= marked.objects@.take(i as int));
                assert(longer.last() == object);
            }
            match self.destroy_object(&object.room, &object.entity) {
                Some(removals) => {
                    let mut j: usize = 0;
                    proof {
                        assert(removals@.take(0).map_values(in_room(object.room))
                            =~= Seq::<(Entity, WorldAction)>::empty());
                    }
                    while j < removals.len()
                        invariant
                            j <= removals@.len(),
                            actions@ == earlier_actions + removals@.take(j as int).map_values(
                                in_room(object.room),
                            ),
                        decreases removals@.len() - j,
                    {
                        proof {
                            lemma_map_values_take_push(removals@, in_room(object.room), j as int);
                        }
                        actions.push((object.room, removals[j]));
                        j += 1;
                    }
                    proof {
                        assert(removals@.take(removals@.len() as int) =~= removals@);
                    }
                },
                None => {
                    homeless.push(object.entity);
                },
            }
            proof {
                let before_step = severed.destroying_objects_actions(
                    marked.objects@.take(i as int),
                );
                let step: Seq<(Entity, WorldAction)> = match earlier.destroy_object_actions(
                    object.room,
                    object.entity,
                ) {
                    Some(a) => a.map_values(in_room(object.room)),
                    None => Seq::empty(),
                };
                assert(actions@ =~= first + (before_step + step));
            }
            i += 1;
        }
        proof {
            assert(marked.objects@.take(marked.objects@.len() as int) =~= marked.objects@);
            assert(marked.rooms@.take(0) =~= Seq::<Entity>::empty());
        }

        let ghost objects_gone = self@;
        let mut i: usize = 0;
        while i < marked.rooms.len()
            invariant
                i <= marked.rooms@.len(),
                self.wf(),
                self@ == objects_gone.after_destroying_rooms(marked.rooms@.take(i as int)),
                worlds@ == objects_gone.destroyed_worlds(marked.rooms@.take(i as int)),
            decreases marked.rooms@.len() - i,
        {
            let room = marked.rooms[i];
            proof {
                let longer = marked.rooms@.take(i as int + 1);
                assert(longer.drop_last() =~= marked.rooms@.take(i as int));
                assert(longer.last() == room);
            }
            match self.destroy_room(&room) {
                Some(world) => {
                    worlds.push(world);
                },
                None => {},
            }
            i += 1;
        }
        proof {
            assert(marked.rooms@.take(marked.rooms@.len() as int) =~= marked.rooms@);
            assert(marked.joints@.take(0) =~= Seq::<Placed>::empty());
        }

        let ghost rooms_gone = self@;
        let ghost second = actions@;
        let mut i: usize = 0;
        while i < marked.joints.len()
            invariant
                i <= marked.joints@.len(),
                self.wf(),
                self@ == rooms_gone.after_severing(marked.joints@.take(i as int)),
                actions@ == second + rooms_gone.severing_actions(marked.joints@.take(i as int)),
            decreases marked.joints@.len() - i,
        {
            let joint = marked.joints[i];
            proof {
                let longer = marked.joints@.take(i as int + 1);
                assert(longer.drop_last() =~= marked.joints@.take(i as int));
                assert(longer.last() == joint);
            }
            match self.sever_constraint(&joint.room, &joint.entity) {
                Some(handle) => {
                    actions.push((joint.room, WorldAction::RemoveConstraint(handle)));
                },
                None => {},
            }
            proof {
                let earlier = rooms_gone.after_severing(marked.joints@.take(i as int));
                assert(actions@ =~= second + (rooms_gone.severing_actions(
                    marked.joints@.take(i as int),
                ) + earlier.sever_actions(joint.room, joint.entity)));
            }
            i += 1;
        }
        proof {
            assert(marked.joints@.take(marked.joints@.len() as int) =~= marked.joints@);
        }
        Torn { actions, worlds, homeless }
    }

    /// Sweeps `room`: forgets every object and constraint of the room that
    /// was not seen since the tick started, and tells what is to leave the
    /// room's world for it, constraints before bodies.
    pub fn sweep_room(&mut self, room: &Entity) -> (actions: Vec<WorldAction>)
        requires
            old(self).wf(),
        ensures
            final(self).wf(),
            final(self)@ == old(self)@.after_sweep_room(*room),
            actions@ == old(self)@.sweep_room_actions(*room),
    {
        let ghost before = *self;
        match self.physical_rooms.position(room) {
            None => Vec::new(),
            Some(i) => {
                let physical_room = self.physical_rooms.value_at_mut(i);
                let actions = physical_room.sweep();
                proof {
                    lemma_room_views_insert(
                        before.physical_rooms@,
                        *room,
                        self.physical_rooms@[*room],
                    );
                }
                actions
            },
        }
    }
}

} // verus!
