//! The registry of rooms: one simulation world per room entity.

use vstd::prelude::*;
use crate::entity::{BodyHandle, CollisionObjectHandle, Entity, ForceGeneratorHandle};
use crate::physics::{PhysicalConstraint, PhysicalObject};
use crate::physics::model::{RoomView, SystemView};
use crate::draw::Size;
use crate::scalar::{Scalar, SIGN_BIT};
use crate::table::Table;

verus! {

/// The encoding of one.
pub const ONE_BITS: u64 = 0x3ff0_0000_0000_0000;

/// The encoding of the downward acceleration in every room: 500.
pub const GRAVITY_BITS: u64 = 0x407f_4000_0000_0000;

/// The encoding of the margin of every collision shape: 0.1.
pub const COLLIDER_MARGIN_BITS: u64 = 0x3fb9_9999_9999_999a;

/// A boundary of a room: a half-plane through `position` that is solid
/// behind its `normal`.
#[derive(Clone, Copy, Debug, PartialEq, Eq)]
pub struct Boundary {
    pub normal: (Scalar, Scalar),
    pub position: (Scalar, Scalar),
}

/// The boundary through the origin whose normal points along `y`.
pub open spec fn south_boundary() -> Boundary {
    Boundary {
        normal: (Scalar { bits: 0 }, Scalar { bits: ONE_BITS }),
        position: (Scalar { bits: 0 }, Scalar { bits: 0 }),
    }
}

/// The boundary at the height of the room whose normal points against `y`.
pub open spec fn north_boundary(size: Size) -> Boundary {
    Boundary {
        normal: (Scalar { bits: 0 }, Scalar { bits: (ONE_BITS + SIGN_BIT) as u64 }),
        position: (Scalar { bits: 0 }, size.height),
    }
}

/// The boundary through the origin whose normal points along `x`.
pub open spec fn west_boundary() -> Boundary {
    Boundary {
        normal: (Scalar { bits: ONE_BITS }, Scalar { bits: 0 }),
        position: (Scalar { bits: 0 }, Scalar { bits: 0 }),
    }
}

/// The boundary at the width of the room whose normal points against `x`.
pub open spec fn east_boundary(size: Size) -> Boundary {
    Boundary {
        normal: (Scalar { bits: (ONE_BITS + SIGN_BIT) as u64 }, Scalar { bits: 0 }),
        position: (size.width, Scalar { bits: 0 }),
    }
}

/// The four boundaries of a room of the given size, which reaches from the
/// origin to its width and height: south, north, west, east. Every normal
/// points into the room.
pub fn boundaries(size: &Size) -> (walls: [Boundary; 4])
    ensures
        walls@[0] == south_boundary(),
        walls@[1] == north_boundary(*size),
        walls@[2] == west_boundary(),
        walls@[3] == east_boundary(*size),
{
    let zero = Scalar::zero();
    let one = Scalar::from_bits(ONE_BITS);
    let minus_one = one.neg();
    [
        Boundary { normal: (zero, one), position: (zero, zero) },
        Boundary { normal: (zero, minus_one), position: (zero, size.height) },
        Boundary { normal: (one, zero), position: (zero, zero) },
        Boundary { normal: (minus_one, zero), position: (size.width, zero) },
    ]
}

/// The gravity of every room: 500 along `y`.
pub fn gravity() -> (g: (Scalar, Scalar))
    ensures
        g.0.bits == 0,
        g.1.bits == GRAVITY_BITS,
{
    (Scalar::zero(), Scalar::from_bits(GRAVITY_BITS))
}

/// The margin of every collision shape: 0.1.
pub fn collider_margin() -> (margin: Scalar)
    ensures
        margin.bits == COLLIDER_MARGIN_BITS,
{
    Scalar::from_bits(COLLIDER_MARGIN_BITS)
}

/// A room of the bridge: the world and what was made in it.
pub struct PhysicalRoom<W> {
    pub(crate) world: W,
    pub(crate) walls: [CollisionObjectHandle; 4],
    pub(crate) room_entity: Entity,
    pub(crate) ground: BodyHandle,
    pub(crate) force_generator: ForceGeneratorHandle,
    pub(crate) physical_objects: Table<Entity, PhysicalObject>,
    pub(crate) collision_object_to_entity: Table<CollisionObjectHandle, Entity>,
    pub(crate) physical_constraints: Table<Entity, PhysicalConstraint>,
}

/// The bridge. `W` is the type of a room's simulation world: the bridge owns
/// one per room and hands it out, and never looks inside.
pub struct PhysicsSystem<W> {
    pub(crate) physical_rooms: Table<Entity, PhysicalRoom<W>>,
}

impl<W> PhysicalRoom<W> {
    /// The room's state.
    pub open(crate) spec fn view(&self) -> RoomView<W> {
        RoomView {
            world: self.world,
            room_entity: self.room_entity,
            ground: self.ground,
            walls: self.walls,
            force_generator: self.force_generator,
            objects: self.physical_objects@,
            object_order: self.physical_objects.order(),
            colliders: self.collision_object_to_entity@,
            constraints: self.physical_constraints@,
            constraint_order: self.physical_constraints.order(),
        }
    }

    /// The room's tables are well formed and its constraints name the room.
    pub open(crate) spec fn wf(&self) -> bool {
        &&& self.physical_objects.wf()
        &&& self.collision_object_to_entity.wf()
        &&& self.physical_constraints.wf()
        &&& forall|e: Entity| #[trigger]
            self.physical_constraints@.dom().contains(e) ==> self.physical_constraints@[e].room_entity
                == self.room_entity
    }

    /// The state of a well-formed room is valid.
    pub proof fn lemma_valid(&self)
        requires
            self.wf(),
        ensures
            self@.valid(),
    {
        self.physical_objects.lemma_order();
        self.physical_constraints.lemma_order();
    }
}

/// The state of every room of `rooms`.
pub open(crate) spec fn room_views<W>(rooms: Map<Entity, PhysicalRoom<W>>) -> Map<
    Entity,
    RoomView<W>,
> {
    Map::new(|e: Entity| rooms.dom().contains(e), |e: Entity| rooms[e]@)
}

pub(crate) proof fn lemma_room_views_insert<W>(
    rooms: Map<Entity, PhysicalRoom<W>>,
    entity: Entity,
    room: PhysicalRoom<W>,
)
    ensures
        room_views(rooms.insert(entity, room)) == room_views(rooms).insert(entity, room@),
{
    assert(room_views(rooms.insert(entity, room)) =~= room_views(rooms).insert(entity, room@));
}

pub(crate) proof fn lemma_room_views_remove<W>(rooms: Map<Entity, PhysicalRoom<W>>, entity: Entity)
    ensures
        room_views(rooms.remove(entity)) == room_views(rooms).remove(entity),
{
    assert(room_views(rooms.remove(entity)) =~= room_views(rooms).remove(entity));
}

impl<W> PhysicsSystem<W> {
    /// The bridge's state.
    pub open(crate) spec fn view(&self) -> SystemView<W> {
        SystemView {
            rooms: room_views(self.physical_rooms@),
            order: self.physical_rooms.order(),
        }
    }

    /// Every room is well formed and stands under its own entity.
    pub open(crate) spec fn wf(&self) -> bool {
        &&& self.physical_rooms.wf()
        &&& forall|e: Entity| #[trigger]
            self.physical_rooms@.dom().contains(e) ==> self.physical_rooms@[e].wf()
                && self.physical_rooms@[e].room_entity == e
    }

    /// The state of a well-formed bridge is valid.
    pub proof fn lemma_valid(&self)
        requires
            self.wf(),
        ensures
            self@.valid(),
    {
        self.physical_rooms.lemma_order();
        assert forall|e: Entity| #[trigger] self@.rooms.dom().contains(e) implies self@.rooms[e].valid()
            && self@.rooms[e].room_entity == e by {
            self.physical_rooms@[e].lemma_valid();
        }
    }

    /// A bridge without rooms.
    pub fn new() -> (s: Self)
        ensures
            s.wf(),
            s@.rooms == Map::<Entity, RoomView<W>>::empty(),
            s@.order == Seq::<Entity>::empty(),
    {
        let s = PhysicsSystem { physical_rooms: Table::new() };
        assert(s@.rooms =~= Map::<Entity, RoomView<W>>::empty());
        s
    }

    /// Whether `room` has a world.
    pub fn has_room(&self, room: &Entity) -> (r: bool)
        requires
            self.wf(),
        ensures
            r == self@.rooms.dom().contains(*room),
    {
        self.physical_rooms.contains_key(room)
    }

    /// The number of rooms.
    pub fn room_count(&self) -> (n: usize)
        requires
            self.wf(),
        ensures
            n == self@.order.len(),
    {
        self.physical_rooms.len()
    }

    /// The room at place `i` of the order of registration.
    pub fn room_at(&self, i: usize) -> (e: Entity)
        requires
            self.wf(),
            i < self@.order.len(),
        ensures
            e == self@.order[i as int],
            self@.rooms.dom().contains(e),
    {
        self.physical_rooms.key_at(i)
    }

    /// Registers `room_entity` with its world, unless it is registered
    /// already. A room that is already there is left as it is, and the world
    /// that was offered comes back.
    pub fn add_room(
        &mut self,
        room_entity: Entity,
        world: W,
        ground: BodyHandle,
        walls: [CollisionObjectHandle; 4],
        force_generator: ForceGeneratorHandle,
    ) -> (r: Option<W>)
        requires
            old(self).wf(),
        ensures
            final(self).wf(),
            old(self)@.rooms.dom().contains(room_entity) ==> r == Some(world) && final(self)@
                == old(self)@,
            !old(self)@.rooms.dom().contains(room_entity) ==> r.is_none() && final(self)@
                == old(self)@.with_room(
                RoomView::fresh(room_entity, world, ground, walls, force_generator),
            ),
    {
        if self.physical_rooms.contains_key(&room_entity) {
            return Some(world);
        }
        let mut collision_object_to_entity: Table<CollisionObjectHandle, Entity> = Table::new();
        let mut i: usize = 0;
        while i < 4
            invariant
                i <= 4,
                collision_object_to_entity.wf(),
                forall|h: CollisionObjectHandle|
                    collision_object_to_entity@.dom().contains(h) <==> walls@.take(
                        i as int,
                    ).contains(h),
                forall|h: CollisionObjectHandle| #[trigger]
                    collision_object_to_entity@.dom().contains(h)
                        ==> collision_object_to_entity@[h] == room_entity,
            decreases 4 - i,
        {
            let ghost before = collision_object_to_entity@;
            collision_object_to_entity.insert(walls[i], room_entity);
            proof {
                assert forall|h: CollisionObjectHandle|
                    collision_object_to_entity@.dom().contains(h) <==> walls@.take(
                        i as int + 1,
                    ).contains(h) by {
                    if walls@.take(i as int + 1).contains(h) {
                        let longer = walls@.take(i as int + 1);
                        let j = longer.index_of(h);
                        assert(0 <= j < longer.len() && longer[j] == h);
                        if j < i {
                            assert(walls@.take(i as int)[j] == h);
                        }
                    }
                    if before.dom().contains(h) {
                        let shorter = walls@.take(i as int);
                        let j = shorter.index_of(h);
                        assert(0 <= j < shorter.len() && shorter[j] == h);
                        assert(walls@.take(i as int + 1)[j] == h);
                    }
                    if h == walls@[i as int] {
                        assert(walls@.take(i as int + 1)[i as int] == h);
                    }
                }
            }
            i += 1;
        }
        let room = PhysicalRoom {
            world,
            walls,
            room_entity,
            ground,
            force_generator,
            physical_objects: Table::new(),
            collision_object_to_entity,
            physical_constraints: Table::new(),
        };
        proof {
            assert(walls@.take(4) =~= walls@);
            assert(room@.colliders =~= RoomView::fresh(
                room_entity,
                world,
                ground,
                walls,
                force_generator,
            ).colliders);
            assert(room@ == RoomView::fresh(room_entity, world, ground, walls, force_generator));
        }
        let ghost before = *self;
        self.physical_rooms.insert(room_entity, room);
        proof {
            lemma_room_views_insert(before.physical_rooms@, room_entity, room);
        }
        None
    }

    /// Makes sure that `room_entity` has a world: a room that has none gets
    /// the world that `make` builds, with the ground, the boundaries and the
    /// force generator that were made with it. Tells whether a world was
    /// built.
    pub fn ensure_room<
        M: FnOnce() -> (W, BodyHandle, [CollisionObjectHandle; 4], ForceGeneratorHandle),
    >(&mut self, room_entity: Entity, make: M) -> (created: bool)
        requires
            old(self).wf(),
            make.requires(()),
        ensures
            final(self).wf(),
            created == !old(self)@.rooms.dom().contains(room_entity),
            !created ==> final(self)@ == old(self)@,
            created ==> exists|
                made: (W, BodyHandle, [CollisionObjectHandle; 4], ForceGeneratorHandle),
            |
                #[trigger] make.ensures((), made) && final(self)@ == old(self)@.with_room(
                    RoomView::fresh(room_entity, made.0, made.1, made.2, made.3),
                ),
    {
        if self.physical_rooms.contains_key(&room_entity) {
            false
        } else {
            let (world, ground, walls, force_generator) = make();
            let offered = self.add_room(room_entity, world, ground, walls, force_generator);
            true
        }
    }

    /// The world of `room`.
    pub fn world(&self, room: &Entity) -> (r: Option<&W>)
        requires
            self.wf(),
        ensures
            match r {
                Some(w) => self@.rooms.dom().contains(*room) && *w == self@.rooms[*room].world,
                None => !self@.rooms.dom().contains(*room),
            },
    {
        match self.physical_rooms.get(room) {
            Some(physical_room) => Some(&physical_room.world),
            None => None,
        }
    }

    /// The world of `room`, to be changed in place. Nothing but that world
    /// changes.
    pub fn world_mut(&mut self, room: &Entity) -> (r: Option<&mut W>)
        requires
            old(self).wf(),
        ensures
            final(self).wf(),
            match r {
                Some(w) => old(self)@.rooms.dom().contains(*room) && *w == old(self)@.rooms[*room].world
                    && final(self)@ == old(self)@.with_room_changed(
                    *room,
                    RoomView { world: *final(w), ..old(self)@.rooms[*room] },
                ),
                None => !old(self)@.rooms.dom().contains(*room) && final(self)@ == old(self)@,
            },
    {
        match self.physical_rooms.position(room) {
            Some(i) => {
                proof {
                    let rooms = self.physical_rooms@;
                    assert forall|changed: PhysicalRoom<W>| #[trigger]
                        room_views(rooms.insert(*room, changed)) == room_views(rooms).insert(
                            *room,
                            changed@,
                        ) by {
                        lemma_room_views_insert(rooms, *room, changed);
                    }
                }
                let physical_room = self.physical_rooms.value_at_mut(i);
                Some(&mut physical_room.world)
            },
            None => None,
        }
    }

    /// The static body that stands for the frame of `room`.
    pub fn ground_of(&self, room: &Entity) -> (r: Option<BodyHandle>)
        requires
            self.wf(),
        ensures
            match r {
                Some(g) => self@.rooms.dom().contains(*room) && g == self@.rooms[*room].ground,
                None => !self@.rooms.dom().contains(*room),
            },
    {
        match self.physical_rooms.get(room) {
            Some(physical_room) => Some(physical_room.ground),
            None => None,
        }
    }

    /// The four boundaries of `room`.
    pub fn walls_of(&self, room: &Entity) -> (r: Option<[CollisionObjectHandle; 4]>)
        requires
            self.wf(),
        ensures
            match r {
                Some(w) => self@.rooms.dom().contains(*room) && w == self@.rooms[*room].walls,
                None => !self@.rooms.dom().contains(*room),
            },
    {
        match self.physical_rooms.get(room) {
            Some(physical_room) => Some(physical_room.walls),
            None => None,
        }
    }

    /// The generator that applies the continuous forces of `room`.
    pub fn force_generator_of(&self, room: &Entity) -> (r: Option<ForceGeneratorHandle>)
        requires
            self.wf(),
        ensures
            match r {
                Some(g) => self@.rooms.dom().contains(*room) && g
                    == self@.rooms[*room].force_generator,
                None => !self@.rooms.dom().contains(*room),
            },
    {
        match self.physical_rooms.get(room) {
            Some(physical_room) => Some(physical_room.force_generator),
            None => None,
        }
    }
}

} // verus!
