//! Phase shifts: an entity leaves its room for the next one.

use vstd::prelude::*;
use crate::entity::Index;
use crate::input::PlayerController;
use crate::physics::InRoom;

verus! {

/// What an entity that can shift between rooms knows of its shift.
#[derive(Clone, Copy, Debug, PartialEq, Eq)]
pub struct Shifter {
    pub target_room: Option<Index>,
    pub target_entity: Option<Index>,
    pub shifting: bool,
    pub sensing: bool,
}

impl Default for Shifter {
    fn default() -> (s: Shifter)
        ensures
            s.target_room.is_none(),
            s.target_entity.is_none(),
            !s.shifting,
            !s.sensing,
    {
        Shifter { target_room: None, target_entity: None, shifting: false, sensing: false }
    }
}

/// The room that follows `current_room` in `rooms`, the first room following
/// the last one. There is none when `current_room` is not among `rooms`; a
/// room that stands alone follows itself.
pub open spec fn next_room(current_room: Index, rooms: Seq<Index>) -> Option<Index> {
    if rooms.contains(current_room) {
        Some(rooms[(rooms.index_of_first(current_room).unwrap() + 1) % rooms.len() as int])
    } else {
        None
    }
}

/// The room that follows `current_room` in `rooms`.
pub fn get_next_room(current_room: Index, rooms: &Vec<Index>) -> (r: Option<Index>)
    ensures
        r == next_room(current_room, rooms@),
{
    let n = rooms.len();
    let mut i: usize = 0;
    while i < n
        invariant
            i <= n,
            n == rooms@.len(),
            forall|j: int| 0 <= j < i ==> rooms@[j] != current_room,
        decreases n - i,
    {
        if rooms[i] == current_room {
            let next = if i + 1 < n {
                i + 1
            } else {
                0
            };
            proof {
                assert(rooms@.contains(current_room));
                rooms@.index_of_first_ensures(current_room);
                let first = rooms@.index_of_first(current_room).unwrap();
                if first < i {
                    assert(rooms@[first] != current_room);
                }
                if i < first {
                    assert(rooms@[i as int] != current_room);
                }
                assert(first == i);
                if i + 1 < n {
                    assert((i + 1) % (n as int) == i + 1) by (nonlinear_arith)
                        requires
                            0 <= i + 1 < n,
                    ;
                } else {
                    assert((i + 1) % (n as int) == 0) by (nonlinear_arith)
                        requires
                            i + 1 == n,
                            n > 0,
                    ;
                }
            }
            return Some(rooms[next]);
        }
        i += 1;
    }
    proof {
        assert(!rooms@.contains(current_room)) by {
            if rooms@.contains(current_room) {
                let j = rooms@.index_of(current_room);
                assert(0 <= j < rooms@.len() && rooms@[j] == current_room);
            }
        }
    }
    None
}

impl Shifter {
    /// The shifter after the update that follows the player's controls: to
    /// ask for a shift with no target yet starts the sensing; to let go while
    /// sensing starts the shift.
    pub open spec fn started(self, controller: PlayerController) -> Shifter {
        if controller.shifting && self.target_entity.is_none() {
            Shifter { sensing: true, ..self }
        } else if !controller.shifting && self.sensing && !self.shifting {
            Shifter { shifting: true, ..self }
        } else {
            self
        }
    }

    /// The shifting entity goes to its target room now.
    pub open spec fn arrives(self) -> bool {
        self.shifting && self.target_room.is_some()
    }

    /// The shifter after the update that carries out shifts.
    pub open spec fn shifted(self) -> Shifter {
        if self.arrives() {
            Shifter { shifting: false, sensing: false, ..self }
        } else {
            self
        }
    }

    /// The room of the entity after the update that carries out shifts.
    pub open spec fn room_after(self, in_room: InRoom) -> InRoom {
        if self.arrives() {
            InRoom { room_entity: self.target_room.unwrap() }
        } else {
            in_room
        }
    }
}

/// Finds the room that each shifter would shift to.
pub struct TrackShiftTarget;

impl TrackShiftTarget {
    /// Sets the target of every shifter to the room that follows its own
    /// among `rooms`.
    pub fn run(&mut self, shifters: &mut Vec<(Shifter, InRoom)>, rooms: &Vec<Index>)
        ensures
            final(shifters)@.len() == old(shifters)@.len(),
            forall|i: int|
                0 <= i < old(shifters)@.len() ==> #[trigger] final(shifters)@[i] == (
                    Shifter {
                        target_room: next_room(old(shifters)@[i].1.room_entity, rooms@),
                        ..old(shifters)@[i].0
                    },
                    old(shifters)@[i].1,
                ),
    {
        let n = shifters.len();
        let mut i: usize = 0;
        while i < n
            invariant
                i <= n,
                n == shifters@.len(),
                n == old(shifters)@.len(),
                forall|j: int|
                    0 <= j < i ==> #[trigger] shifters@[j] == (
                        Shifter {
                            target_room: next_room(old(shifters)@[j].1.room_entity, rooms@),
                            ..old(shifters)@[j].0
                        },
                        old(shifters)@[j].1,
                    ),
                forall|j: int| i <= j < n ==> #[trigger] shifters@[j] == old(shifters)@[j],
            decreases n - i,
        {
            let target = get_next_room(shifters[i].1.room_entity, rooms);
            let entry = &mut shifters[i];
            entry.0.target_room = target;
            i += 1;
        }
    }
}

/// Starts the sensing and the shifts that the player asks for.
pub struct StartPhaseShift;

impl StartPhaseShift {
    /// Updates every shifter from the controller of its entity.
    pub fn run(&mut self, shifters: &mut Vec<(PlayerController, Shifter)>)
        ensures
            final(shifters)@.len() == old(shifters)@.len(),
            forall|i: int|
                0 <= i < old(shifters)@.len() ==> #[trigger] final(shifters)@[i] == (
                    old(shifters)@[i].0,
                    old(shifters)@[i].1.started(old(shifters)@[i].0),
                ),
    {
        let n = shifters.len();
        let mut i: usize = 0;
        while i < n
            invariant
                i <= n,
                n == shifters@.len(),
                n == old(shifters)@.len(),
                forall|j: int|
                    0 <= j < i ==> #[trigger] shifters@[j] == (
                        old(shifters)@[j].0,
                        old(shifters)@[j].1.started(old(shifters)@[j].0),
                    ),
                forall|j: int| i <= j < n ==> #[trigger] shifters@[j] == old(shifters)@[j],
            decreases n - i,
        {
            let entry = &mut shifters[i];
            if entry.0.shifting && entry.1.target_entity.is_none() {
                entry.1.sensing = true;
            } else if !entry.0.shifting && entry.1.sensing && !entry.1.shifting {
                entry.1.shifting = true;
            }
            i += 1;
        }
    }
}

/// Carries out the shifts that were started.
pub struct PhaseShift;

impl PhaseShift {
    /// Moves every shifting entity that has a target into its target room.
    pub fn run(&mut self, shifters: &mut Vec<(Shifter, InRoom)>)
        ensures
            final(shifters)@.len() == old(shifters)@.len(),
            forall|i: int|
                0 <= i < old(shifters)@.len() ==> #[trigger] final(shifters)@[i] == (
                    old(shifters)@[i].0.shifted(),
                    old(shifters)@[i].0.room_after(old(shifters)@[i].1),
                ),
    {
        let n = shifters.len();
        let mut i: usize = 0;
        while i < n
            invariant
                i <= n,
                n == shifters@.len(),
                n == old(shifters)@.len(),
                forall|j: int|
                    0 <= j < i ==> #[trigger] shifters@[j] == (
                        old(shifters)@[j].0.shifted(),
                        old(shifters)@[j].0.room_after(old(shifters)@[j].1),
                    ),
                forall|j: int| i <= j < n ==> #[trigger] shifters@[j] == old(shifters)@[j],
            decreases n - i,
        {
            let entry = &mut shifters[i];
            if entry.0.shifting {
                match entry.0.target_room {
                    Some(target_room) => {
                        entry.0.shifting = false;
                        entry.0.sensing = false;
                        entry.1.room_entity = target_room;
                    },
                    None => {},
                }
            }
            i += 1;
        }
    }
}

} // verus!
