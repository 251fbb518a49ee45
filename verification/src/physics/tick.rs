//! The order of a tick.

use vstd::prelude::*;

verus! {

/// The steps of one tick of the bridge, in the order in which they are
/// taken. A step works on what the steps before it left: a body that was
/// made in this tick is stepped in this tick, and what was swept or torn
/// down is neither aimed at nor stepped.
#[derive(Clone, Copy, Debug, PartialEq, Eq, Structural)]
pub enum Phase {
    /// The marks are cleared and the rooms that have no world yet get one.
    Registry,
    /// Terrain and bodies are made or marked, and positions and velocities
    /// are read back.
    Objects,
    /// Joint constraints are made or marked.
    Constraints,
    /// What was not marked is swept.
    Sweep,
    /// The aims are resolved.
    Aim,
    /// The continuous forces are staged and the impulses applied.
    Forces,
    /// What is marked for destruction is torn down.
    Teardown,
    /// Every world steps forward by the length of the tick.
    Step,
    /// The contacts are gathered into the collision state.
    Collisions,
}

impl Phase {
    /// The place of the step in the tick, from zero.
    pub open spec fn rank(self) -> int {
        match self {
            Phase::Registry => 0,
            Phase::Objects => 1,
            Phase::Constraints => 2,
            Phase::Sweep => 3,
            Phase::Aim => 4,
            Phase::Forces => 5,
            Phase::Teardown => 6,
            Phase::Step => 7,
            Phase::Collisions => 8,
        }
    }

    /// The step that follows, if the tick is not over.
    pub open spec fn following(self) -> Option<Phase> {
        match self {
            Phase::Registry => Some(Phase::Objects),
            Phase::Objects => Some(Phase::Constraints),
            Phase::Constraints => Some(Phase::Sweep),
            Phase::Sweep => Some(Phase::Aim),
            Phase::Aim => Some(Phase::Forces),
            Phase::Forces => Some(Phase::Teardown),
            Phase::Teardown => Some(Phase::Step),
            Phase::Step => Some(Phase::Collisions),
            Phase::Collisions => None,
        }
    }

    /// The step that a tick starts with.
    pub fn first() -> (phase: Phase)
        ensures
            phase == Phase::Registry,
            phase.rank() == 0,
    {
        Phase::Registry
    }

    /// The step that follows this one; none after the last.
    pub fn next(&self) -> (r: Option<Phase>)
        ensures
            r == self.following(),
            match r {
                Some(phase) => phase.rank() == self.rank() + 1,
                None => self.rank() == 8,
            },
    {
        match *self {
            Phase::Registry => Some(Phase::Objects),
            Phase::Objects => Some(Phase::Constraints),
            Phase::Constraints => Some(Phase::Sweep),
            Phase::Sweep => Some(Phase::Aim),
            Phase::Aim => Some(Phase::Forces),
            Phase::Forces => Some(Phase::Teardown),
            Phase::Teardown => Some(Phase::Step),
            Phase::Step => Some(Phase::Collisions),
            Phase::Collisions => None,
        }
    }
}

/// The steps are in one fixed order: two steps with the same place are the
/// same step, every place from zero to eight is taken, and a step follows
/// another exactly when its place is the next one.
pub proof fn phases_are_in_order(a: Phase, b: Phase)
    ensures
        0 <= a.rank() <= 8,
        a.rank() == b.rank() ==> a == b,
        a.following() == Some(b) <==> b.rank() == a.rank() + 1,
        a.following().is_none() <==> a.rank() == 8,
{
}

} // verus!
