//! Performance counters: one value per counter and update.

use vstd::prelude::*;
use std::marker::PhantomData;
use crate::scalar::Scalar;

verus! {

/// What is counted.
#[derive(Clone, Copy, Debug, PartialEq, Eq, Hash, Structural)]
pub enum Counter {
    WorldUpdateDuration,
    WorldDrawDuration,
    WorldInputDuration,
    PhysicsSystemDuration,
    ObjectsCreated,
}

/// Names the counters of the game as a whole, where no system owns them.
pub struct GlobalCounters;

/// The values of the counters in the current update: for each counter the
/// value that was set, if one was. `T` names the owner of the counters.
pub struct PerfCounters<T> {
    pub world_update_duration: Option<Scalar>,
    pub world_draw_duration: Option<Scalar>,
    pub world_input_duration: Option<Scalar>,
    pub physics_system_duration: Option<Scalar>,
    pub objects_created: Option<Scalar>,
    pub phantom: PhantomData<T>,
}

impl<T> PerfCounters<T> {
    /// The value of `counter`.
    pub open spec fn value(self, counter: Counter) -> Option<Scalar> {
        match counter {
            Counter::WorldUpdateDuration => self.world_update_duration,
            Counter::WorldDrawDuration => self.world_draw_duration,
            Counter::WorldInputDuration => self.world_input_duration,
            Counter::PhysicsSystemDuration => self.physics_system_duration,
            Counter::ObjectsCreated => self.objects_created,
        }
    }

    /// Counters without values.
    pub fn new() -> (counters: Self)
        ensures
            forall|counter: Counter| counters.value(counter).is_none(),
    {
        PerfCounters {
            world_update_duration: None,
            world_draw_duration: None,
            world_input_duration: None,
            physics_system_duration: None,
            objects_created: None,
            phantom: PhantomData,
        }
    }

    /// The value of `counter`.
    pub fn get(&self, counter: Counter) -> (value: Option<Scalar>)
        ensures
            value == self.value(counter),
    {
        match counter {
            Counter::WorldUpdateDuration => self.world_update_duration,
            Counter::WorldDrawDuration => self.world_draw_duration,
            Counter::WorldInputDuration => self.world_input_duration,
            Counter::PhysicsSystemDuration => self.physics_system_duration,
            Counter::ObjectsCreated => self.objects_created,
        }
    }

    /// Sets `counter` to `value`.
    pub fn set(&mut self, counter: Counter, value: Scalar)
        ensures
            final(self).value(counter) == Some(value),
            forall|other: Counter|
                other != counter ==> final(self).value(other) == old(self).value(other),
    {
        match counter {
            Counter::WorldUpdateDuration => {
                self.world_update_duration = Some(value);
            },
            Counter::WorldDrawDuration => {
                self.world_draw_duration = Some(value);
            },
            Counter::WorldInputDuration => {
                self.world_input_duration = Some(value);
            },
            Counter::PhysicsSystemDuration => {
                self.physics_system_duration = Some(value);
            },
            Counter::ObjectsCreated => {
                self.objects_created = Some(value);
            },
        }
    }

    /// Takes over every value that `other` has; where it has none, the own
    /// value stays.
    pub fn add_from<O>(&mut self, other: &PerfCounters<O>)
        ensures
            forall|counter: Counter|
                final(self).value(counter) == if other.value(counter).is_some() {
                    other.value(counter)
                } else {
                    old(self).value(counter)
                },
    {
        if other.world_update_duration.is_some() {
            self.world_update_duration = other.world_update_duration;
        }
        if other.world_draw_duration.is_some() {
            self.world_draw_duration = other.world_draw_duration;
        }
        if other.world_input_duration.is_some() {
            self.world_input_duration = other.world_input_duration;
        }
        if other.physics_system_duration.is_some() {
            self.physics_system_duration = other.physics_system_duration;
        }
        if other.objects_created.is_some() {
            self.objects_created = other.objects_created;
        }
    }

    /// Forgets every value.
    pub fn reset_all(&mut self)
        ensures
            forall|counter: Counter| final(self).value(counter).is_none(),
    {
        self.world_update_duration = None;
        self.world_draw_duration = None;
        self.world_input_duration = None;
        self.physics_system_duration = None;
        self.objects_created = None;
    }
}

/// Gathers the counters of the systems at the end of an update.
pub struct MergeCounters;

impl MergeCounters {
    /// Merges the counters of the two systems into the global ones, the
    /// second system's values over the first's over the global ones; hands
    /// the merged values back, and forgets the values of all three.
    pub fn run<P, D>(
        &mut self,
        global_counters: &mut PerfCounters<GlobalCounters>,
        physics_system: &mut PerfCounters<P>,
        draw_balls: &mut PerfCounters<D>,
    ) -> (merged: PerfCounters<GlobalCounters>)
        ensures
            forall|counter: Counter|
                merged.value(counter) == if old(draw_balls).value(counter).is_some() {
                    old(draw_balls).value(counter)
                } else if old(physics_system).value(counter).is_some() {
                    old(physics_system).value(counter)
                } else {
                    old(global_counters).value(counter)
                },
            forall|counter: Counter| final(global_counters).value(counter).is_none(),
            forall|counter: Counter| final(physics_system).value(counter).is_none(),
            forall|counter: Counter| final(draw_balls).value(counter).is_none(),
    {
        global_counters.add_from(physics_system);
        global_counters.add_from(draw_balls);
        let merged = PerfCounters {
            world_update_duration: global_counters.world_update_duration,
            world_draw_duration: global_counters.world_draw_duration,
            world_input_duration: global_counters.world_input_duration,
            physics_system_duration: global_counters.physics_system_duration,
            objects_created: global_counters.objects_created,
            phantom: PhantomData,
        };
        global_counters.reset_all();
        physics_system.reset_all();
        draw_balls.reset_all();
        merged
    }
}

} // verus!
