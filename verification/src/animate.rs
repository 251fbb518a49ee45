//! Animation counters.

use vstd::prelude::*;
use std::marker::PhantomData;

verus! {

/// A counter that runs from zero up to a limit, one step per update. `T`
/// names what is animated.
#[derive(Debug)]
pub struct Animation<T> {
    pub current: u32,
    pub limit: u32,
    pub phantom: PhantomData<T>,
}

impl<T> Animation<T> {
    /// The counter one update later: one step further, unless it is at or
    /// beyond its limit.
    pub open spec fn stepped(current: u32, limit: u32) -> u32 {
        if current < limit {
            (current + 1) as u32
        } else {
            current
        }
    }

    /// An animation at its start.
    pub fn new(limit: u32) -> (animation: Self)
        ensures
            animation.current == 0,
            animation.limit == limit,
    {
        Animation { current: 0, limit, phantom: PhantomData }
    }

    /// Takes the animation one step further, unless it has reached its limit.
    pub fn step(&mut self)
        ensures
            final(self).limit == old(self).limit,
            final(self).current == Self::stepped(old(self).current, old(self).limit),
    {
        if self.current < self.limit {
            self.current += 1;
        }
    }
}

impl<T> Clone for Animation<T> {
    fn clone(&self) -> (copy: Self)
        ensures
            copy.current == self.current,
            copy.limit == self.limit,
    {
        Animation { current: self.current, limit: self.limit, phantom: PhantomData }
    }
}

/// What is animated in a room: its appearance when it is made.
#[derive(Debug, Clone, Copy)]
pub struct RoomAnimation {}

/// Advances the animations of the rooms.
pub struct UpdateAnimations;

impl UpdateAnimations {
    /// Takes every animation one step further.
    pub fn run(&mut self, room_animations: &mut Vec<Animation<RoomAnimation>>)
        ensures
            final(room_animations)@.len() == old(room_animations)@.len(),
            forall|i: int|
                0 <= i < old(room_animations)@.len() ==> (#[trigger] final(room_animations)@[i]).limit
                    == old(room_animations)@[i].limit && final(room_animations)@[i].current
                    == Animation::<RoomAnimation>::stepped(
                    old(room_animations)@[i].current,
                    old(room_animations)@[i].limit,
                ),
    {
        let n = room_animations.len();
        let mut i: usize = 0;
        while i < n
            invariant
                i <= n,
                n == room_animations@.len(),
                n == old(room_animations)@.len(),
                forall|j: int|
                    0 <= j < i ==> (#[trigger] room_animations@[j]).limit == old(
                        room_animations,
                    )@[j].limit && room_animations@[j].current
                        == Animation::<RoomAnimation>::stepped(
                        old(room_animations)@[j].current,
                        old(room_animations)@[j].limit,
                    ),
                forall|j: int|
                    i <= j < n ==> (#[trigger] room_animations@[j]).limit == old(
                        room_animations,
                    )@[j].limit && room_animations@[j].current == old(room_animations)@[j].current,
            decreases n - i,
        {
            let animation = &mut room_animations[i];
            animation.step();
            i += 1;
        }
    }
}

} // verus!
