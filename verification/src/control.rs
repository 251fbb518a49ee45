//! What the player's controls make of the controlled entity: the force that
//! steers it, the jump, and the grappling hook.

use vstd::prelude::*;
use crate::entity::{Entity, Index};
use crate::input::{Movement, PlayerController};
use crate::physics::{Aim, CollisionSet, Force, RevoluteJoint};
use crate::scalar::Scalar;

verus! {

/// The encoding of the force that steers to the right: 100000.
pub const STEERING_FORCE_BITS: u64 = 0x40f8_6a00_0000_0000;

/// The encoding of the time after a contact within which a jump is still
/// possible: 0.2.
pub const JUMP_GRACE_BITS: u64 = 0x3fc9_9999_9999_999a;

/// The time that has to pass before the next jump.
#[derive(Clone, Copy, Debug, PartialEq, Eq, Structural)]
pub struct Jump {
    pub cooldown: Scalar,
}

impl Default for Jump {
    fn default() -> (j: Jump)
        ensures
            j.cooldown.bits == 0,
    {
        Jump { cooldown: Scalar { bits: 0 } }
    }
}

/// A link of the chain of a grappling hook.
#[derive(Clone, Copy, Debug, PartialEq, Eq)]
pub struct ChainLink {
    pub creation_animation: Scalar,
    pub destruction_animation: Scalar,
    pub expire: bool,
    pub next_link: Option<Index>,
}

impl Default for ChainLink {
    fn default() -> (c: ChainLink)
        ensures
            c.creation_animation.bits == 0,
            c.destruction_animation.bits == 0,
            !c.expire,
            c.next_link.is_none(),
    {
        ChainLink {
            creation_animation: Scalar { bits: 0 },
            destruction_animation: Scalar { bits: 0 },
            expire: false,
            next_link: None,
        }
    }
}

/// Turns the player's controls into forces.
pub struct ControlObjects;

impl ControlObjects {
    /// The continuous force that steers in the direction `moving`: 100000 to
    /// the right, as much to the left, or none; never up or down.
    pub open spec fn steering_force(moving: Movement) -> (Scalar, Scalar) {
        match moving {
            Movement::Left => (
                Scalar { bits: (STEERING_FORCE_BITS + crate::scalar::SIGN_BIT) as u64 },
                Scalar { bits: 0 },
            ),
            Movement::Right => (Scalar { bits: STEERING_FORCE_BITS }, Scalar { bits: 0 }),
            Movement::Idle => (Scalar { bits: 0 }, Scalar { bits: 0 }),
        }
    }

    /// A jump is due: the player asks for one, the last contact is less than
    /// 0.2 ago, and no time is left to wait.
    pub open spec fn jump_due(
        controller: PlayerController,
        jump: Jump,
        collision_set: CollisionSet,
    ) -> bool {
        &&& controller.jumping
        &&& collision_set.time_since_collision.less(Scalar { bits: JUMP_GRACE_BITS })
        &&& (jump.cooldown.less(Scalar { bits: 0 }) || jump.cooldown.equal_value(
            Scalar { bits: 0 },
        ))
    }

    /// The force of an entity at the start of the update: none.
    pub fn reset(&mut self, force: &mut Force)
        ensures
            final(force).continuous == (Scalar { bits: 0 }, Scalar { bits: 0 }),
            final(force).impulse == (Scalar { bits: 0 }, Scalar { bits: 0 }),
    {
        force.continuous = (Scalar::zero(), Scalar::zero());
        force.impulse = (Scalar::zero(), Scalar::zero());
    }

    /// Sets the continuous force of a controlled entity, whose force was
    /// reset, to the force that steers as the player asks.
    pub fn steer(&mut self, controller: &PlayerController, force: &mut Force)
        ensures
            final(force).continuous == Self::steering_force(controller.moving),
            final(force).impulse == old(force).impulse,
    {
        let speed = Scalar::from_bits(STEERING_FORCE_BITS);
        let x = match controller.moving {
            Movement::Left => speed.neg(),
            Movement::Right => speed,
            Movement::Idle => Scalar::zero(),
        };
        force.continuous = (x, Scalar::zero());
    }

    /// Whether the controlled entity jumps in this update.
    pub fn jumps(&self, controller: &PlayerController, jump: &Jump, collision_set: &CollisionSet) -> (r:
        bool)
        ensures
            r == Self::jump_due(*controller, *jump, *collision_set),
    {
        let grace = Scalar::from_bits(JUMP_GRACE_BITS);
        let zero = Scalar::zero();
        controller.jumping && collision_set.time_since_collision.lt(&grace) && jump.cooldown.le(
            &zero,
        )
    }
}

/// What the hook of a controlled entity does in an update.
#[derive(Clone, Copy, Debug, PartialEq, Eq)]
pub enum HookAction {
    /// Nothing changes.
    Hold,
    /// A chain is made from the entity to the point that it aims at, on the
    /// entity `target`.
    Fire { target: Entity, point: (Scalar, Scalar) },
    /// The chain is let go.
    Release,
}

/// How the links of a new chain hang together.
pub struct Wiring {
    /// For each new link, in the order of making: the joint that pins it to
    /// what was made before it, and the link that follows it in the chain.
    pub links: Vec<(RevoluteJoint, Option<Index>)>,
    /// The joint that pins the hooking entity to the end of the chain.
    pub joint: RevoluteJoint,
    /// The link that follows the hooking entity in the chain.
    pub next_link: Index,
}

/// Makes and lets go the chains of the grappling hooks.
pub struct FireHook;

impl FireHook {
    /// What the hook does: it fires when the player asks for the hook, none
    /// is established and the entity aims at something; it is released when
    /// the player no longer asks, one is established and the entity has its
    /// chain.
    pub open spec fn action(controller: PlayerController, aim: Aim, has_chain: bool) -> HookAction {
        if controller.hooking && !controller.hook_established {
            match (aim.aiming_at_point, aim.aiming_at_entity) {
                (Some(point), Some(target)) => HookAction::Fire { target, point },
                _ => HookAction::Hold,
            }
        } else if !controller.hooking && controller.hook_established && has_chain {
            HookAction::Release
        } else {
            HookAction::Hold
        }
    }

    /// The entity that the link at place `k` of a new chain is pinned to:
    /// the target for the first link, the link before it for every other.
    pub open spec fn pinned_to(target: Index, new_links: Seq<Index>, k: int) -> Index {
        if k == 0 {
            target
        } else {
            new_links[k - 1]
        }
    }

    /// Decides what the hook does, and notes in the controller whether a
    /// hook is established afterwards.
    pub fn decide(&mut self, controller: &mut PlayerController, aim: &Aim, has_chain: bool) -> (action:
        HookAction)
        ensures
            action == Self::action(*old(controller), *aim, has_chain),
            *final(controller) == (PlayerController {
                hook_established: match action {
                    HookAction::Fire { .. } => true,
                    HookAction::Release => false,
                    HookAction::Hold => old(controller).hook_established,
                },
                ..*old(controller)
            }),
    {
        if controller.hooking && !controller.hook_established {
            match (aim.aiming_at_point, aim.aiming_at_entity) {
                (Some(point), Some(target)) => {
                    controller.hook_established = true;
                    HookAction::Fire { target, point }
                },
                _ => HookAction::Hold,
            }
        } else if !controller.hooking && controller.hook_established && has_chain {
            controller.hook_established = false;
            HookAction::Release
        } else {
            HookAction::Hold
        }
    }

    /// Lets one link of a chain go: the link is marked to expire, and its
    /// animation starts at `time`. The answer holds the link that follows in
    /// the chain, if there is one, and the time at which that one starts:
    /// `time` and `step`, added with the addition `sum` of the caller.
    pub fn let_go<A: Fn(Scalar, Scalar) -> Scalar>(
        &self,
        link: &mut ChainLink,
        time: Scalar,
        step: Scalar,
        sum: A,
    ) -> (next: (Option<Index>, Scalar))
        requires
            forall|a: Scalar, b: Scalar| sum.requires((a, b)),
        ensures
            *final(link) == (ChainLink {
                expire: true,
                destruction_animation: time,
                ..*old(link)
            }),
            next.0 == old(link).next_link,
            sum.ensures((time, step), next.1),
    {
        link.expire = true;
        link.destruction_animation = time;
        (link.next_link, sum(time, step))
    }

    /// Wires a new chain. `new_links` are the links in the order of making,
    /// the one next to the target first. Each link is pinned to what was made
    /// before it and is followed by it; the hooking entity is pinned to the
    /// last link, or to the target itself when the chain has no links.
    pub fn wire(&self, target: Index, new_links: &Vec<Index>) -> (wiring: Wiring)
        ensures
            wiring.links@.len() == new_links@.len(),
            forall|k: int|
                0 <= k < new_links@.len() ==> #[trigger] wiring.links@[k] == (
                    RevoluteJoint {
                        linked_to_entity: Self::pinned_to(target, new_links@, k),
                        multibody_link: false,
                    },
                    if k == 0 {
                        None
                    } else {
                        Some(new_links@[k - 1])
                    },
                ),
            wiring.joint == (RevoluteJoint {
                linked_to_entity: Self::pinned_to(target, new_links@, new_links@.len() as int),
                multibody_link: false,
            }),
            wiring.next_link == Self::pinned_to(target, new_links@, new_links@.len() as int),
    {
        let mut links: Vec<(RevoluteJoint, Option<Index>)> = Vec::new();
        let mut linked_to_entity = target;
        let mut next_link: Option<Index> = None;
        let mut k: usize = 0;
        while k < new_links.len()
            invariant
                k <= new_links@.len(),
                links@.len() == k,
                linked_to_entity == Self::pinned_to(target, new_links@, k as int),
                next_link == if k == 0 {
                    None
                } else {
                    Some(new_links@[k - 1])
                },
                forall|j: int|
                    0 <= j < k ==> #[trigger] links@[j] == (
                        RevoluteJoint {
                            linked_to_entity: Self::pinned_to(target, new_links@, j),
                            multibody_link: false,
                        },
                        if j == 0 {
                            None
                        } else {
                            Some(new_links@[j - 1])
                        },
                    ),
            decreases new_links@.len() - k,
        {
            links.push((RevoluteJoint { linked_to_entity, multibody_link: false }, next_link));
            linked_to_entity = new_links[k];
            next_link = Some(linked_to_entity);
            k += 1;
        }
        Wiring {
            links,
            joint: RevoluteJoint { linked_to_entity, multibody_link: false },
            next_link: linked_to_entity,
        }
    }
}

/// Runs down the waiting times and animations.
pub struct UpdateCooldowns;

impl UpdateCooldowns {
    /// The time is still running: it is above zero.
    pub open spec fn running(time: Scalar) -> bool {
        (Scalar { bits: 0 }).less(time)
    }

    /// The link has run out: it was let go and its animation has come to
    /// zero.
    pub open spec fn run_out(chain_link: ChainLink) -> bool {
        chain_link.expire && chain_link.destruction_animation.equal_value(Scalar { bits: 0 })
    }

    /// The time after an update of length `dt`: a time that is not running
    /// stays as it is; a running time is what is left of it, taken with the
    /// subtraction `difference` of the caller, and zero once nothing is left.
    pub fn run_down<S: Fn(Scalar, Scalar) -> Scalar>(&self, time: Scalar, dt: Scalar, difference: S) -> (r:
        Scalar)
        requires
            forall|a: Scalar, b: Scalar| difference.requires((a, b)),
        ensures
            !Self::running(time) ==> r == time,
            Self::running(time) ==> exists|left: Scalar|
                difference.ensures((time, dt), left) && r == (if Self::running(left) {
                    left
                } else {
                    Scalar { bits: 0 }
                }),
    {
        if self.is_running(&time) {
            let left = difference(time, dt);
            if self.is_running(&left) {
                left
            } else {
                Scalar::zero()
            }
        } else {
            time
        }
    }

    /// Whether `time` is still running and has to be run down further.
    pub fn is_running(&self, time: &Scalar) -> (r: bool)
        ensures
            r == Self::running(*time),
    {
        time.gt(&Scalar::zero())
    }

    /// Whether the link has run out and is to be destroyed.
    pub fn has_run_out(&self, chain_link: &ChainLink) -> (r: bool)
        ensures
            r == Self::run_out(*chain_link),
    {
        chain_link.expire && chain_link.destruction_animation.same_value(&Scalar::zero())
    }
}

} // verus!
