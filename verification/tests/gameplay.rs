use stacked_worlds::animate::{Animation, RoomAnimation, UpdateAnimations};
use stacked_worlds::control::{
    ChainLink, ControlObjects, FireHook, HookAction, Jump, UpdateCooldowns,
};
use stacked_worlds::entity::Entity;
use stacked_worlds::error::GameError;
use stacked_worlds::input::{Controls, Movement, PlayerController, PlayerControllerInput};
use stacked_worlds::perfcount::{Counter, GlobalCounters, MergeCounters, PerfCounters};
use stacked_worlds::physics::{Aim, CollisionSet, Force, InRoom, RevoluteJoint};
use stacked_worlds::scalar::Scalar;
use stacked_worlds::shift::{get_next_room, PhaseShift, Shifter, StartPhaseShift, TrackShiftTarget};
use stacked_worlds::UpdateDeltaTime;

fn s(x: f64) -> Scalar {
    Scalar::from_bits(x.to_bits())
}

#[test]
fn an_animation_runs_up_to_its_limit() {
    let mut animation: Animation<RoomAnimation> = Animation::new(2);
    assert_eq!((animation.current, animation.limit), (0, 2));
    animation.step();
    assert_eq!((animation.current, animation.limit), (1, 2));
    animation.step();
    animation.step();
    assert_eq!((animation.current, animation.limit), (2, 2));
    let copy = animation.clone();
    assert_eq!((copy.current, copy.limit), (2, 2));
}

#[test]
fn animations_are_updated_together() {
    let mut animations: Vec<Animation<RoomAnimation>> =
        vec![Animation::new(32), Animation::new(0), Animation::new(1)];
    animations[2].current = 5;
    UpdateAnimations.run(&mut animations);
    let counters: Vec<(u32, u32)> = animations.iter().map(|a| (a.current, a.limit)).collect();
    assert_eq!(counters, vec![(1, 32), (0, 0), (5, 1)]);
    animations[0].current = u32::MAX;
    animations[0].limit = u32::MAX;
    UpdateAnimations.run(&mut animations);
    assert_eq!(animations[0].current, u32::MAX);
}

#[test]
fn steering_needs_one_direction_alone() {
    let controls = |moving_left, moving_right| Controls {
        moving_left,
        moving_right,
        jumping: false,
        shifting: false,
        hooking: false,
    };
    assert_eq!(controls(true, false).movement(), Movement::Left);
    assert_eq!(controls(false, true).movement(), Movement::Right);
    assert_eq!(controls(true, true).movement(), Movement::Idle);
    assert_eq!(controls(false, false).movement(), Movement::Idle);
    assert_eq!(Movement::default(), Movement::Idle);
}

#[test]
fn the_controls_reach_every_controller() {
    let established = PlayerController { hook_established: true, ..PlayerController::default() };
    let mut controllers = vec![PlayerController::default(), established];
    let controls = Controls {
        moving_left: false,
        moving_right: true,
        jumping: true,
        shifting: false,
        hooking: true,
    };
    PlayerControllerInput.run(&mut controllers, &controls);
    let expected = PlayerController {
        moving: Movement::Right,
        jumping: true,
        hooking: true,
        hook_established: false,
        shifting: false,
    };
    assert_eq!(controllers, vec![expected, PlayerController { hook_established: true, ..expected }]);
}

#[test]
fn the_next_room_follows_in_a_circle() {
    let rooms = vec![4, 7, 9];
    assert_eq!(get_next_room(4, &rooms), Some(7));
    assert_eq!(get_next_room(7, &rooms), Some(9));
    assert_eq!(get_next_room(9, &rooms), Some(4));
    assert_eq!(get_next_room(5, &rooms), None);
    assert_eq!(get_next_room(5, &vec![]), None);
    assert_eq!(get_next_room(5, &vec![5]), Some(5));
    assert_eq!(get_next_room(5, &vec![5, 6, 5, 8]), Some(6));
}

#[test]
fn shifters_track_the_next_room() {
    let mut shifters = vec![
        (Shifter::default(), InRoom { room_entity: 7 }),
        (Shifter { target_room: Some(1), sensing: true, ..Shifter::default() }, InRoom { room_entity: 5 }),
    ];
    TrackShiftTarget.run(&mut shifters, &vec![4, 7, 9]);
    assert_eq!(
        shifters,
        vec![
            (Shifter { target_room: Some(9), ..Shifter::default() }, InRoom { room_entity: 7 }),
            (Shifter { target_room: None, sensing: true, ..Shifter::default() }, InRoom { room_entity: 5 }),
        ]
    );
}

#[test]
fn a_shift_starts_when_the_player_lets_go() {
    let asking = PlayerController { shifting: true, ..PlayerController::default() };
    let idle = PlayerController::default();
    let fresh = Shifter::default();
    let sensing = Shifter { sensing: true, ..fresh };
    let with_target = Shifter { target_entity: Some(3), ..fresh };
    let mut shifters = vec![(asking, fresh), (idle, sensing), (idle, fresh), (asking, with_target)];
    StartPhaseShift.run(&mut shifters);
    assert_eq!(
        shifters,
        vec![
            (asking, sensing),
            (idle, Shifter { shifting: true, ..sensing }),
            (idle, fresh),
            (asking, with_target),
        ]
    );
    StartPhaseShift.run(&mut shifters);
    assert_eq!(shifters[1], (idle, Shifter { shifting: true, ..sensing }));
}

#[test]
fn a_shift_moves_the_entity_to_its_target() {
    let shifting = Shifter { shifting: true, sensing: true, target_room: Some(9), target_entity: None };
    let stuck = Shifter { target_room: None, ..shifting };
    let resting = Shifter { shifting: false, ..shifting };
    let here = InRoom { room_entity: 4 };
    let mut shifters = vec![(shifting, here), (stuck, here), (resting, here)];
    PhaseShift.run(&mut shifters);
    assert_eq!(
        shifters,
        vec![
            (Shifter { shifting: false, sensing: false, ..shifting }, InRoom { room_entity: 9 }),
            (stuck, here),
            (resting, here),
        ]
    );
}

#[test]
fn steering_forces() {
    let mut force = Force { continuous: (s(1.0), s(2.0)), impulse: (s(3.0), s(4.0)) };
    ControlObjects.reset(&mut force);
    assert_eq!(force, Force::default());
    let controller = |moving| PlayerController { moving, ..PlayerController::default() };
    force.impulse = (s(3.0), s(4.0));
    ControlObjects.steer(&controller(Movement::Left), &mut force);
    assert_eq!(force.continuous, (s(-100000.0), s(0.0)));
    ControlObjects.steer(&controller(Movement::Right), &mut force);
    assert_eq!(force.continuous, (s(100000.0), s(0.0)));
    ControlObjects.steer(&controller(Movement::Idle), &mut force);
    assert_eq!(force.continuous, (s(0.0), s(0.0)));
    assert_eq!(force.impulse, (s(3.0), s(4.0)));
}

#[test]
fn a_jump_needs_a_recent_contact_and_no_cooldown() {
    let jumping = PlayerController { jumping: true, ..PlayerController::default() };
    let set = |time: f64| CollisionSet { time_since_collision: s(time), ..CollisionSet::default() };
    let jump = |cooldown: f64| Jump { cooldown: s(cooldown) };
    assert!(ControlObjects.jumps(&jumping, &jump(0.0), &set(0.0)));
    assert!(ControlObjects.jumps(&jumping, &jump(-0.0), &set(0.19)));
    assert!(ControlObjects.jumps(&jumping, &jump(-1.0), &set(0.1)));
    assert!(!ControlObjects.jumps(&jumping, &jump(0.0), &set(0.2)));
    assert!(!ControlObjects.jumps(&jumping, &jump(0.0), &set(0.5)));
    assert!(!ControlObjects.jumps(&jumping, &jump(0.25), &set(0.0)));
    assert!(!ControlObjects.jumps(&jumping, &jump(f64::NAN), &set(0.0)));
    assert!(!ControlObjects.jumps(&jumping, &jump(0.0), &set(f64::NAN)));
    assert!(!ControlObjects.jumps(&PlayerController::default(), &jump(0.0), &set(0.0)));
    assert_eq!(Jump::default(), jump(0.0));
}

#[test]
fn the_hook_fires_at_what_is_aimed_at() {
    let target = Entity::new(9, 1);
    let aim = Aim {
        aiming_at_entity: Some(target),
        aiming_at_point: Some((s(1.0), s(2.0))),
        ..Aim::default()
    };
    let mut controller = PlayerController { hooking: true, ..PlayerController::default() };
    assert_eq!(
        FireHook.decide(&mut controller, &aim, false),
        HookAction::Fire { target, point: (s(1.0), s(2.0)) }
    );
    assert!(controller.hook_established);
    assert_eq!(FireHook.decide(&mut controller, &aim, true), HookAction::Hold);
    assert!(controller.hook_established);
    controller.hooking = false;
    assert_eq!(FireHook.decide(&mut controller, &aim, false), HookAction::Hold);
    assert!(controller.hook_established);
    assert_eq!(FireHook.decide(&mut controller, &aim, true), HookAction::Release);
    assert!(!controller.hook_established);
    assert_eq!(FireHook.decide(&mut controller, &aim, true), HookAction::Hold);
    // Aiming at nothing, the hook does not fire.
    controller.hooking = true;
    assert_eq!(FireHook.decide(&mut controller, &Aim::default(), false), HookAction::Hold);
    let half = Aim { aiming_at_point: Some((s(1.0), s(2.0))), ..Aim::default() };
    assert_eq!(FireHook.decide(&mut controller, &half, false), HookAction::Hold);
    assert!(!controller.hook_established);
}

#[test]
fn a_chain_is_wired_link_to_link() {
    let pin = |linked_to_entity| RevoluteJoint { linked_to_entity, multibody_link: false };
    let wiring = FireHook.wire(50, &vec![61, 62, 63]);
    assert_eq!(
        wiring.links,
        vec![(pin(50), None), (pin(61), Some(61)), (pin(62), Some(62))]
    );
    assert_eq!(wiring.joint, pin(63));
    assert_eq!(wiring.next_link, 63);
    let wiring = FireHook.wire(50, &vec![]);
    assert!(wiring.links.is_empty());
    assert_eq!(wiring.joint, pin(50));
    assert_eq!(wiring.next_link, 50);
}

#[test]
fn cooldowns_run_while_they_are_above_zero() {
    assert!(UpdateCooldowns.is_running(&s(0.25)));
    assert!(UpdateCooldowns.is_running(&s(5.0e-324)));
    assert!(!UpdateCooldowns.is_running(&s(0.0)));
    assert!(!UpdateCooldowns.is_running(&s(-0.0)));
    assert!(!UpdateCooldowns.is_running(&s(-1.0)));
    assert!(!UpdateCooldowns.is_running(&s(f64::NAN)));
    let link = |expire, destruction: f64| ChainLink {
        expire,
        destruction_animation: s(destruction),
        ..ChainLink::default()
    };
    assert!(UpdateCooldowns.has_run_out(&link(true, 0.0)));
    assert!(UpdateCooldowns.has_run_out(&link(true, -0.0)));
    assert!(!UpdateCooldowns.has_run_out(&link(true, 0.04)));
    assert!(!UpdateCooldowns.has_run_out(&link(false, 0.0)));
    assert_eq!(ChainLink::default().next_link, None);
}

#[test]
fn counters_are_set_merged_and_reset() {
    let mut global: PerfCounters<GlobalCounters> = PerfCounters::new();
    let mut physics: PerfCounters<u8> = PerfCounters::new();
    let mut draw: PerfCounters<u16> = PerfCounters::new();
    assert_eq!(global.get(Counter::ObjectsCreated), None);
    global.set(Counter::WorldUpdateDuration, s(0.016));
    global.set(Counter::ObjectsCreated, s(1.0));
    physics.set(Counter::PhysicsSystemDuration, s(0.004));
    physics.set(Counter::ObjectsCreated, s(3.0));
    draw.set(Counter::WorldDrawDuration, s(0.002));
    let merged = MergeCounters.run(&mut global, &mut physics, &mut draw);
    assert_eq!(merged.get(Counter::WorldUpdateDuration), Some(s(0.016)));
    assert_eq!(merged.get(Counter::WorldDrawDuration), Some(s(0.002)));
    assert_eq!(merged.get(Counter::WorldInputDuration), None);
    assert_eq!(merged.get(Counter::PhysicsSystemDuration), Some(s(0.004)));
    assert_eq!(merged.get(Counter::ObjectsCreated), Some(s(3.0)));
    for counter in [
        Counter::WorldUpdateDuration,
        Counter::WorldDrawDuration,
        Counter::WorldInputDuration,
        Counter::PhysicsSystemDuration,
        Counter::ObjectsCreated,
    ] {
        assert_eq!(global.get(counter), None);
        assert_eq!(physics.get(counter), None);
        assert_eq!(draw.get(counter), None);
    }
}

#[test]
fn add_from_keeps_what_the_other_lacks() {
    let mut own: PerfCounters<GlobalCounters> = PerfCounters::new();
    let mut other: PerfCounters<GlobalCounters> = PerfCounters::new();
    own.set(Counter::WorldInputDuration, s(1.0));
    own.set(Counter::WorldDrawDuration, s(2.0));
    other.set(Counter::WorldDrawDuration, s(3.0));
    own.add_from(&other);
    assert_eq!(own.get(Counter::WorldInputDuration), Some(s(1.0)));
    assert_eq!(own.get(Counter::WorldDrawDuration), Some(s(3.0)));
    own.reset_all();
    assert_eq!(own.get(Counter::WorldInputDuration), None);
    assert_eq!(other.get(Counter::WorldDrawDuration), Some(s(3.0)));
}

#[test]
fn the_window_error_names_its_reason() {
    let error = GameError::WindowError { reason: "no display".to_string() };
    assert_eq!(error.message(), "cannot create game window: no display");
    let error = GameError::WindowError { reason: String::new() };
    assert_eq!(error.message(), "cannot create game window: ");
}

#[test]
fn the_length_of_an_update_is_a_number() {
    let delta = UpdateDeltaTime { dt: s(0.1) };
    assert_eq!(f64::from_bits(delta.dt.to_bits()), 0.1);
}

#[test]
fn a_cooldown_runs_down_to_zero() {
    let minus = |a: Scalar, b: Scalar| {
        s(f64::from_bits(a.to_bits()) - f64::from_bits(b.to_bits()))
    };
    assert_eq!(UpdateCooldowns.run_down(s(0.25), s(0.1), minus), s(0.25 - 0.1));
    assert_eq!(UpdateCooldowns.run_down(s(0.25), s(0.25), minus), s(0.0));
    assert_eq!(UpdateCooldowns.run_down(s(0.25), s(1.0), minus), s(0.0));
    assert_eq!(UpdateCooldowns.run_down(s(0.25), s(f64::NAN), minus), s(0.0));
    assert_eq!(UpdateCooldowns.run_down(s(0.0), s(0.1), minus), s(0.0));
    assert_eq!(UpdateCooldowns.run_down(s(-2.0), s(0.1), minus), s(-2.0));
}

#[test]
fn a_chain_is_let_go_link_by_link() {
    let plus = |a: Scalar, b: Scalar| s(f64::from_bits(a.to_bits()) + f64::from_bits(b.to_bits()));
    let mut link = ChainLink {
        creation_animation: s(0.1),
        destruction_animation: s(0.0),
        expire: false,
        next_link: Some(7),
    };
    let next = FireHook.let_go(&mut link, s(0.5), s(0.04), plus);
    assert_eq!(next, (Some(7), s(0.5 + 0.04)));
    assert_eq!(
        link,
        ChainLink {
            creation_animation: s(0.1),
            destruction_animation: s(0.5),
            expire: true,
            next_link: Some(7),
        }
    );
    let mut last = ChainLink::default();
    let next = FireHook.let_go(&mut last, next.1, s(0.04), plus);
    assert_eq!(next, (None, s(0.5 + 0.04 + 0.04)));
    assert!(last.expire);
    assert_eq!(last.destruction_animation, s(0.5 + 0.04));
}
