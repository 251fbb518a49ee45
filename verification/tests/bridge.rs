use stacked_worlds::entity::{
    BodyHandle, CollisionObjectHandle, ConstraintHandle, Entity, ForceGeneratorHandle,
};
use stacked_worlds::physics::constraints::{pin_anchors, Anchors, ConstraintPlan};
use stacked_worlds::scalar::Scalar;
use stacked_worlds::physics::model::{JointLink, Presence, WorldAction};
use stacked_worlds::physics::objects::{ObjectPlan, Tracking};
use stacked_worlds::physics::registry::PhysicsSystem;
use stacked_worlds::physics::teardown::{removal, Marked, Placed};
use stacked_worlds::physics::{PhysicalConstraint, PhysicalObject, RevoluteJoint};

fn e(id: u32) -> Entity {
    Entity::new(id, 1)
}

fn body(index: usize) -> BodyHandle {
    BodyHandle { index, generation: 0, part: 0 }
}

fn collider(index: usize) -> CollisionObjectHandle {
    CollisionObjectHandle { index, generation: 0 }
}

fn joint_handle(index: usize) -> ConstraintHandle {
    ConstraintHandle { index, generation: 0 }
}

fn walls(base: usize) -> [CollisionObjectHandle; 4] {
    [collider(base), collider(base + 1), collider(base + 2), collider(base + 3)]
}

/// A bridge with the rooms 100 and 200, whose worlds are called "a" and "b".
fn two_rooms() -> PhysicsSystem<String> {
    let mut system = PhysicsSystem::new();
    let generator = ForceGeneratorHandle { index: 0, generation: 0 };
    assert_eq!(system.add_room(e(100), "a".to_string(), body(1000), walls(0), generator), None);
    assert_eq!(system.add_room(e(200), "b".to_string(), body(2000), walls(0), generator), None);
    system
}

fn pin(linked_to_entity: u32, linked_to: Entity, linked_room: Option<Entity>) -> JointLink {
    JointLink {
        joint: RevoluteJoint { linked_to_entity, multibody_link: false },
        linked_to,
        linked_room,
    }
}

#[test]
fn a_new_bridge_has_no_rooms() {
    let system: PhysicsSystem<String> = PhysicsSystem::new();
    assert_eq!(system.room_count(), 0);
    assert!(!system.has_room(&e(100)));
    assert_eq!(system.world(&e(100)), None);
    assert_eq!(system.ground_of(&e(100)), None);
    assert_eq!(system.walls_of(&e(100)), None);
    assert_eq!(system.force_generator_of(&e(100)), None);
}

#[test]
fn rooms_are_registered_once() {
    let mut system = two_rooms();
    assert_eq!(system.room_count(), 2);
    assert_eq!(system.room_at(0), e(100));
    assert_eq!(system.room_at(1), e(200));
    assert!(system.has_room(&e(100)));
    assert!(!system.has_room(&Entity::new(100, 2)));
    let generator = ForceGeneratorHandle { index: 7, generation: 7 };
    let offered = system.add_room(e(100), "again".to_string(), body(1), walls(50), generator);
    assert_eq!(offered, Some("again".to_string()));
    assert_eq!(system.room_count(), 2);
    assert_eq!(system.world(&e(100)), Some(&"a".to_string()));
    assert_eq!(system.ground_of(&e(100)), Some(body(1000)));
    assert_eq!(system.walls_of(&e(100)), Some(walls(0)));
    assert_eq!(
        system.force_generator_of(&e(100)),
        Some(ForceGeneratorHandle { index: 0, generation: 0 })
    );
}

#[test]
fn the_walls_of_a_room_belong_to_the_room() {
    let system = two_rooms();
    for i in 0..4 {
        assert_eq!(system.entity_of(&e(100), &collider(i)), Some(e(100)));
        assert_eq!(system.entity_of(&e(200), &collider(i)), Some(e(200)));
    }
    assert_eq!(system.entity_of(&e(100), &collider(4)), None);
    assert_eq!(system.entity_of(&e(300), &collider(0)), None);
}

#[test]
fn a_world_is_changed_in_place() {
    let mut system = two_rooms();
    system.world_mut(&e(200)).unwrap().push_str("!");
    assert_eq!(system.world(&e(200)), Some(&"b!".to_string()));
    assert_eq!(system.world(&e(100)), Some(&"a".to_string()));
    assert!(system.world_mut(&e(300)).is_none());
}

#[test]
fn terrain_is_planned_on_the_ground() {
    let mut system = two_rooms();
    assert_eq!(system.plan_terrain(&e(300), &e(1)), ObjectPlan::MissingRoom);
    assert_eq!(
        system.plan_terrain(&e(100), &e(1)),
        ObjectPlan::CreateTerrain { ground: body(1000) }
    );
    assert_eq!(system.track_object(&e(100), e(1), body(1000), collider(10), None), Tracking::Created);
    let object = PhysicalObject {
        body_handle: body(1000),
        collision_object_handle: collider(10),
        multibody_parent: None,
        visited: true,
    };
    assert_eq!(system.plan_terrain(&e(100), &e(1)), ObjectPlan::Keep(object));
    assert_eq!(system.tracked_object(&e(100), &e(1)), Some(object));
    assert_eq!(system.entity_of(&e(100), &collider(10)), Some(e(1)));
}

#[test]
fn a_dynamic_object_is_a_rigid_body_by_default() {
    let system = two_rooms();
    assert_eq!(system.plan_dynamic(&e(300), &e(1), None), ObjectPlan::MissingRoom);
    assert_eq!(
        system.plan_dynamic(&e(100), &e(1), None),
        ObjectPlan::CreateRigidBody
    );
    assert_eq!(
        system.plan_dynamic(&e(100), &e(1), Some(pin(2, e(2), Some(e(100))))),
        ObjectPlan::CreateRigidBody
    );
}

#[test]
fn a_multibody_link_hangs_from_its_parent() {
    let mut system = two_rooms();
    system.track_object(&e(100), e(2), body(2), collider(12), None);
    let link = |linked_to: Entity, linked_room: Option<Entity>| {
        Some(JointLink {
            joint: RevoluteJoint { linked_to_entity: linked_to.id, multibody_link: true },
            linked_to,
            linked_room,
        })
    };
    assert_eq!(
        system.plan_dynamic(&e(100), &e(1), link(e(2), Some(e(100)))),
        ObjectPlan::CreateMultibodyLink { parent: body(2), parent_entity: e(2) }
    );
    assert_eq!(system.resolve_multibody_parent(link(e(2), Some(e(100)))), Some((body(2), e(2))));
    // The parent is the room itself: the chain hangs from the ground.
    assert_eq!(
        system.plan_dynamic(&e(100), &e(1), link(e(100), Some(e(100)))),
        ObjectPlan::CreateMultibodyLink { parent: body(1000), parent_entity: e(100) }
    );
    // The parent has no body yet: a rigid body that stands alone.
    assert_eq!(
        system.plan_dynamic(&e(100), &e(1), link(e(3), Some(e(100)))),
        ObjectPlan::CreateRigidBody
    );
    assert_eq!(system.resolve_multibody_parent(link(e(3), Some(e(100)))), None);
    // The parent is placed in no room.
    assert_eq!(
        system.plan_dynamic(&e(100), &e(1), link(e(2), None)),
        ObjectPlan::CreateRigidBody
    );
    assert_eq!(system.resolve_multibody_parent(link(e(2), None)), None);
    assert_eq!(system.resolve_multibody_parent(None), None);
}

#[test]
fn body_handles_are_found_through_the_room() {
    let mut system = two_rooms();
    system.track_object(&e(100), e(1), body(1), collider(11), None);
    assert_eq!(system.get_body_handle(&e(1), &e(100)), Some(body(1)));
    assert_eq!(system.get_body_handle(&e(100), &e(100)), Some(body(1000)));
    assert_eq!(system.get_body_handle(&e(1), &e(200)), None);
    assert_eq!(system.get_body_handle(&e(2), &e(100)), None);
    assert_eq!(system.get_body_handle(&e(1), &e(300)), None);
    assert_eq!(system.get_rigid_body(&e(1), &e(100)), Some(body(1)));
    assert_eq!(system.get_rigid_body(&e(100), &e(100)), None);
    assert_eq!(system.get_rigid_body(&e(1), &e(200)), None);
}

#[test]
fn creation_is_lazy_and_happens_once() {
    let mut system = two_rooms();
    assert_eq!(system.track_object(&e(100), e(1), body(1), collider(11), None), Tracking::Created);
    assert_eq!(
        system.track_object(&e(100), e(1), body(9), collider(99), Some(e(5))),
        Tracking::Existing
    );
    let kept = PhysicalObject {
        body_handle: body(1),
        collision_object_handle: collider(11),
        multibody_parent: None,
        visited: true,
    };
    assert_eq!(system.tracked_object(&e(100), &e(1)), Some(kept));
    assert_eq!(system.plan_dynamic(&e(100), &e(1), None), ObjectPlan::Keep(kept));
    assert_eq!(system.entity_of(&e(100), &collider(99)), None);
    // One object is swept when it is no longer seen, not two.
    system.begin_tick();
    assert_eq!(system.sweep_room(&e(100)), vec![removal(&PhysicalObject { visited: false, ..kept })]);
    assert_eq!(system.sweep_room(&e(100)), vec![]);
}

#[test]
fn tracking_in_a_missing_room_records_nothing() {
    let mut system = two_rooms();
    assert_eq!(system.track_object(&e(300), e(1), body(1), collider(11), None), Tracking::MissingRoom);
    assert_eq!(system.track_constraint(&e(300), e(1), joint_handle(1)), Tracking::MissingRoom);
    assert!(!system.visit_object(&e(300), &e(1)));
    assert!(!system.visit_constraint(&e(300), &e(1)));
    assert_eq!(system.room_count(), 2);
    assert_eq!(system.tracked_object(&e(300), &e(1)), None);
}

#[test]
fn rooms_are_isolated() {
    let mut system = two_rooms();
    system.track_object(&e(100), e(1), body(1), collider(11), None);
    system.track_object(&e(100), e(2), body(2), collider(12), None);
    system.track_constraint(&e(100), e(1), joint_handle(5));
    assert_eq!(system.tracked_object(&e(200), &e(1)), None);
    assert_eq!(system.tracked_constraint(&e(200), &e(1)), None);
    assert_eq!(system.get_body_handle(&e(1), &e(200)), None);
    assert_eq!(system.entity_of(&e(200), &collider(11)), None);
    // The same entity and the same handles may be in use in the other room.
    system.track_object(&e(200), e(1), body(1), collider(11), None);
    system.begin_tick();
    system.visit_object(&e(200), &e(1));
    let swept = system.sweep_room(&e(100));
    assert_eq!(swept.len(), 3);
    assert_eq!(system.tracked_object(&e(100), &e(1)), None);
    assert_eq!(system.entity_of(&e(100), &collider(11)), None);
    assert_eq!(system.entity_of(&e(200), &collider(11)), Some(e(1)));
    assert!(system.tracked_object(&e(200), &e(1)).is_some());
}

#[test]
fn marks_are_cleared_when_a_tick_starts() {
    let mut system = two_rooms();
    system.track_object(&e(100), e(1), body(1), collider(11), None);
    system.track_object(&e(200), e(2), body(2), collider(12), Some(e(1)));
    system.track_constraint(&e(200), e(2), joint_handle(3));
    assert!(system.tracked_object(&e(100), &e(1)).unwrap().visited);
    assert!(system.tracked_constraint(&e(200), &e(2)).unwrap().visited);
    system.begin_tick();
    assert_eq!(
        system.tracked_object(&e(100), &e(1)),
        Some(PhysicalObject {
            body_handle: body(1),
            collision_object_handle: collider(11),
            multibody_parent: None,
            visited: false,
        })
    );
    assert_eq!(
        system.tracked_object(&e(200), &e(2)),
        Some(PhysicalObject {
            body_handle: body(2),
            collision_object_handle: collider(12),
            multibody_parent: Some(e(1)),
            visited: false,
        })
    );
    assert_eq!(
        system.tracked_constraint(&e(200), &e(2)),
        Some(PhysicalConstraint {
            revolute_constraint_handle: joint_handle(3),
            room_entity: e(200),
            visited: false,
        })
    );
    assert!(system.visit_object(&e(100), &e(1)));
    assert!(system.tracked_object(&e(100), &e(1)).unwrap().visited);
    assert!(system.visit_constraint(&e(200), &e(2)));
    assert!(system.tracked_constraint(&e(200), &e(2)).unwrap().visited);
    assert!(!system.visit_object(&e(100), &e(2)));
    assert!(!system.visit_constraint(&e(100), &e(2)));
}

#[test]
fn what_is_not_seen_for_one_tick_is_collected() {
    let mut system = two_rooms();
    system.track_object(&e(100), e(1), body(1), collider(11), None);
    system.track_object(&e(100), e(2), body(2), collider(12), None);
    // Three ticks in which both are seen.
    for _ in 0..3 {
        system.begin_tick();
        assert!(system.visit_object(&e(100), &e(1)));
        assert!(system.visit_object(&e(100), &e(2)));
        assert!(system.sweep().is_empty());
    }
    // The component of 1 is gone: one tick later its body is, too.
    system.begin_tick();
    assert!(system.visit_object(&e(100), &e(2)));
    let actions = system.sweep();
    assert_eq!(
        actions,
        vec![(e(100), WorldAction::RemoveBody { body: body(1), collision_object: collider(11) })]
    );
    assert_eq!(system.tracked_object(&e(100), &e(1)), None);
    assert_eq!(system.get_body_handle(&e(1), &e(100)), None);
    assert_eq!(system.entity_of(&e(100), &collider(11)), None);
    assert!(system.tracked_object(&e(100), &e(2)).is_some());
    assert_eq!(system.entity_of(&e(100), &collider(12)), Some(e(2)));
}

#[test]
fn the_sweep_takes_constraints_before_bodies_room_after_room() {
    let mut system = two_rooms();
    system.track_object(&e(100), e(1), body(1), collider(11), None);
    system.track_object(&e(100), e(2), body(2), collider(12), Some(e(1)));
    system.track_constraint(&e(100), e(1), joint_handle(21));
    system.track_constraint(&e(100), e(2), joint_handle(22));
    system.track_object(&e(200), e(3), body(3), collider(13), None);
    system.track_constraint(&e(200), e(3), joint_handle(23));
    system.begin_tick();
    system.visit_constraint(&e(100), &e(1));
    let actions = system.sweep();
    assert_eq!(
        actions,
        vec![
            (e(100), WorldAction::RemoveConstraint(joint_handle(22))),
            (e(100), WorldAction::RemoveBody { body: body(1), collision_object: collider(11) }),
            (
                e(100),
                WorldAction::RemoveMultibodyLink { body: body(2), collision_object: collider(12) }
            ),
            (e(200), WorldAction::RemoveConstraint(joint_handle(23))),
            (e(200), WorldAction::RemoveBody { body: body(3), collision_object: collider(13) }),
        ]
    );
    assert!(system.tracked_constraint(&e(100), &e(1)).is_some());
    assert_eq!(system.tracked_constraint(&e(100), &e(2)), None);
    assert_eq!(system.tracked_constraint(&e(200), &e(3)), None);
    assert_eq!(system.sweep_room(&e(300)), vec![]);
}

#[test]
fn a_swept_wall_collider_stays_known() {
    // A terrain object that shares no handle with the walls leaves them alone.
    let mut system = two_rooms();
    system.track_object(&e(100), e(1), body(1000), collider(11), None);
    system.begin_tick();
    system.sweep();
    for i in 0..4 {
        assert_eq!(system.entity_of(&e(100), &collider(i)), Some(e(100)));
    }
}

#[test]
fn a_joint_is_planned_between_two_bodies_of_one_room() {
    let mut system = two_rooms();
    system.track_object(&e(100), e(1), body(1), collider(11), None);
    system.track_object(&e(100), e(2), body(2), collider(12), None);
    assert_eq!(
        system.plan_constraint(&e(100), &e(1), pin(2, e(2), Some(e(100)))),
        ConstraintPlan::Create { body1: body(1), body2: body(2) }
    );
    // Pinned to the room itself, which is placed in no room.
    assert_eq!(
        system.plan_constraint(&e(100), &e(1), pin(100, e(100), None)),
        ConstraintPlan::Create { body1: body(1), body2: body(1000) }
    );
    assert_eq!(system.track_constraint(&e(100), e(1), joint_handle(5)), Tracking::Created);
    let kept = PhysicalConstraint {
        revolute_constraint_handle: joint_handle(5),
        room_entity: e(100),
        visited: true,
    };
    assert_eq!(
        system.plan_constraint(&e(100), &e(1), pin(2, e(2), Some(e(100)))),
        ConstraintPlan::Keep(kept)
    );
    assert_eq!(system.track_constraint(&e(100), e(1), joint_handle(6)), Tracking::Existing);
    assert_eq!(system.tracked_constraint(&e(100), &e(1)), Some(kept));
}

#[test]
fn a_joint_that_cannot_be_made_says_why() {
    let mut system = two_rooms();
    system.track_object(&e(100), e(1), body(1), collider(11), None);
    system.track_object(&e(200), e(2), body(2), collider(12), None);
    let chain = JointLink {
        joint: RevoluteJoint { linked_to_entity: 2, multibody_link: true },
        linked_to: e(2),
        linked_room: Some(e(100)),
    };
    assert_eq!(system.plan_constraint(&e(100), &e(1), chain), ConstraintPlan::MultibodyLink);
    assert_eq!(
        system.plan_constraint(&e(100), &e(1), pin(2, e(2), Some(e(200)))),
        ConstraintPlan::RoomMismatch
    );
    assert_eq!(
        system.plan_constraint(&e(100), &e(1), pin(2, e(2), None)),
        ConstraintPlan::LinkedRoomUnknown
    );
    assert_eq!(
        system.plan_constraint(&e(300), &e(1), pin(2, e(2), Some(e(300)))),
        ConstraintPlan::MissingRoom
    );
    assert_eq!(
        system.plan_constraint(&e(100), &e(1), pin(3, e(3), Some(e(100)))),
        ConstraintPlan::MissingBody
    );
    assert_eq!(
        system.plan_constraint(&e(100), &e(4), pin(1, e(1), Some(e(100)))),
        ConstraintPlan::MissingBody
    );
}

#[test]
fn severing_hands_the_constraint_back_once() {
    let mut system = two_rooms();
    system.track_constraint(&e(100), e(1), joint_handle(5));
    assert_eq!(system.sever_constraint(&e(200), &e(1)), None);
    assert_eq!(system.sever_constraint(&e(300), &e(1)), None);
    assert_eq!(system.sever_constraint(&e(100), &e(1)), Some(joint_handle(5)));
    assert_eq!(system.sever_constraint(&e(100), &e(1)), None);
    assert_eq!(system.tracked_constraint(&e(100), &e(1)), None);
}

#[test]
fn destroying_an_object_takes_its_constraint_first() {
    let mut system = two_rooms();
    system.track_object(&e(100), e(1), body(1), collider(11), None);
    system.track_constraint(&e(100), e(1), joint_handle(5));
    system.track_object(&e(100), e(2), body(2), collider(12), Some(e(1)));
    system.track_constraint(&e(100), e(2), joint_handle(6));
    system.track_object(&e(100), e(3), body(3), collider(13), None);
    assert_eq!(system.destroy_object(&e(300), &e(1)), None);
    assert_eq!(system.destroy_object(&e(100), &e(9)), Some(vec![]));
    assert_eq!(
        system.destroy_object(&e(100), &e(1)),
        Some(vec![
            WorldAction::RemoveConstraint(joint_handle(5)),
            WorldAction::RemoveBody { body: body(1), collision_object: collider(11) },
        ])
    );
    assert_eq!(system.tracked_object(&e(100), &e(1)), None);
    assert_eq!(system.tracked_constraint(&e(100), &e(1)), None);
    assert_eq!(system.entity_of(&e(100), &collider(11)), None);
    // A link of a chain leaves as a link, and its constraint record stays.
    assert_eq!(
        system.destroy_object(&e(100), &e(2)),
        Some(vec![WorldAction::RemoveMultibodyLink { body: body(2), collision_object: collider(12) }])
    );
    assert!(system.tracked_constraint(&e(100), &e(2)).is_some());
    assert_eq!(
        system.destroy_object(&e(100), &e(3)),
        Some(vec![WorldAction::RemoveBody { body: body(3), collision_object: collider(13) }])
    );
    assert_eq!(system.destroy_object(&e(100), &e(3)), Some(vec![]));
}

#[test]
fn destroying_a_room_hands_its_world_back() {
    let mut system = two_rooms();
    system.track_object(&e(100), e(1), body(1), collider(11), None);
    assert_eq!(system.destroy_room(&e(300)), None);
    assert_eq!(system.destroy_room(&e(100)), Some("a".to_string()));
    assert_eq!(system.destroy_room(&e(100)), None);
    assert_eq!(system.room_count(), 1);
    assert_eq!(system.room_at(0), e(200));
    assert_eq!(system.tracked_object(&e(100), &e(1)), None);
    assert_eq!(system.world(&e(200)), Some(&"b".to_string()));
}

#[test]
fn a_joint_to_a_destroyed_entity_is_severed_before_the_body_goes() {
    let mut system = two_rooms();
    system.track_object(&e(100), e(1), body(1), collider(11), None);
    system.track_object(&e(100), e(2), body(2), collider(12), None);
    // Entity 1 is pinned to entity 2, and entity 2 is marked for destruction.
    system.track_constraint(&e(100), e(1), joint_handle(5));
    let marked = Marked {
        severed_joints: vec![Placed { room: e(100), entity: e(1) }],
        objects: vec![Placed { room: e(100), entity: e(2) }],
        rooms: vec![],
        joints: vec![],
    };
    let torn = system.teardown(&marked);
    assert_eq!(
        torn.actions,
        vec![
            (e(100), WorldAction::RemoveConstraint(joint_handle(5))),
            (e(100), WorldAction::RemoveBody { body: body(2), collision_object: collider(12) }),
        ]
    );
    assert!(torn.worlds.is_empty());
    assert!(torn.homeless.is_empty());
    assert_eq!(system.tracked_constraint(&e(100), &e(1)), None);
    assert_eq!(system.tracked_object(&e(100), &e(2)), None);
    assert!(system.tracked_object(&e(100), &e(1)).is_some());
}

#[test]
fn the_teardown_runs_its_four_steps_in_order() {
    let mut system = two_rooms();
    system.track_object(&e(100), e(1), body(1), collider(11), None);
    system.track_object(&e(100), e(2), body(2), collider(12), None);
    system.track_object(&e(200), e(3), body(3), collider(13), None);
    system.track_object(&e(200), e(5), body(5), collider(15), Some(e(3)));
    system.track_constraint(&e(100), e(1), joint_handle(21));
    system.track_constraint(&e(100), e(2), joint_handle(22));
    system.track_constraint(&e(200), e(3), joint_handle(23));
    system.track_constraint(&e(200), e(5), joint_handle(25));
    let marked = Marked {
        severed_joints: vec![
            Placed { room: e(100), entity: e(1) },
            Placed { room: e(300), entity: e(1) },
            Placed { room: e(100), entity: e(1) },
        ],
        objects: vec![
            Placed { room: e(100), entity: e(2) },
            Placed { room: e(300), entity: e(4) },
            Placed { room: e(200), entity: e(5) },
        ],
        rooms: vec![e(100), e(300)],
        joints: vec![Placed { room: e(100), entity: e(2) }, Placed { room: e(200), entity: e(5) }],
    };
    let torn = system.teardown(&marked);
    assert_eq!(
        torn.actions,
        vec![
            (e(100), WorldAction::RemoveConstraint(joint_handle(21))),
            (e(100), WorldAction::RemoveConstraint(joint_handle(22))),
            (e(100), WorldAction::RemoveBody { body: body(2), collision_object: collider(12) }),
            (
                e(200),
                WorldAction::RemoveMultibodyLink { body: body(5), collision_object: collider(15) }
            ),
            (e(200), WorldAction::RemoveConstraint(joint_handle(25))),
        ]
    );
    assert_eq!(torn.worlds, vec!["a".to_string()]);
    assert_eq!(torn.homeless, vec![e(4)]);
    assert!(!system.has_room(&e(100)));
    assert!(system.has_room(&e(200)));
    assert!(system.tracked_object(&e(200), &e(3)).is_some());
    assert!(system.tracked_constraint(&e(200), &e(3)).is_some());
    assert_eq!(system.tracked_object(&e(200), &e(5)), None);
    assert_eq!(system.tracked_constraint(&e(200), &e(5)), None);
}

#[test]
fn an_empty_teardown_changes_nothing() {
    let mut system = two_rooms();
    system.track_object(&e(100), e(1), body(1), collider(11), None);
    let marked = Marked { severed_joints: vec![], objects: vec![], rooms: vec![], joints: vec![] };
    let torn = system.teardown(&marked);
    assert!(torn.actions.is_empty());
    assert!(torn.worlds.is_empty());
    assert!(torn.homeless.is_empty());
    assert_eq!(system.room_count(), 2);
    assert!(system.tracked_object(&e(100), &e(1)).is_some());
}

#[test]
fn an_object_goes_from_absent_to_seen_to_unseen_to_absent() {
    let mut system = two_rooms();
    assert_eq!(system.presence(&e(100), &e(1)), Presence::Absent);
    assert_eq!(system.presence(&e(300), &e(1)), Presence::Absent);
    system.track_object(&e(100), e(1), body(1), collider(11), None);
    assert_eq!(system.presence(&e(100), &e(1)), Presence::Seen);
    assert_eq!(system.presence(&e(200), &e(1)), Presence::Absent);
    system.begin_tick();
    assert_eq!(system.presence(&e(100), &e(1)), Presence::Unseen);
    system.visit_object(&e(100), &e(1));
    assert_eq!(system.presence(&e(100), &e(1)), Presence::Seen);
    assert!(system.sweep().is_empty());
    assert_eq!(system.presence(&e(100), &e(1)), Presence::Seen);
    system.begin_tick();
    assert_eq!(system.sweep().len(), 1);
    assert_eq!(system.presence(&e(100), &e(1)), Presence::Absent);
}

#[test]
fn an_object_that_comes_back_is_made_anew() {
    let mut system = two_rooms();
    system.track_object(&e(100), e(1), body(1), collider(11), None);
    system.begin_tick();
    system.sweep();
    assert_eq!(
        system.plan_dynamic(&e(100), &e(1), None),
        ObjectPlan::CreateRigidBody
    );
    assert_eq!(system.track_object(&e(100), e(1), body(2), collider(12), None), Tracking::Created);
    assert_eq!(system.get_body_handle(&e(1), &e(100)), Some(body(2)));
}

#[test]
fn a_pin_keeps_two_bodies_at_their_distance() {
    let n = |x: f64| Scalar::from_bits(x.to_bits());
    let minus = |a: Scalar, b: Scalar| {
        Scalar::from_bits((f64::from_bits(a.to_bits()) - f64::from_bits(b.to_bits())).to_bits())
    };
    // Two bodies at (0, 0) and (10, 0): the second is held ten units from
    // where the first is held, which is where they are.
    let anchors = pin_anchors((n(0.0), n(0.0)), (n(10.0), n(0.0)), minus);
    assert_eq!(
        anchors,
        Anchors { anchor1: (n(0.0), n(0.0)), anchor2: (n(-10.0), n(0.0)) }
    );
    let x = f64::from_bits(anchors.anchor2.0.to_bits());
    let y = f64::from_bits(anchors.anchor2.1.to_bits());
    assert_eq!((x * x + y * y).sqrt(), 10.0);
    let anchors = pin_anchors((n(3.0), n(-4.5)), (n(1.0), n(1.5)), minus);
    assert_eq!(anchors.anchor2, (n(2.0), n(-6.0)));
}

/// A world that counts what was made in it.
fn counting_rooms() -> PhysicsSystem<u32> {
    let mut system: PhysicsSystem<u32> = PhysicsSystem::new();
    let generator = ForceGeneratorHandle { index: 0, generation: 0 };
    assert!(system.ensure_room(e(100), || (0, body(1000), walls(0), generator)));
    assert!(system.ensure_room(e(200), || (0, body(2000), walls(0), generator)));
    system
}

#[test]
fn a_world_is_built_for_a_room_once() {
    let mut system = counting_rooms();
    let generator = ForceGeneratorHandle { index: 9, generation: 9 };
    let mut built = 0;
    assert!(!system.ensure_room(e(100), || {
        built += 1;
        (77, body(1), walls(50), generator)
    }));
    assert_eq!(built, 0);
    assert_eq!(system.room_count(), 2);
    assert_eq!(system.world(&e(100)), Some(&0));
    assert_eq!(system.ground_of(&e(100)), Some(body(1000)));
    assert!(system.ensure_room(e(300), || {
        built += 1;
        (77, body(1), walls(50), generator)
    }));
    assert_eq!(built, 1);
    assert_eq!(system.world(&e(300)), Some(&77));
    assert_eq!(system.room_at(2), e(300));
    assert_eq!(system.entity_of(&e(300), &collider(51)), Some(e(300)));
}

#[test]
fn terrain_is_made_once_however_often_it_is_seen() {
    let mut system = counting_rooms();
    let mut tracking = Vec::new();
    for _ in 0..3 {
        system.begin_tick();
        let outcome = system.see_terrain(&e(100), e(1), |world: &mut u32, ground: BodyHandle| {
            assert_eq!(ground, body(1000));
            *world += 1;
            collider(10 + *world as usize)
        });
        assert_eq!(system.world(&e(100)), Some(&1));
        assert_eq!(system.presence(&e(100), &e(1)), Presence::Seen);
        assert_eq!(
            system.tracked_object(&e(100), &e(1)),
            Some(PhysicalObject {
                body_handle: body(1000),
                collision_object_handle: collider(11),
                multibody_parent: None,
                visited: true,
            })
        );
        assert!(system.sweep().is_empty());
        tracking.push(outcome);
    }
    assert_eq!(tracking, vec![Tracking::Created, Tracking::Existing, Tracking::Existing]);
    assert_eq!(system.world(&e(200)), Some(&0));
    let missing = system.see_terrain(&e(300), e(1), |world: &mut u32, _| {
        *world += 1;
        collider(99)
    });
    assert_eq!(missing, Tracking::MissingRoom);
}

#[test]
fn seeing_tells_made_from_kept() {
    let mut system = counting_rooms();
    let make = |world: &mut u32, _: BodyHandle| {
        *world += 1;
        collider(11)
    };
    assert_eq!(system.see_terrain(&e(100), e(1), make), Tracking::Created);
    assert_eq!(system.see_terrain(&e(100), e(1), make), Tracking::Existing);
    assert_eq!(system.world(&e(100)), Some(&1));
}

#[test]
fn a_dynamic_object_is_made_as_a_body_or_as_a_link() {
    let mut system = counting_rooms();
    let rigid = |world: &mut u32| {
        *world += 1;
        (body(*world as usize), collider(*world as usize + 10))
    };
    let linked = |world: &mut u32, parent: BodyHandle| {
        *world += 100;
        (BodyHandle { part: 1, ..parent }, collider(*world as usize))
    };
    // No joint: a rigid body.
    assert_eq!(
        system.see_dynamic(&e(100), e(1), None, rigid, linked),
        (Tracking::Created, Some(body(1)))
    );
    assert_eq!(system.world(&e(100)), Some(&1));
    // A link of a chain that hangs from entity 1.
    let chain = |linked_to: Entity| {
        Some(JointLink {
            joint: RevoluteJoint { linked_to_entity: linked_to.id, multibody_link: true },
            linked_to,
            linked_room: Some(e(100)),
        })
    };
    assert_eq!(
        system.see_dynamic(&e(100), e(2), chain(e(1)), rigid, linked),
        (Tracking::Created, Some(BodyHandle { part: 1, ..body(1) }))
    );
    assert_eq!(system.world(&e(100)), Some(&101));
    assert_eq!(
        system.tracked_object(&e(100), &e(2)),
        Some(PhysicalObject {
            body_handle: BodyHandle { part: 1, ..body(1) },
            collision_object_handle: collider(101),
            multibody_parent: Some(e(1)),
            visited: true,
        })
    );
    // A link whose parent has no body yet: a rigid body that stands alone.
    assert_eq!(
        system.see_dynamic(&e(100), e(3), chain(e(9)), rigid, linked),
        (Tracking::Created, Some(body(102)))
    );
    assert_eq!(system.tracked_object(&e(100), &e(3)).unwrap().multibody_parent, None);
    // Seen again: nothing is made.
    system.begin_tick();
    assert_eq!(
        system.see_dynamic(&e(100), e(2), chain(e(1)), rigid, linked),
        (Tracking::Existing, Some(BodyHandle { part: 1, ..body(1) }))
    );
    assert_eq!(system.world(&e(100)), Some(&102));
    assert_eq!(system.presence(&e(100), &e(2)), Presence::Seen);
    assert_eq!(system.presence(&e(100), &e(1)), Presence::Unseen);
    assert_eq!(system.see_dynamic(&e(300), e(2), None, rigid, linked), (Tracking::MissingRoom, None));
}

#[test]
fn a_joint_is_made_once_and_kept() {
    let mut system = counting_rooms();
    system.track_object(&e(100), e(1), body(1), collider(11), None);
    system.track_object(&e(100), e(2), body(2), collider(12), None);
    let make = |world: &mut u32, body1: BodyHandle, body2: BodyHandle| {
        *world += 1;
        ConstraintHandle { index: body1.index * 10 + body2.index, generation: 0 }
    };
    assert_eq!(
        system.see_constraint(&e(100), e(1), pin(2, e(2), Some(e(100))), make),
        ConstraintPlan::Create { body1: body(1), body2: body(2) }
    );
    assert_eq!(system.world(&e(100)), Some(&1));
    let kept = PhysicalConstraint {
        revolute_constraint_handle: joint_handle(12),
        room_entity: e(100),
        visited: true,
    };
    assert_eq!(system.tracked_constraint(&e(100), &e(1)), Some(kept));
    system.begin_tick();
    assert_eq!(
        system.see_constraint(&e(100), e(1), pin(2, e(2), Some(e(100))), make),
        ConstraintPlan::Keep(PhysicalConstraint { visited: false, ..kept })
    );
    assert_eq!(system.world(&e(100)), Some(&1));
    assert_eq!(system.tracked_constraint(&e(100), &e(1)), Some(kept));
    // What cannot be made is not made.
    assert_eq!(
        system.see_constraint(&e(100), e(2), pin(1, e(1), Some(e(200))), make),
        ConstraintPlan::RoomMismatch
    );
    assert_eq!(
        system.see_constraint(&e(100), e(2), pin(7, e(7), Some(e(100))), make),
        ConstraintPlan::MissingBody
    );
    assert_eq!(system.tracked_constraint(&e(100), &e(2)), None);
    assert_eq!(system.world(&e(100)), Some(&1));
}

#[test]
fn a_body_that_stands_alone_leaves_as_one() {
    let mut system = counting_rooms();
    let rigid = |world: &mut u32| {
        *world += 1;
        (body(*world as usize), collider(*world as usize + 10))
    };
    let linked = |world: &mut u32, parent: BodyHandle| {
        *world += 100;
        (BodyHandle { part: 1, ..parent }, collider(*world as usize))
    };
    // The joint asks for a link of a chain, but its parent has no body.
    let orphan = Some(JointLink {
        joint: RevoluteJoint { linked_to_entity: 9, multibody_link: true },
        linked_to: e(9),
        linked_room: Some(e(100)),
    });
    assert_eq!(
        system.see_dynamic(&e(100), e(1), orphan, rigid, linked),
        (Tracking::Created, Some(body(1)))
    );
    system.track_constraint(&e(100), e(1), joint_handle(5));
    // Unseen for a tick: swept as a body of its own.
    system.begin_tick();
    assert_eq!(
        system.sweep(),
        vec![
            (e(100), WorldAction::RemoveConstraint(joint_handle(5))),
            (e(100), WorldAction::RemoveBody { body: body(1), collision_object: collider(11) }),
        ]
    );
    // Made again and destroyed: the constraint of its joint leaves first.
    assert_eq!(
        system.see_dynamic(&e(100), e(1), orphan, rigid, linked),
        (Tracking::Created, Some(body(2)))
    );
    system.track_constraint(&e(100), e(1), joint_handle(6));
    assert_eq!(
        system.destroy_object(&e(100), &e(1)),
        Some(vec![
            WorldAction::RemoveConstraint(joint_handle(6)),
            WorldAction::RemoveBody { body: body(2), collision_object: collider(12) },
        ])
    );
    assert_eq!(system.tracked_constraint(&e(100), &e(1)), None);
}
