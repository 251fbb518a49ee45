use specs::prelude::{Builder, World};
use stacked_worlds::entity::Entity;
use stacked_worlds::physics::model::JointLink;
use stacked_worlds::physics::teardown::Placed;
use stacked_worlds::physics::{InRoom, RevoluteJoint};

#[test]
fn an_entity_is_found_by_its_slot() {
    let mut world = World::new();
    let first = world.create_entity().build();
    let second = world.create_entity().build();
    let entities = world.entities();
    let found = Entity::in_slot(&entities, second.id());
    assert_eq!(found, Entity::new(second.id(), second.gen().id()));
    assert_ne!(found.generation, 0);
    assert_ne!(Entity::in_slot(&entities, first.id()), found);
    assert_eq!(Entity::in_slot(&entities, first.id()).id(), first.id());
}

#[test]
fn a_slot_that_is_used_again_has_a_new_generation() {
    let mut world = World::new();
    let first = world.create_entity().build();
    let before = Entity::in_slot(&world.entities(), first.id());
    world.delete_entity(first).unwrap();
    world.maintain();
    let again = world.create_entity().build();
    assert_eq!(again.id(), first.id());
    let after = Entity::in_slot(&world.entities(), first.id());
    assert_eq!(after.id, before.id);
    assert_ne!(after, before);
    assert_eq!(after.generation, again.gen().id());
}

#[test]
fn an_object_is_placed_in_the_room_of_its_slot() {
    let mut world = World::new();
    let _other = world.create_entity().build();
    let room = world.create_entity().build();
    let object = world.create_entity().build();
    let entities = world.entities();
    let object = Entity::new(object.id(), object.gen().id());
    let placed = Placed::resolve(&entities, &InRoom { room_entity: room.id() }, object);
    assert_eq!(
        placed,
        Placed { room: Entity::new(room.id(), room.gen().id()), entity: object }
    );
}

#[test]
fn a_joint_is_resolved_to_its_far_end() {
    let mut world = World::new();
    let room = world.create_entity().build();
    let far = world.create_entity().build();
    let entities = world.entities();
    let joint = RevoluteJoint { linked_to_entity: far.id(), multibody_link: false };
    let linked_to = JointLink::far_end(&entities, &joint);
    assert_eq!(linked_to, Entity::new(far.id(), far.gen().id()));
    let link = JointLink::resolve(&entities, joint, linked_to, Some(InRoom { room_entity: room.id() }));
    assert_eq!(
        link,
        JointLink {
            joint,
            linked_to,
            linked_room: Some(Entity::new(room.id(), room.gen().id())),
        }
    );
    let link = JointLink::resolve(&entities, joint, linked_to, None);
    assert_eq!(link, JointLink { joint, linked_to, linked_room: None });
}

#[test]
fn the_table_answers_for_every_slot_below_its_limit() {
    let limit = Entity::slot_limit();
    assert!(limit == 1 << 24 || limit == 1 << 20);
    assert_eq!(limit == 1 << 24, usize::BITS == 64);
    let mut world = World::new();
    let only = world.create_entity().build();
    let entities = world.entities();
    // A slot that was never handed out is answered for, too.
    let unused = Entity::in_slot(&entities, limit - 1);
    assert_eq!(unused.id(), limit - 1);
    assert_eq!(Entity::in_slot(&entities, only.id()).id(), only.id());
}
