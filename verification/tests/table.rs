use stacked_worlds::entity::Entity;
use stacked_worlds::physics::PhysicalConstraint;
use stacked_worlds::entity::ConstraintHandle;
use stacked_worlds::table::Table;

fn e(id: u32) -> Entity {
    Entity::new(id, 1)
}

fn constraint(index: usize, visited: bool) -> PhysicalConstraint {
    PhysicalConstraint {
        revolute_constraint_handle: ConstraintHandle { index, generation: 0 },
        room_entity: e(0),
        visited,
    }
}

#[test]
fn empty_table() {
    let table: Table<Entity, u32> = Table::new();
    assert_eq!(table.len(), 0);
    assert!(!table.contains_key(&e(1)));
    assert_eq!(table.get(&e(1)), None);
    assert_eq!(table.position(&e(1)), None);
}

#[test]
fn insert_appends_new_keys_in_order() {
    let mut table: Table<Entity, u32> = Table::new();
    assert_eq!(table.insert(e(3), 30), None);
    assert_eq!(table.insert(e(1), 10), None);
    assert_eq!(table.insert(e(2), 20), None);
    assert_eq!(table.len(), 3);
    assert_eq!(table.key_at(0), e(3));
    assert_eq!(table.key_at(1), e(1));
    assert_eq!(table.key_at(2), e(2));
    assert_eq!(*table.value_at(1), 10);
    assert_eq!(table.get(&e(2)), Some(&20));
    assert_eq!(table.position(&e(2)), Some(2));
}

#[test]
fn insert_replaces_in_place() {
    let mut table: Table<Entity, u32> = Table::new();
    table.insert(e(3), 30);
    table.insert(e(1), 10);
    table.insert(e(2), 20);
    assert_eq!(table.insert(e(3), 33), Some(30));
    assert_eq!(table.len(), 3);
    assert_eq!(table.key_at(0), e(3));
    assert_eq!(table.key_at(1), e(1));
    assert_eq!(table.key_at(2), e(2));
    assert_eq!(table.get(&e(3)), Some(&33));
    assert_eq!(table.get(&e(1)), Some(&10));
    assert_eq!(table.get(&e(2)), Some(&20));
}

#[test]
fn keys_differ_by_generation() {
    let mut table: Table<Entity, u32> = Table::new();
    table.insert(Entity::new(1, 1), 11);
    table.insert(Entity::new(1, 2), 12);
    assert_eq!(table.len(), 2);
    assert_eq!(table.get(&Entity::new(1, 1)), Some(&11));
    assert_eq!(table.get(&Entity::new(1, 2)), Some(&12));
    assert_eq!(table.get(&Entity::new(1, 3)), None);
}

#[test]
fn remove_keeps_the_order_of_the_rest() {
    let mut table: Table<Entity, u32> = Table::new();
    table.insert(e(3), 30);
    table.insert(e(1), 10);
    table.insert(e(2), 20);
    assert_eq!(table.remove(&e(1)), Some(10));
    assert_eq!(table.remove(&e(1)), None);
    assert_eq!(table.len(), 2);
    assert_eq!(table.key_at(0), e(3));
    assert_eq!(table.key_at(1), e(2));
    assert_eq!(table.remove_at(0), (e(3), 30));
    assert_eq!(table.len(), 1);
    assert_eq!(table.key_at(0), e(2));
}

#[test]
fn value_at_mut_changes_one_value() {
    let mut table: Table<Entity, u32> = Table::new();
    table.insert(e(3), 30);
    table.insert(e(1), 10);
    *table.value_at_mut(1) += 5;
    assert_eq!(table.get(&e(1)), Some(&15));
    assert_eq!(table.get(&e(3)), Some(&30));
}

#[test]
fn clear_marks_clears_every_mark() {
    let mut table: Table<Entity, PhysicalConstraint> = Table::new();
    table.insert(e(1), constraint(1, true));
    table.insert(e(2), constraint(2, false));
    table.insert(e(3), constraint(3, true));
    table.clear_marks();
    assert_eq!(table.len(), 3);
    for i in 0..3 {
        assert!(!table.value_at(i).visited);
        assert_eq!(table.value_at(i).revolute_constraint_handle.index, i + 1);
    }
}

#[test]
fn sweep_drops_the_unmarked_in_order() {
    let mut table: Table<Entity, PhysicalConstraint> = Table::new();
    table.insert(e(1), constraint(1, false));
    table.insert(e(2), constraint(2, true));
    table.insert(e(3), constraint(3, false));
    table.insert(e(4), constraint(4, true));
    let dropped = table.sweep();
    assert_eq!(dropped, vec![(e(1), constraint(1, false)), (e(3), constraint(3, false))]);
    assert_eq!(table.len(), 2);
    assert_eq!(table.key_at(0), e(2));
    assert_eq!(table.key_at(1), e(4));
    assert_eq!(table.get(&e(2)), Some(&constraint(2, true)));
    assert_eq!(table.get(&e(1)), None);
    assert!(table.sweep().is_empty());
    assert_eq!(table.len(), 2);
}

#[test]
fn clear_empties_the_table() {
    let mut table: Table<Entity, u32> = Table::new();
    table.insert(e(3), 30);
    table.insert(e(1), 10);
    table.clear();
    assert_eq!(table.len(), 0);
    assert_eq!(table.get(&e(3)), None);
    assert_eq!(table.insert(e(1), 11), None);
    assert_eq!(table.key_at(0), e(1));
}
