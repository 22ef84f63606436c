use wasm_physics::world::NOT_FOUND;
use wasm_physics::{Entity, PhysicsWorld};

#[test]
fn new_world_is_empty() {
    let world = PhysicsWorld::new();
    assert_eq!(world.get_entity_count(), 0);
    assert_eq!(world.get_entity_ids(), Vec::<u32>::new());
}

#[test]
fn entity_new_keeps_its_fields() {
    let e = Entity::new(7, -3, 4, 5, 6);
    assert_eq!((e.id, e.x, e.y, e.radius, e.mass), (7, -3, 4, 5, 6));
}

#[test]
fn add_appends_new_ids_in_order() {
    let mut world = PhysicsWorld::new();
    world.add_entity(5, 0, 0, 1, 1);
    world.add_entity(3, 0, 0, 1, 1);
    world.add_entity(9, 0, 0, 1, 1);
    assert_eq!(world.get_entity_count(), 3);
    assert_eq!(world.get_entity_ids(), vec![5, 3, 9]);
}

#[test]
fn add_with_known_id_overwrites_in_place() {
    let mut world = PhysicsWorld::new();
    world.add_entity(5, 0, 0, 10, 1);
    world.add_entity(3, 15, 0, 10, 1);
    world.add_entity(9, 1000, 0, 10, 1);
    world.add_entity(3, 2000, 0, 10, 1);
    assert_eq!(world.get_entity_count(), 3);
    assert_eq!(world.get_entity_ids(), vec![5, 3, 9]);
    world.update_spatial_grid();
    assert_eq!(world.check_collisions(), Vec::<u32>::new());
    world.add_entity(3, 1005, 0, 10, 1);
    world.update_spatial_grid();
    assert_eq!(world.check_collisions(), vec![3, 9]);
}

#[test]
fn remove_of_unknown_id_changes_nothing() {
    let mut world = PhysicsWorld::new();
    world.add_entity(1, 0, 0, 1, 1);
    world.add_entity(2, 0, 0, 1, 1);
    world.remove_entity(77);
    assert_eq!(world.get_entity_ids(), vec![1, 2]);
}

#[test]
fn remove_keeps_the_order_of_the_rest() {
    let mut world = PhysicsWorld::new();
    for id in [4u32, 8, 15, 16, 23, 42] {
        world.add_entity(id, 0, 0, 1, 1);
    }
    world.remove_entity(15);
    world.remove_entity(4);
    world.remove_entity(42);
    assert_eq!(world.get_entity_ids(), vec![8, 16, 23]);
    assert_eq!(world.get_entity_count(), 3);
}

#[test]
fn clear_drops_every_entity() {
    let mut world = PhysicsWorld::new();
    world.add_entity(1, 0, 0, 10, 1);
    world.add_entity(2, 5, 0, 10, 1);
    world.update_spatial_grid();
    world.clear();
    assert_eq!(world.get_entity_count(), 0);
    assert_eq!(world.get_entity_ids(), Vec::<u32>::new());
    assert_eq!(world.check_collisions(), Vec::<u32>::new());
    world.add_entity(3, 0, 0, 10, 1);
    world.add_entity(4, 5, 0, 10, 1);
    world.update_spatial_grid();
    assert_eq!(world.check_collisions(), vec![3, 4]);
}

#[test]
fn find_nearest_on_empty_store_is_not_found() {
    let world = PhysicsWorld::new();
    assert_eq!(world.find_nearest(0, 0, 0), NOT_FOUND);
    assert_eq!(NOT_FOUND, -1);
}

#[test]
fn find_nearest_with_only_entity_excluded_is_not_found() {
    let mut world = PhysicsWorld::new();
    world.add_entity(7, 3, 3, 1, 1);
    assert_eq!(world.find_nearest(0, 0, 7), -1);
    assert_eq!(world.find_nearest(0, 0, 8), 7);
}

#[test]
fn find_nearest_picks_the_smallest_distance() {
    let mut world = PhysicsWorld::new();
    world.add_entity(1, 100, 0, 1, 1);
    world.add_entity(2, 0, -30, 1, 1);
    world.add_entity(3, 20, 20, 1, 1);
    world.add_entity(4, -29, 0, 1, 1);
    assert_eq!(world.find_nearest(0, 0, 99), 3);
    assert_eq!(world.find_nearest(0, 0, 3), 4);
    assert_eq!(world.find_nearest(90, 0, 99), 1);
}

#[test]
fn find_nearest_prefers_the_first_of_equally_near() {
    let mut world = PhysicsWorld::new();
    world.add_entity(10, 5, 0, 1, 1);
    world.add_entity(11, 0, 5, 1, 1);
    world.add_entity(12, -5, 0, 1, 1);
    assert_eq!(world.find_nearest(0, 0, 0), 10);
    assert_eq!(world.find_nearest(0, 0, 10), 11);
}

#[test]
fn find_nearest_wraps_ids_above_the_signed_range() {
    let mut world = PhysicsWorld::new();
    world.add_entity(0x8000_0000, 0, 0, 1, 1);
    assert_eq!(world.find_nearest(0, 0, 0), i32::MIN);
    world.add_entity(0xffff_fffe, 0, 0, 1, 1);
    assert_eq!(world.find_nearest(0, 0, 0x8000_0000), -2);
}

#[test]
fn find_nearest_spans_the_whole_plane() {
    let mut world = PhysicsWorld::new();
    world.add_entity(1, i32::MIN, i32::MIN, 1, 1);
    world.add_entity(2, i32::MIN + 1, i32::MIN, 1, 1);
    assert_eq!(world.find_nearest(i32::MAX, i32::MAX, 0), 2);
}
