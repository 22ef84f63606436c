use wasm_physics::{PhysicsWorld, SpatialGrid};

#[test]
fn test_collision_detection() {
    let mut world = PhysicsWorld::new();

    // Add two overlapping entities
    world.add_entity(1, 0, 0, 10, 100);
    world.add_entity(2, 15, 0, 10, 100);

    world.update_spatial_grid();
    let collisions = world.check_collisions();

    assert_eq!(collisions.len(), 2);
    assert_eq!(collisions[0], 1);
    assert_eq!(collisions[1], 2);
}

#[test]
fn test_no_collision() {
    let mut world = PhysicsWorld::new();

    // Add two non-overlapping entities
    world.add_entity(1, 0, 0, 10, 100);
    world.add_entity(2, 100, 0, 10, 100);

    world.update_spatial_grid();
    let collisions = world.check_collisions();

    assert_eq!(collisions.len(), 0);
}

#[test]
fn test_spatial_grid() {
    let mut grid = SpatialGrid::new(100);
    grid.insert(0, 50, 50, 10);

    let nearby = grid.query_nearby(55, 55, 10);
    assert!(nearby.contains(&0));
}

#[test]
fn touching_circles_do_not_collide() {
    let mut world = PhysicsWorld::new();
    world.add_entity(1, 0, 0, 10, 1);
    world.add_entity(2, 20, 0, 10, 1);
    world.add_entity(3, 100, 100, 3, 1);
    world.add_entity(4, 103, 104, 2, 1);
    world.update_spatial_grid();
    assert_eq!(world.check_collisions(), Vec::<u32>::new());
}

#[test]
fn circles_one_unit_closer_than_touching_collide() {
    let mut world = PhysicsWorld::new();
    world.add_entity(1, 0, 0, 10, 1);
    world.add_entity(2, 19, 0, 10, 1);
    world.add_entity(3, 100, 100, 3, 1);
    world.add_entity(4, 103, 104, 3, 1);
    world.update_spatial_grid();
    assert_eq!(world.check_collisions(), vec![1, 2, 3, 4]);
}

#[test]
fn pairs_come_in_store_order() {
    let mut world = PhysicsWorld::new();
    world.add_entity(30, 0, 0, 10, 1);
    world.add_entity(20, 5, 0, 10, 1);
    world.add_entity(10, 10, 0, 10, 1);
    world.add_entity(40, 1000, 1000, 10, 1);
    world.update_spatial_grid();
    assert_eq!(world.check_collisions(), vec![30, 20, 30, 10, 20, 10]);
}

#[test]
fn no_entity_is_paired_with_itself() {
    let mut world = PhysicsWorld::new();
    for id in 0..20u32 {
        world.add_entity(id, (id as i32) * 7, (id as i32 % 3) * 5, 6, 1);
    }
    world.update_spatial_grid();
    let pairs = world.check_collisions();
    assert_eq!(pairs.len() % 2, 0);
    assert!(!pairs.is_empty());
    for pair in pairs.chunks(2) {
        assert_ne!(pair[0], pair[1]);
    }
}

#[test]
fn each_overlapping_pair_is_reported_once() {
    let circles: Vec<(u32, i32, i32, u32)> = vec![
        (1, 0, 0, 50),
        (2, 30, 40, 1),
        (3, -250, 10, 220),
        (4, 399, 0, 5),
        (5, 401, 0, 5),
        (6, -1, -1, 1),
        (7, 2000, 2000, 1900),
        (8, 30, 41, 1),
    ];
    let mut world = PhysicsWorld::new();
    for &(id, x, y, r) in &circles {
        world.add_entity(id, x, y, r, 0);
    }
    world.update_spatial_grid();
    let pairs = world.check_collisions();

    let mut expected: Vec<u32> = Vec::new();
    for i in 0..circles.len() {
        for j in (i + 1)..circles.len() {
            let (a, ax, ay, ar) = circles[i];
            let (b, bx, by, br) = circles[j];
            let dx = (ax - bx) as i64;
            let dy = (ay - by) as i64;
            let reach = (ar + br) as i64;
            if dx * dx + dy * dy < reach * reach {
                expected.push(a);
                expected.push(b);
            }
        }
    }
    assert_eq!(pairs, expected);
    assert!(pairs.len() >= 2);
}

#[test]
fn a_huge_neighbour_is_found_from_a_small_circle() {
    let mut world = PhysicsWorld::new();
    world.add_entity(1, 0, 0, 1, 0);
    world.add_entity(2, 5000, 0, 5000, 0);
    world.update_spatial_grid();
    assert_eq!(world.check_collisions(), vec![1, 2]);
}

#[test]
fn removed_entity_leaves_results_and_ids() {
    let mut world = PhysicsWorld::new();
    world.add_entity(1, 0, 0, 10, 100);
    world.add_entity(2, 15, 0, 10, 100);
    world.add_entity(3, 5, 5, 10, 100);
    world.update_spatial_grid();
    assert_eq!(world.check_collisions(), vec![1, 2, 1, 3, 2, 3]);

    world.remove_entity(2);
    assert_eq!(world.get_entity_ids(), vec![1, 3]);
    world.update_spatial_grid();
    let pairs = world.check_collisions();
    assert_eq!(pairs, vec![1, 3]);
    assert!(!pairs.contains(&2));
}

#[test]
fn a_second_query_replaces_the_first_result() {
    let mut world = PhysicsWorld::new();
    world.add_entity(1, 0, 0, 10, 100);
    world.add_entity(2, 15, 0, 10, 100);
    world.update_spatial_grid();
    assert_eq!(world.check_collisions(), vec![1, 2]);
    assert_eq!(world.check_collisions(), vec![1, 2]);
    world.add_entity(2, 500, 0, 10, 100);
    world.update_spatial_grid();
    assert_eq!(world.check_collisions(), Vec::<u32>::new());
}

#[test]
fn negative_coordinates_fall_into_negative_cells() {
    let mut world = PhysicsWorld::new();
    world.add_entity(1, -1, -1, 2, 0);
    world.add_entity(2, 1, 1, 2, 0);
    world.add_entity(3, -399, -201, 3, 0);
    world.add_entity(4, -401, -199, 3, 0);
    world.update_spatial_grid();
    assert_eq!(world.check_collisions(), vec![1, 2, 3, 4]);
}

#[test]
fn extreme_positions_do_not_overflow() {
    let mut world = PhysicsWorld::new();
    world.add_entity(1, i32::MAX, i32::MAX, 100, 0);
    world.add_entity(2, i32::MAX - 150, i32::MAX, 100, 0);
    world.add_entity(3, i32::MIN, i32::MIN, 100, 0);
    world.add_entity(4, i32::MIN + 200, i32::MIN, 100, 0);
    world.update_spatial_grid();
    assert_eq!(world.check_collisions(), vec![1, 2]);
}

#[test]
fn an_entity_added_after_the_rebuild_is_found_only_after_the_next() {
    let mut world = PhysicsWorld::new();
    world.add_entity(1, 0, 0, 10, 100);
    world.add_entity(2, 15, 0, 10, 100);
    world.update_spatial_grid();
    world.add_entity(3, 5, 5, 10, 100);
    assert!(world.grid_in_range());
    assert_eq!(world.check_collisions(), vec![1, 2]);
    world.update_spatial_grid();
    assert_eq!(world.check_collisions(), vec![1, 2, 1, 3, 2, 3]);
}

#[test]
fn a_moved_entity_is_tested_where_it_stands_now() {
    let mut world = PhysicsWorld::new();
    world.add_entity(1, 0, 0, 10, 100);
    world.add_entity(2, 15, 0, 10, 100);
    world.update_spatial_grid();
    world.add_entity(2, 21, 0, 10, 100);
    assert_eq!(world.check_collisions(), Vec::<u32>::new());
}

#[test]
fn the_grid_falls_out_of_range_on_removal_and_back_on_rebuild() {
    let mut world = PhysicsWorld::new();
    assert!(world.grid_in_range());
    world.add_entity(1, 0, 0, 10, 100);
    world.add_entity(2, 15, 0, 10, 100);
    assert!(world.grid_in_range());
    world.update_spatial_grid();
    assert!(world.grid_in_range());
    world.remove_entity(2);
    assert!(!world.grid_in_range());
    world.add_entity(5, 1, 1, 1, 1);
    assert!(world.grid_in_range());
    world.remove_entity(5);
    world.update_spatial_grid();
    assert!(world.grid_in_range());
    assert_eq!(world.check_collisions(), Vec::<u32>::new());
    world.clear();
    assert!(world.grid_in_range());
}

#[test]
fn many_circles_agree_with_the_all_pairs_test() {
    let mut circles: Vec<(u32, i32, i32, u32)> = Vec::new();
    let mut seed: u64 = 12345;
    for id in 0..60u32 {
        seed = seed.wrapping_mul(6364136223846793005).wrapping_add(1442695040888963407);
        let x = ((seed >> 33) % 2000) as i32 - 1000;
        seed = seed.wrapping_mul(6364136223846793005).wrapping_add(1442695040888963407);
        let y = ((seed >> 33) % 2000) as i32 - 1000;
        seed = seed.wrapping_mul(6364136223846793005).wrapping_add(1442695040888963407);
        let r = ((seed >> 33) % 150) as u32;
        circles.push((id + 100, x, y, r));
    }
    let mut world = PhysicsWorld::new();
    for &(id, x, y, r) in &circles {
        world.add_entity(id, x, y, r, 0);
    }
    world.update_spatial_grid();
    let pairs = world.check_collisions();

    let mut expected: Vec<u32> = Vec::new();
    for i in 0..circles.len() {
        for j in (i + 1)..circles.len() {
            let (a, ax, ay, ar) = circles[i];
            let (b, bx, by, br) = circles[j];
            let dx = (ax - bx) as i64;
            let dy = (ay - by) as i64;
            let reach = (ar + br) as i64;
            if dx * dx + dy * dy < reach * reach {
                expected.push(a);
                expected.push(b);
            }
        }
    }
    assert!(!expected.is_empty());
    assert_eq!(pairs, expected);
}
