use wasm_physics::geometry::{cell_coord, extent_in_cells, integer_sqrt, squared_distance};
use wasm_physics::sorting::sort_dedup;
use wasm_physics::{Entity, PhysicsWorld, SpatialGrid};

#[test]
fn batch_distances_of_a_three_four_five_triangle() {
    assert_eq!(PhysicsWorld::batch_distances(&[0, 0, 3, 4]), vec![5]);
}

#[test]
fn batch_distances_drops_an_incomplete_group() {
    assert_eq!(PhysicsWorld::batch_distances(&[0, 0, 3, 4, 1, 1, 1]), vec![5]);
    assert_eq!(PhysicsWorld::batch_distances(&[0, 0, 3]), Vec::<u64>::new());
    assert_eq!(PhysicsWorld::batch_distances(&[]), Vec::<u64>::new());
    assert_eq!(
        PhysicsWorld::batch_distances(&[0, 0, 3, 4, -6, -8, 0, 0, 2, 2, 2, 2]),
        vec![5, 10, 0]
    );
}

#[test]
fn distance_rounds_down() {
    assert_eq!(PhysicsWorld::get_distance(0, 0, 3, 4), 5);
    assert_eq!(PhysicsWorld::get_distance(0, 0, 1, 1), 1);
    assert_eq!(PhysicsWorld::get_distance(0, 0, 2, 2), 2);
    assert_eq!(PhysicsWorld::get_distance(-7, 0, 7, 0), 14);
    assert_eq!(PhysicsWorld::get_distance(0, 0, 0, 1), 1);
}

#[test]
fn distance_is_zero_only_between_equal_points() {
    assert_eq!(PhysicsWorld::get_distance(9, -9, 9, -9), 0);
    assert_eq!(PhysicsWorld::get_distance(9, -9, 9, -8), 1);
    assert_eq!(PhysicsWorld::get_distance(9, -9, 10, -9), 1);
}

#[test]
fn distance_across_the_whole_plane() {
    assert_eq!(PhysicsWorld::get_distance(i32::MIN, 0, i32::MAX, 0), 4294967295);
    assert_eq!(
        PhysicsWorld::get_distance(i32::MIN, i32::MIN, i32::MAX, i32::MAX),
        6074000998
    );
}

#[test]
fn point_in_circle_excludes_the_boundary() {
    assert!(PhysicsWorld::point_in_circle(0, 0, 0, 0, 5));
    assert!(!PhysicsWorld::point_in_circle(5, 0, 0, 0, 5));
    assert!(PhysicsWorld::point_in_circle(4, 0, 0, 0, 5));
    assert!(!PhysicsWorld::point_in_circle(3, 4, 0, 0, 5));
    assert!(PhysicsWorld::point_in_circle(3, 3, 0, 0, 5));
    assert!(!PhysicsWorld::point_in_circle(0, 0, 0, 0, 0));
}

#[test]
fn integer_sqrt_of_squares_and_neighbours() {
    assert_eq!(integer_sqrt(0), 0);
    assert_eq!(integer_sqrt(1), 1);
    assert_eq!(integer_sqrt(3), 1);
    assert_eq!(integer_sqrt(4), 2);
    assert_eq!(integer_sqrt(24), 4);
    assert_eq!(integer_sqrt(25), 5);
    assert_eq!(integer_sqrt(26), 5);
    assert_eq!(integer_sqrt(u128::MAX), u64::MAX);
    assert_eq!(integer_sqrt(1u128 << 64), 1u64 << 32);
    assert_eq!(integer_sqrt((1u128 << 64) - 1), (1u64 << 32) - 1);
}

#[test]
fn squared_distance_is_exact() {
    assert_eq!(squared_distance(0, 0, 3, 4), 25);
    assert_eq!(squared_distance(-1, -1, 1, 1), 8);
    assert_eq!(
        squared_distance(i32::MIN, i32::MIN, i32::MAX, i32::MAX),
        2 * 4294967295u128 * 4294967295u128
    );
}

#[test]
fn cell_coord_rounds_towards_negative_infinity() {
    assert_eq!(cell_coord(0, 200), 0);
    assert_eq!(cell_coord(199, 200), 0);
    assert_eq!(cell_coord(200, 200), 1);
    assert_eq!(cell_coord(-1, 200), -1);
    assert_eq!(cell_coord(-200, 200), -1);
    assert_eq!(cell_coord(-201, 200), -2);
    assert_eq!(cell_coord(i32::MIN, 1), i32::MIN);
    assert_eq!(cell_coord(i32::MAX, 1), i32::MAX);
    assert_eq!(cell_coord(i32::MIN, u32::MAX), -1);
}

#[test]
fn extent_is_the_radius_in_cells_rounded_up_and_at_least_one() {
    assert_eq!(extent_in_cells(0, 200), 1);
    assert_eq!(extent_in_cells(1, 200), 1);
    assert_eq!(extent_in_cells(200, 200), 1);
    assert_eq!(extent_in_cells(201, 200), 2);
    assert_eq!(extent_in_cells(400, 200), 2);
    assert_eq!(extent_in_cells(401, 200), 3);
}

#[test]
fn grid_get_cell() {
    let grid = SpatialGrid::new(100);
    assert_eq!(grid.get_cell(50, 50), (0, 0));
    assert_eq!(grid.get_cell(-50, 250), (-1, 2));
}

#[test]
fn grid_query_is_sorted_and_without_repeats() {
    let mut grid = SpatialGrid::new(100);
    grid.insert(7, 50, 50, 250);
    grid.insert(3, 60, 60, 10);
    grid.insert(5, 1000, 1000, 10);
    grid.insert(3, 61, 61, 10);
    assert_eq!(grid.query_nearby(55, 55, 10), vec![3, 7]);
    assert_eq!(grid.query_nearby(1000, 1000, 10), vec![5]);
    assert_eq!(grid.query_nearby(-5000, -5000, 10), Vec::<usize>::new());
}

#[test]
fn grid_insert_reaches_the_block_of_cells_and_no_further() {
    let mut grid = SpatialGrid::new(100);
    grid.insert(0, 50, 50, 10);
    // the entity sits in cells -1..=1 on both axes
    assert_eq!(grid.query_nearby(250, 50, 10), vec![0]);
    assert_eq!(grid.query_nearby(350, 50, 10), Vec::<usize>::new());
    assert_eq!(grid.query_nearby(350, 50, 101), vec![0]);
    assert_eq!(grid.query_nearby(-150, -150, 100), vec![0]);
    assert_eq!(grid.query_nearby(-250, -150, 100), Vec::<usize>::new());
}

#[test]
fn grid_clear_empties_every_cell() {
    let mut grid = SpatialGrid::new(100);
    grid.insert(0, 50, 50, 10);
    grid.clear();
    assert_eq!(grid.query_nearby(50, 50, 10), Vec::<usize>::new());
}

#[test]
fn sort_dedup_orders_and_drops_repeats() {
    assert_eq!(sort_dedup(&vec![3, 1, 2, 3, 1, 0, 9, 9]), vec![0, 1, 2, 3, 9]);
    assert_eq!(sort_dedup(&vec![]), Vec::<usize>::new());
    assert_eq!(sort_dedup(&vec![4]), vec![4]);
    assert_eq!(sort_dedup(&vec![5, 5, 5]), vec![5]);
}

#[test]
fn overlap_is_strict() {
    let a = Entity::new(1, 0, 0, 10, 0);
    assert!(a.overlaps_with(&Entity::new(2, 15, 0, 10, 0)));
    assert!(!a.overlaps_with(&Entity::new(2, 20, 0, 10, 0)));
    assert!(a.overlaps_with(&Entity::new(2, 19, 0, 10, 0)));
    assert!(!a.overlaps_with(&Entity::new(2, 100, 0, 10, 0)));
    assert!(!a.overlaps_with(&Entity::new(2, 12, 16, 10, 0)));
    assert!(a.overlaps_with(&Entity::new(2, 12, 15, 10, 0)));
    // inside the per-axis box but outside the circle
    assert!(!a.overlaps_with(&Entity::new(2, 19, 19, 10, 0)));
    assert!(!Entity::new(1, 0, 0, 0, 0).overlaps_with(&Entity::new(2, 0, 0, 0, 0)));
}
