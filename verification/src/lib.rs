//! Grid-accelerated collision detection for circles on an integer plane.
//!
//! Positions and radii are whole numbers of world units. A `PhysicsWorld`
//! stores circles by id, indexes them in a uniform grid that is rebuilt on
//! request, and reports every pair of overlapping circles once.

pub mod coverage;
pub mod entity;
pub mod geometry;
pub mod grid;
pub mod laws;
pub mod pairs;
pub mod settlement;
pub mod sorting;
pub mod world;

pub use entity::Entity;
pub use grid::SpatialGrid;
pub use world::PhysicsWorld;
