use vstd::prelude::*;
use crate::geometry::{dist_sq, squared_distance};

verus! {

/// A circle in the world: a unique id, an integer centre, a radius and a
/// mass. The mass is carried for the host and never read by the engine.
#[derive(Clone, Copy, Debug)]
pub struct Entity {
    pub id: u32,
    pub x: i32,
    pub y: i32,
    pub radius: u32,
    pub mass: u32,
}

/// Two circles overlap when their centres are closer than the sum of
/// their radii. Circles that merely touch do not overlap.
pub open spec fn overlaps(a: Entity, b: Entity) -> bool {
    dist_sq(a.x as int, a.y as int, b.x as int, b.y as int) < (a.radius + b.radius) * (a.radius
        + b.radius)
}

/// The ids of a sequence of entities, in the same order.
pub open spec fn ids_of(s: Seq<Entity>) -> Seq<u32> {
    s.map_values(|e: Entity| e.id)
}

/// Some entity of `s` has the given id.
pub open spec fn has_id(s: Seq<Entity>, id: u32) -> bool {
    exists|k: int| 0 <= k < s.len() && (#[trigger] s[k]).id == id
}

/// No two entities of `s` share an id.
pub open spec fn unique_ids(s: Seq<Entity>) -> bool {
    forall|i: int, j: int| 0 <= i < j < s.len() ==> (#[trigger] s[i]).id != (#[trigger] s[j]).id
}

impl Entity {
    pub fn new(id: u32, x: i32, y: i32, radius: u32, mass: u32) -> (e: Entity)
        ensures
            e == (Entity { id, x, y, radius, mass }),
    {
        Entity { id, x, y, radius, mass }
    }

    /// Decides whether two circles overlap. A cheap per-axis comparison
    /// against the sum of the radii rejects distant pairs before the exact
    /// squared-distance test.
    pub fn overlaps_with(&self, other: &Entity) -> (hit: bool)
        ensures
            hit == overlaps(*self, *other),
    {
        let dx: i64 = self.x as i64 - other.x as i64;
        let dy: i64 = self.y as i64 - other.y as i64;
        let dx_abs: u64 = if dx < 0 { (-dx) as u64 } else { dx as u64 };
        let dy_abs: u64 = if dy < 0 { (-dy) as u64 } else { dy as u64 };
        let radius_sum: u64 = self.radius as u64 + other.radius as u64;
        let ghost reach = radius_sum as int * radius_sum as int;
        let ghost apart = dist_sq(self.x as int, self.y as int, other.x as int, other.y as int);
        assert(apart == dx * dx + dy * dy) by (nonlinear_arith)
            requires
                apart == (other.x - self.x) * (other.x - self.x) + (other.y - self.y) * (other.y
                    - self.y),
                dx == self.x - other.x,
                dy == self.y - other.y,
        ;
        assert(dx * dx == dx_abs * dx_abs && dx * dx >= 0) by (nonlinear_arith)
            requires
                dx_abs == dx || dx_abs == -dx,
        ;
        assert(dy * dy == dy_abs * dy_abs && dy * dy >= 0) by (nonlinear_arith)
            requires
                dy_abs == dy || dy_abs == -dy,
        ;
        if dx_abs > radius_sum || dy_abs > radius_sum {
            assert(apart > reach) by (nonlinear_arith)
                requires
                    apart == dx_abs * dx_abs + dy_abs * dy_abs,
                    reach == radius_sum * radius_sum,
                    dx_abs > radius_sum || dy_abs > radius_sum,
                    0 <= dx_abs,
                    0 <= dy_abs,
                    0 <= radius_sum,
            ;
            return false;
        }
        let apart_sq: u128 = squared_distance(self.x, self.y, other.x, other.y);
        assert(radius_sum as int * radius_sum as int <= 0x4_0000_0000_0000_0000)
            by (nonlinear_arith)
            requires
                0 <= radius_sum <= 0x2_0000_0000,
        ;
        let reach_sq: u128 = radius_sum as u128 * radius_sum as u128;
        apart_sq < reach_sq
    }
}

} // verus!
