use vstd::prelude::*;
use crate::coverage::{covering, lemma_blocks_meet, lemma_covering_content};
use crate::entity::{has_id, ids_of, overlaps, unique_ids, Entity};
use crate::geometry::{dist_sq, integer_sqrt, is_integer_sqrt, squared_distance};
use crate::grid::SpatialGrid;
use crate::pairs::{
    hits, id_pairs, lemma_hits_agree, lemma_id_pairs_push, lemma_row_hits_skip, row_hits,
};
use crate::sorting::strictly_increasing;

verus! {

/// What `find_nearest` returns when no entity qualifies.
pub const NOT_FOUND: i32 = -1;

/// The side length of the grid cells of a new world.
pub const DEFAULT_CELL_SIZE: u32 = 200;

/// The position of the entity with the given id.
pub open spec fn index_of_id(s: Seq<Entity>, id: u32) -> int {
    choose|k: int| 0 <= k < s.len() && (#[trigger] s[k]).id == id
}

/// The store after an upsert: an entity with the same id is overwritten
/// where it stands, and an entity with a new id is appended.
pub open spec fn upsert(s: Seq<Entity>, e: Entity) -> Seq<Entity> {
    if has_id(s, e.id) {
        s.update(index_of_id(s, e.id), e)
    } else {
        s.push(e)
    }
}

/// The predicate that keeps every entity but the one with the given id.
pub open spec fn other_than(id: u32) -> spec_fn(Entity) -> bool {
    |e: Entity| e.id != id
}

/// An id as `find_nearest` reports it: ids above `i32::MAX` wrap around
/// to negative numbers.
pub open spec fn id_as_signed(id: u32) -> int {
    if id <= 0x7fff_ffff {
        id as int
    } else {
        id - 0x1_0000_0000
    }
}

/// The squared distance from the entity at position `k` to `(x, y)`.
pub open spec fn apart(s: Seq<Entity>, x: int, y: int, k: int) -> int {
    dist_sq(s[k].x as int, s[k].y as int, x, y)
}

/// The entity at position `k` is the nearest to `(x, y)` among those whose
/// id is not `exclude`; among equally near ones it is the first.
pub open spec fn is_nearest(s: Seq<Entity>, x: int, y: int, exclude: u32, k: int) -> bool {
    &&& 0 <= k < s.len()
    &&& s[k].id != exclude
    &&& forall|m: int|
        0 <= m < s.len() && (#[trigger] s[m]).id != exclude ==> apart(s, x, y, k) <= apart(
            s,
            x,
            y,
            m,
        ) && (m < k ==> apart(s, x, y, k) < apart(s, x, y, m))
}

/// A collision query reports the pair `(i, j)`: `i` stands before `j`, the
/// grid returns `j` for a query around entity `i` with twice its radius,
/// and the two circles overlap.
pub open spec fn collide_at(s: Seq<Entity>, grid: SpatialGrid, i: int, j: int) -> bool {
    &&& 0 <= i < j < s.len()
    &&& grid.near(s[i].x as int, s[i].y as int, 2 * s[i].radius, j as usize)
    &&& overlaps(s[i], s[j])
}

/// `collide_at` as a relation on positions.
pub open spec fn collides(s: Seq<Entity>, grid: SpatialGrid) -> spec_fn(int, int) -> bool {
    |i: int, j: int| collide_at(s, grid, i, j)
}

/// Entity `i` stands before entity `j` and their circles overlap.
pub open spec fn overlap_at(s: Seq<Entity>, i: int, j: int) -> bool {
    0 <= i < j < s.len() && overlaps(s[i], s[j])
}

/// `overlap_at` as a relation on positions.
pub open spec fn overlapping(s: Seq<Entity>) -> spec_fn(int, int) -> bool {
    |i: int, j: int| overlap_at(s, i, j)
}

/// The ids of every overlapping pair of `s`, flattened, by ascending
/// position of the first entity and then of the second.
pub open spec fn overlapping_pairs(s: Seq<Entity>) -> Seq<u32> {
    id_pairs(s, hits(overlapping(s), s.len() as int, s.len() as int))
}

/// Converts an id to the signed number that `find_nearest` reports.
fn signed_id(id: u32) -> (signed: i32)
    ensures
        signed == id_as_signed(id),
{
    if id <= 0x7fff_ffff {
        id as i32
    } else {
        (id as i64 - 0x1_0000_0000) as i32
    }
}

/// A population of circles with a grid index over it.
pub struct PhysicsWorld {
    entities: Vec<Entity>,
    spatial_grid: SpatialGrid,
    collision_pairs: Vec<u32>,
    indexed: usize,
}

impl View for PhysicsWorld {
    type V = Seq<Entity>;

    /// The stored entities, in store order.
    closed spec fn view(&self) -> Seq<Entity> {
        self.entities@
    }
}

impl PhysicsWorld {
    /// The grid index.
    pub closed spec fn grid(&self) -> SpatialGrid {
        self.spatial_grid
    }

    /// The number of entities the grid was last rebuilt over.
    pub closed spec fn indexed(&self) -> int {
        self.indexed as int
    }

    /// The result of the latest collision query.
    pub closed spec fn last_pairs(&self) -> Seq<u32> {
        self.collision_pairs@
    }

    /// Ids are unique, the grid is well formed, and every index in the grid
    /// is below the entity count of the last rebuild.
    pub open spec fn wf(&self) -> bool {
        &&& unique_ids(self@)
        &&& self.grid().wf()
        &&& self.grid().indices_below(self.indexed())
    }

    /// With a current grid the candidates of a query include every
    /// overlapping neighbour, however large, so the query reports exactly
    /// the overlapping pairs.
    pub proof fn lemma_current_grid_misses_nothing(&self)
        requires
            self.wf(),
            self.grid_is_current(),
        ensures
            forall|i: int, j: int|
                #[trigger] collide_at(self@, self.grid(), i, j) <==> overlap_at(self@, i, j),
            self.colliding_pairs() == overlapping_pairs(self@),
    {
        let s = self@;
        let n = s.len() as int;
        let cell_size = self.grid().cell_size();
        assert(self.entities.len() == n);
        assert forall|i: int, j: int| overlap_at(s, i, j) implies #[trigger] collide_at(
            s,
            self.grid(),
            i,
            j,
        ) by {
            let cell = lemma_blocks_meet(s[i], s[j], cell_size);
            lemma_covering_content(s, cell_size, cell.0, cell.1, n);
            assert(self.grid().bucket(cell.0, cell.1).contains(j as usize));
        }
        lemma_hits_agree(collides(s, self.grid()), overlapping(s), n, n);
    }

    /// Creates an empty world.
    pub fn new() -> (world: PhysicsWorld)
        ensures
            world.wf(),
            world@ == Seq::<Entity>::empty(),
            world.grid().is_empty(),
            world.grid().cell_size() == DEFAULT_CELL_SIZE,
            world.indexed() == 0,
            world.last_pairs() == Seq::<u32>::empty(),
    {
        PhysicsWorld {
            entities: Vec::new(),
            spatial_grid: SpatialGrid::new(DEFAULT_CELL_SIZE),
            collision_pairs: Vec::new(),
            indexed: 0,
        }
    }

    /// Removes every entity and empties the grid.
    pub fn clear(&mut self)
        requires
            old(self).wf(),
        ensures
            final(self).wf(),
            final(self)@ == Seq::<Entity>::empty(),
            final(self).grid().is_empty(),
            final(self).grid().cell_size() == old(self).grid().cell_size(),
            final(self).indexed() == 0,
            final(self).last_pairs() == old(self).last_pairs(),
    {
        self.entities.clear();
        self.spatial_grid.clear();
        self.indexed = 0;
    }

    /// Returns the position of the entity with the given id, if there is one.
    fn position_of(&self, id: u32) -> (found: Option<usize>)
        ensures
            match found {
                Some(k) => k < self@.len() && self@[k as int].id == id,
                None => !has_id(self@, id),
            },
    {
        let mut k: usize = 0;
        while k < self.entities.len()
            invariant
                k <= self.entities.len(),
                forall|m: int| 0 <= m < k ==> (#[trigger] self.entities@[m]).id != id,
            decreases self.entities.len() - k,
        {
            if self.entities[k].id == id {
                return Some(k);
            }
            k += 1;
        }
        None
    }

    /// Inserts an entity, or overwrites the entity that has the same id.
    pub fn add_entity(&mut self, id: u32, x: i32, y: i32, radius: u32, mass: u32)
        requires
            old(self).wf(),
        ensures
            final(self).wf(),
            final(self)@ == upsert(old(self)@, Entity { id, x, y, radius, mass }),
            final(self).grid() == old(self).grid(),
            final(self).indexed() == old(self).indexed(),
            final(self).last_pairs() == old(self).last_pairs(),
    {
        let entity = Entity { id, x, y, radius, mass };
        match self.position_of(id) {
            Some(k) => {
                proof {
                    let c = index_of_id(self@, id);
                    assert(self@[k as int].id == id);
                    assert(c == k);
                }
                self.entities[k] = entity;
            },
            None => {
                self.entities.push(entity);
            },
        }
    }

    /// Removes the entity with the given id. Does nothing if there is none.
    pub fn remove_entity(&mut self, id: u32)
        requires
            old(self).wf(),
        ensures
            final(self).wf(),
            final(self)@ == old(self)@.filter(other_than(id)),
            !has_id(final(self)@, id),
            final(self).grid() == old(self).grid(),
            final(self).indexed() == old(self).indexed(),
            final(self).last_pairs() == old(self).last_pairs(),
    {
        let mut kept: Vec<Entity> = Vec::new();
        let ghost mut origin: Seq<int> = Seq::empty();
        let mut k: usize = 0;
        while k < self.entities.len()
            invariant
                k <= self.entities.len(),
                kept@ == self.entities@.take(k as int).filter(other_than(id)),
                origin.len() == kept.len(),
                forall|m: int|
                    0 <= m < kept.len() ==> 0 <= #[trigger] origin[m] < k && kept[m]
                        == self.entities@[origin[m]],
                forall|m: int| 0 <= m < kept.len() ==> (#[trigger] kept[m]).id != id,
                forall|m: int, n: int| 0 <= m < n < kept.len() ==> origin[m] < origin[n],
            decreases self.entities.len() - k,
        {
            broadcast use Seq::lemma_filter_push, Seq::lemma_take_succ_push;

            let entity = self.entities[k];
            if entity.id != id {
                kept.push(entity);
                proof {
                    origin = origin.push(k as int);
                }
            }
            k += 1;
        }
        assert(self.entities@.take(k as int) == self.entities@);
        assert forall|m: int, n: int| 0 <= m < n < kept.len() implies (#[trigger] kept@[m]).id != (
        #[trigger] kept@[n]).id by {
            assert(self.entities@[origin[m]].id != self.entities@[origin[n]].id);
        }
        self.entities = kept;
    }

    /// Returns the number of stored entities.
    pub fn get_entity_count(&self) -> (count: usize)
        ensures
            count == self@.len(),
    {
        self.entities.len()
    }

    /// Returns the ids of the stored entities, in store order.
    pub fn get_entity_ids(&self) -> (ids: Vec<u32>)
        ensures
            ids@ == ids_of(self@),
    {
        let mut ids: Vec<u32> = Vec::new();
        let mut k: usize = 0;
        while k < self.entities.len()
            invariant
                k <= self.entities.len(),
                ids.len() == k,
                forall|m: int| 0 <= m < k ==> ids[m] == self.entities@[m].id,
            decreases self.entities.len() - k,
        {
            ids.push(self.entities[k].id);
            k += 1;
        }
        assert(ids@ =~= ids_of(self@));
        ids
    }

    /// The grid holds, in every cell, exactly the positions of the stored
    /// entities that reach the cell, in ascending order.
    pub open spec fn grid_is_current(&self) -> bool {
        forall|cx: int, cy: int| #[trigger]
            self.grid().bucket(cx, cy) == covering(
                self@,
                self.grid().cell_size(),
                cx,
                cy,
                self@.len() as int,
            )
    }

    /// What a collision query returns for this store and this grid: the
    /// ids of every pair that `collides` relates, by ascending position of
    /// the first entity and then of the second.
    pub open spec fn colliding_pairs(&self) -> Seq<u32> {
        id_pairs(
            self@,
            hits(collides(self@, self.grid()), self@.len() as int, self@.len() as int),
        )
    }

    /// Tells whether the store still holds at least as many entities as
    /// the grid was last rebuilt over, which is what a collision query
    /// needs.
    pub fn grid_in_range(&self) -> (ok: bool)
        ensures
            ok == (self.indexed() <= self@.len()),
    {
        self.indexed <= self.entities.len()
    }

    /// Rebuilds the grid from the stored entities.
    pub fn update_spatial_grid(&mut self)
        requires
            old(self).wf(),
        ensures
            final(self).wf(),
            final(self)@ == old(self)@,
            final(self).grid().cell_size() == old(self).grid().cell_size(),
            final(self).grid_is_current(),
            final(self).indexed() == final(self)@.len(),
            final(self).last_pairs() == old(self).last_pairs(),
    {
        self.spatial_grid.clear();
        let ghost cell_size = self.spatial_grid.cell_size();
        let mut idx: usize = 0;
        while idx < self.entities.len()
            invariant
                idx <= self.entities.len(),
                self.entities@ == old(self).entities@,
                self.collision_pairs@ == old(self).collision_pairs@,
                self.spatial_grid.wf(),
                self.spatial_grid.cell_size() == cell_size,
                forall|cx: int, cy: int| #[trigger]
                    self.spatial_grid.bucket(cx, cy) == covering(
                        self.entities@,
                        cell_size,
                        cx,
                        cy,
                        idx as int,
                    ),
            decreases self.entities.len() - idx,
        {
            let entity = self.entities[idx];
            self.spatial_grid.insert(idx, entity.x, entity.y, entity.radius);
            idx += 1;
        }
        self.indexed = self.entities.len();
        assert forall|cx: int, cy: int, k: int|
            0 <= k < self.spatial_grid.bucket(cx, cy).len() implies (
        #[trigger] self.spatial_grid.bucket(cx, cy)[k]) < self.indexed by {
            lemma_covering_content(self.entities@, cell_size, cx, cy, idx as int);
        }
    }

    /// Finds the overlapping pairs among the candidates that the grid
    /// proposes and returns their ids as a flat list: first pair, second
    /// pair, and so on. The grid must not name positions beyond the end of
    /// the store, which holds whenever no entity was removed since the
    /// last rebuild.
    pub fn check_collisions(&mut self) -> (pairs: Vec<u32>)
        requires
            old(self).wf(),
            old(self).indexed() <= old(self)@.len(),
        ensures
            final(self).wf(),
            final(self)@ == old(self)@,
            final(self).grid() == old(self).grid(),
            final(self).indexed() == old(self).indexed(),
            pairs@ == old(self).colliding_pairs(),
            old(self).grid_is_current() ==> pairs@ == overlapping_pairs(old(self)@),
            final(self).last_pairs() == pairs@,
    {
        proof {
            if self.grid_is_current() {
                self.lemma_current_grid_misses_nothing();
            }
        }
        self.collision_pairs.clear();
        let n: usize = self.entities.len();
        let ghost s = self.entities@;
        let ghost rel = collides(s, self.spatial_grid);
        let ghost mut found: Seq<(int, int)> = Seq::empty();
        let mut i: usize = 0;
        while i < n
            invariant
                i <= n,
                n == s.len(),
                self.entities@ == s,
                self.spatial_grid == old(self).spatial_grid,
                self.indexed == old(self).indexed,
                self.indexed <= n,
                self.spatial_grid.wf(),
                self.spatial_grid.indices_below(self.indexed as int),
                rel == collides(s, self.spatial_grid),
                found == hits(rel, n as int, i as int),
                self.collision_pairs@ == id_pairs(s, found),
            decreases n - i,
        {
            let first = self.entities[i];
            let nearby = self.spatial_grid.query_within(
                first.x,
                first.y,
                2 * (first.radius as u64),
            );
            let ghost done = found;
            let ghost mut bound: int = 0;
            let mut k: usize = 0;
            while k < nearby.len()
                invariant
                    i < n,
                    n == s.len(),
                    k <= nearby.len(),
                    self.entities@ == s,
                    self.spatial_grid == old(self).spatial_grid,
                    self.indexed == old(self).indexed,
                    self.indexed <= n,
                    self.spatial_grid.wf(),
                    self.spatial_grid.indices_below(self.indexed as int),
                    rel == collides(s, self.spatial_grid),
                    first == s[i as int],
                    strictly_increasing(nearby@),
                    forall|idx: usize|
                        nearby@.contains(idx) <==> self.spatial_grid.near(
                            first.x as int,
                            first.y as int,
                            2 * first.radius,
                            idx,
                        ),
                    0 <= bound <= n,
                    forall|t: int| 0 <= t < k ==> nearby[t] < bound,
                    forall|t: int| k <= t < nearby.len() ==> nearby[t] >= bound,
                    done == hits(rel, n as int, i as int),
                    found == done + row_hits(rel, i as int, bound),
                    self.collision_pairs@ == id_pairs(s, found),
                decreases nearby.len() - k,
            {
                let j: usize = nearby[k];
                proof {
                    assert(nearby@.contains(j));
                    let (cx, cy) = choose|cx: int, cy: int|
                        self.spatial_grid.reaches(
                            first.x as int,
                            first.y as int,
                            2 * first.radius,
                            cx,
                            cy,
                        ) && (#[trigger] self.spatial_grid.bucket(cx, cy)).contains(j);
                    let w = choose|w: int|
                        0 <= w < self.spatial_grid.bucket(cx, cy).len() && self.spatial_grid.bucket(
                            cx,
                            cy,
                        )[w] == j;
                    assert(self.spatial_grid.bucket(cx, cy)[w] < self.indexed);
                    assert forall|c: int| bound <= c < j implies !#[trigger] rel(i as int, c) by {
                        if nearby@.contains(c as usize) {
                            let t = choose|t: int| 0 <= t < nearby.len() && nearby[t] == c as usize;
                            assert(false);
                        }
                    }
                    lemma_row_hits_skip(rel, i as int, bound, j as int);
                }
                if j > i {
                    let second = self.entities[j];
                    if first.overlaps_with(&second) {
                        self.collision_pairs.push(first.id);
                        self.collision_pairs.push(second.id);
                        proof {
                            lemma_id_pairs_push(s, found, (i as int, j as int));
                            found = found.push((i as int, j as int));
                        }
                    }
                }
                proof {
                    bound = j + 1;
                    assert(found =~= done + row_hits(rel, i as int, bound));
                }
                k += 1;
            }
            proof {
                assert forall|c: int| bound <= c < n implies !#[trigger] rel(i as int, c) by {
                    if nearby@.contains(c as usize) {
                        let t = choose|t: int| 0 <= t < nearby.len() && nearby[t] == c as usize;
                        assert(false);
                    }
                }
                lemma_row_hits_skip(rel, i as int, bound, n as int);
            }
            i += 1;
        }
        self.collision_pairs.clone()
    }

    /// Returns the distance between two points, rounded down to a whole
    /// number.
    pub fn get_distance(x1: i32, y1: i32, x2: i32, y2: i32) -> (d: u64)
        ensures
            is_integer_sqrt(dist_sq(x1 as int, y1 as int, x2 as int, y2 as int), d as int),
            d == 0 <==> (x1 == x2 && y1 == y2),
    {
        let apart_sq: u128 = squared_distance(x1, y1, x2, y2);
        let d: u64 = integer_sqrt(apart_sq);
        proof {
            let dx = x2 - x1;
            let dy = y2 - y1;
            assert(apart_sq == dx * dx + dy * dy);
            assert(dx * dx + dy * dy == 0 <==> (dx == 0 && dy == 0)) by (nonlinear_arith);
            assert(d == 0 <==> apart_sq == 0) by (nonlinear_arith)
                requires
                    0 <= d,
                    d * d <= apart_sq,
                    apart_sq < (d + 1) * (d + 1),
            ;
        }
        d
    }

    /// Reads `positions` as consecutive groups `x1, y1, x2, y2` and returns
    /// the distance of each group. Values after the last full group are
    /// ignored.
    pub fn batch_distances(positions: &[i32]) -> (distances: Vec<u64>)
        ensures
            distances.len() == positions@.len() / 4,
            forall|g: int|
                0 <= g < distances.len() ==> is_integer_sqrt(
                    dist_sq(
                        positions@[4 * g] as int,
                        positions@[4 * g + 1] as int,
                        positions@[4 * g + 2] as int,
                        positions@[4 * g + 3] as int,
                    ),
                    #[trigger] distances[g] as int,
                ),
    {
        let groups: usize = positions.len() / 4;
        let mut distances: Vec<u64> = Vec::with_capacity(groups);
        let mut g: usize = 0;
        while g < groups
            invariant
                g <= groups,
                groups == positions@.len() / 4,
                positions@.len() <= usize::MAX,
                distances.len() == g,
                forall|h: int|
                    0 <= h < g ==> is_integer_sqrt(
                        dist_sq(
                            positions@[4 * h] as int,
                            positions@[4 * h + 1] as int,
                            positions@[4 * h + 2] as int,
                            positions@[4 * h + 3] as int,
                        ),
                        #[trigger] distances[h] as int,
                    ),
            decreases groups - g,
        {
            assert(4 * g + 3 < positions@.len());
            let at: usize = 4 * g;
            let d: u64 = Self::get_distance(
                positions[at],
                positions[at + 1],
                positions[at + 2],
                positions[at + 3],
            );
            distances.push(d);
            g += 1;
        }
        distances
    }

    /// Decides whether the point `(px, py)` lies strictly inside the circle
    /// around `(cx, cy)` with the given radius.
    pub fn point_in_circle(px: i32, py: i32, cx: i32, cy: i32, radius: u32) -> (inside: bool)
        ensures
            inside == (dist_sq(px as int, py as int, cx as int, cy as int) < radius * radius),
    {
        let apart_sq: u128 = squared_distance(px, py, cx, cy);
        assert(radius as int * radius as int <= 0x1_0000_0000_0000_0000) by (nonlinear_arith)
            requires
                0 <= radius <= 0xffff_ffff,
        ;
        apart_sq < radius as u128 * radius as u128
    }

    /// Returns the id of the entity nearest to `(x, y)`, ignoring the
    /// entity with id `exclude_id`, or `NOT_FOUND` if no entity qualifies.
    /// Among equally near entities the first in store order wins.
    pub fn find_nearest(&self, x: i32, y: i32, exclude_id: u32) -> (nearest_id: i32)
        ensures
            (forall|k: int| 0 <= k < self@.len() ==> (#[trigger] self@[k]).id == exclude_id)
                ==> nearest_id == NOT_FOUND,
            (exists|k: int| 0 <= k < self@.len() && (#[trigger] self@[k]).id != exclude_id)
                ==> exists|k: int|
                is_nearest(self@, x as int, y as int, exclude_id, k) && nearest_id == id_as_signed(
                    self@[k].id,
                ),
    {
        let mut nearest_id: i32 = NOT_FOUND;
        let mut nearest_dist: u128 = u128::MAX;
        let ghost mut best: int = -1;
        let mut k: usize = 0;
        while k < self.entities.len()
            invariant
                k <= self.entities.len(),
                -1 <= best < k,
                best == -1 ==> nearest_id == NOT_FOUND && nearest_dist == u128::MAX && forall|
                    m: int,
                | 0 <= m < k ==> (#[trigger] self.entities@[m]).id == exclude_id,
                best >= 0 ==> {
                    &&& self.entities@[best].id != exclude_id
                    &&& nearest_id == id_as_signed(self.entities@[best].id)
                    &&& nearest_dist == apart(self.entities@, x as int, y as int, best)
                    &&& forall|m: int|
                        0 <= m < k && (#[trigger] self.entities@[m]).id != exclude_id ==> apart(
                            self.entities@,
                            x as int,
                            y as int,
                            best,
                        ) <= apart(self.entities@, x as int, y as int, m) && (m < best ==> apart(
                            self.entities@,
                            x as int,
                            y as int,
                            best,
                        ) < apart(self.entities@, x as int, y as int, m))
                },
            decreases self.entities.len() - k,
        {
            let entity = self.entities[k];
            if entity.id != exclude_id {
                let dist: u128 = squared_distance(entity.x, entity.y, x, y);
                if dist < nearest_dist {
                    nearest_dist = dist;
                    nearest_id = signed_id(entity.id);
                    proof {
                        best = k as int;
                    }
                }
            }
            k += 1;
        }
        proof {
            if best >= 0 {
                assert(is_nearest(self@, x as int, y as int, exclude_id, best));
            }
        }
        nearest_id
    }
}

} // verus!
