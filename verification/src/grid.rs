use std::collections::HashMap;
use vstd::prelude::*;
use vstd::std_specs::hash::group_hash_axioms;
use crate::geometry::{cell_coord, cell_index, extent_in_cells, half_extent, in_block};
use crate::sorting::{sort_dedup, strictly_increasing};

verus! {

/// Added to a cell coordinate to make it non-negative inside a key.
pub const KEY_OFFSET: i128 = 0x8000_0000_0000_0000;

/// The number of distinct coordinates that one half of a key can hold.
pub const KEY_SPAN: u128 = 0x1_0000_0000_0000_0000;

/// The largest radius a query may use: twice the largest entity radius.
pub const MAX_QUERY_RADIUS: u64 = 0x1_ffff_fffe;

/// A cell coordinate that a key can hold.
pub open spec fn keyable(c: int) -> bool {
    -0x8000_0000_0000_0000 <= c < 0x8000_0000_0000_0000
}

/// The packed key of the cell `(cx, cy)`: both coordinates are shifted to
/// be non-negative and placed side by side.
pub open spec fn cell_key(cx: int, cy: int) -> int {
    (cx + 0x8000_0000_0000_0000) * 0x1_0000_0000_0000_0000 + (cy + 0x8000_0000_0000_0000)
}

/// Distinct cells have distinct keys.
pub proof fn lemma_cell_key_injective(ax: int, ay: int, bx: int, by: int)
    requires
        keyable(ax),
        keyable(ay),
        keyable(bx),
        keyable(by),
        cell_key(ax, ay) == cell_key(bx, by),
    ensures
        ax == bx,
        ay == by,
{
}

fn key_of(cx: i64, cy: i64) -> (key: u128)
    ensures
        key == cell_key(cx as int, cy as int),
{
    let a: u128 = (cx as i128 + KEY_OFFSET) as u128;
    let b: u128 = (cy as i128 + KEY_OFFSET) as u128;
    a * KEY_SPAN + b
}

/// A uniform grid over the plane. Each cell lists the indices that were
/// inserted into it, in insertion order.
pub struct SpatialGrid {
    cell_size: u32,
    cells: HashMap<u128, Vec<usize>>,
}

impl SpatialGrid {
    /// The side length of a cell.
    pub closed spec fn cell_size(&self) -> int {
        self.cell_size as int
    }

    /// The cell size is positive.
    pub open spec fn wf(&self) -> bool {
        self.cell_size() > 0
    }

    /// The indices stored in the cell `(cx, cy)`, in insertion order. A
    /// cell that was never touched holds nothing.
    pub closed spec fn bucket(&self, cx: int, cy: int) -> Seq<usize> {
        if keyable(cx) && keyable(cy) && self.cells@.contains_key(cell_key(cx, cy) as u128) {
            self.cells@[cell_key(cx, cy) as u128]@
        } else {
            Seq::empty()
        }
    }

    /// No cell holds anything.
    pub open spec fn is_empty(&self) -> bool {
        forall|cx: int, cy: int| #[trigger] self.bucket(cx, cy) == Seq::<usize>::empty()
    }

    /// Every stored index is smaller than `n`.
    pub open spec fn indices_below(&self, n: int) -> bool {
        forall|cx: int, cy: int, k: int|
            0 <= k < self.bucket(cx, cy).len() ==> (#[trigger] self.bucket(cx, cy)[k]) < n
    }

    /// The block of cells that a circle at `(x, y)` with the given radius
    /// reaches contains the cell `(cx, cy)`.
    pub open spec fn reaches(&self, x: int, y: int, radius: int, cx: int, cy: int) -> bool {
        in_block(
            cell_index(x, self.cell_size()),
            cell_index(y, self.cell_size()),
            half_extent(radius, self.cell_size()),
            cx,
            cy,
        )
    }

    /// Some cell that a circle at `(x, y)` with the given radius reaches
    /// holds `idx`.
    pub open spec fn near(&self, x: int, y: int, radius: int, idx: usize) -> bool {
        exists|cx: int, cy: int|
            self.reaches(x, y, radius, cx, cy) && (#[trigger] self.bucket(cx, cy)).contains(idx)
    }

    /// Creates an empty grid with the given cell size.
    pub fn new(cell_size: u32) -> (grid: SpatialGrid)
        requires
            cell_size > 0,
        ensures
            grid.wf(),
            grid.cell_size() == cell_size,
            grid.is_empty(),
    {
        SpatialGrid { cell_size, cells: HashMap::new() }
    }

    /// Empties every cell.
    pub fn clear(&mut self)
        ensures
            final(self).cell_size() == old(self).cell_size(),
            final(self).wf() == old(self).wf(),
            final(self).is_empty(),
    {
        self.cells.clear();
    }

    /// Returns the cell that contains the point `(x, y)`.
    pub fn get_cell(&self, x: i32, y: i32) -> (cell: (i32, i32))
        requires
            self.wf(),
        ensures
            cell.0 == cell_index(x as int, self.cell_size()),
            cell.1 == cell_index(y as int, self.cell_size()),
    {
        (cell_coord(x, self.cell_size), cell_coord(y, self.cell_size))
    }

    /// Appends `idx` to one cell.
    fn push_into(&mut self, cx: i64, cy: i64, idx: usize)
        ensures
            final(self).cell_size() == old(self).cell_size(),
            final(self).bucket(cx as int, cy as int) == old(self).bucket(cx as int, cy as int).push(
                idx,
            ),
            forall|px: int, py: int|
                !(px == cx && py == cy) ==> #[trigger] final(self).bucket(px, py) == old(
                    self,
                ).bucket(px, py),
    {
        broadcast use group_hash_axioms;

        let key: u128 = key_of(cx, cy);
        let mut items: Vec<usize> = match self.cells.remove(&key) {
            Some(found) => found,
            None => Vec::new(),
        };
        items.push(idx);
        self.cells.insert(key, items);
        assert forall|px: int, py: int| !(px == cx && py == cy) implies #[trigger] self.bucket(
            px,
            py,
        ) == old(self).bucket(px, py) by {
            if keyable(px) && keyable(py) {
                if cell_key(px, py) == cell_key(cx as int, cy as int) {
                    lemma_cell_key_injective(px, py, cx as int, cy as int);
                }
            }
        }
    }

    /// Appends `idx` to every cell of the block of half-width `extent`
    /// around `(cx, cy)`.
    fn insert_block(&mut self, idx: usize, cx: i64, cy: i64, extent: i64)
        requires
            -0x1_0000_0000 <= cx <= 0x1_0000_0000,
            -0x1_0000_0000 <= cy <= 0x1_0000_0000,
            0 <= extent <= 0x4_0000_0000,
        ensures
            final(self).cell_size() == old(self).cell_size(),
            forall|px: int, py: int|
                #[trigger] final(self).bucket(px, py) == if in_block(
                    cx as int,
                    cy as int,
                    extent as int,
                    px,
                    py,
                ) {
                    old(self).bucket(px, py).push(idx)
                } else {
                    old(self).bucket(px, py)
                },
    {
        let ghost before = *self;
        let mut a: i64 = cx - extent;
        while a <= cx + extent
            invariant
                -0x1_0000_0000 <= cx <= 0x1_0000_0000,
                -0x1_0000_0000 <= cy <= 0x1_0000_0000,
                0 <= extent <= 0x4_0000_0000,
                cx - extent <= a <= cx + extent + 1,
                self.cell_size() == before.cell_size(),
                forall|px: int, py: int|
                    #[trigger] self.bucket(px, py) == if cx - extent <= px < a && cy - extent <= py
                        <= cy + extent {
                        before.bucket(px, py).push(idx)
                    } else {
                        before.bucket(px, py)
                    },
            decreases cx + extent + 1 - a,
        {
            let mut b: i64 = cy - extent;
            while b <= cy + extent
                invariant
                    -0x1_0000_0000 <= cx <= 0x1_0000_0000,
                    -0x1_0000_0000 <= cy <= 0x1_0000_0000,
                    0 <= extent <= 0x4_0000_0000,
                    cx - extent <= a <= cx + extent,
                    cy - extent <= b <= cy + extent + 1,
                    self.cell_size() == before.cell_size(),
                    forall|px: int, py: int|
                        #[trigger] self.bucket(px, py) == if (cx - extent <= px < a && cy - extent
                            <= py <= cy + extent) || (px == a && cy - extent <= py < b) {
                            before.bucket(px, py).push(idx)
                        } else {
                            before.bucket(px, py)
                        },
                decreases cy + extent + 1 - b,
            {
                self.push_into(a, b, idx);
                b += 1;
            }
            a += 1;
        }
    }

    /// Inserts `entity_idx` into every cell that a circle at `(x, y)` with
    /// the given radius reaches.
    pub fn insert(&mut self, entity_idx: usize, x: i32, y: i32, radius: u32)
        requires
            old(self).wf(),
        ensures
            final(self).wf(),
            final(self).cell_size() == old(self).cell_size(),
            forall|cx: int, cy: int|
                #[trigger] final(self).bucket(cx, cy) == if old(self).reaches(
                    x as int,
                    y as int,
                    radius as int,
                    cx,
                    cy,
                ) {
                    old(self).bucket(cx, cy).push(entity_idx)
                } else {
                    old(self).bucket(cx, cy)
                },
    {
        let (cx, cy) = self.get_cell(x, y);
        let extent: u64 = extent_in_cells(radius as u64, self.cell_size);
        self.insert_block(entity_idx, cx as i64, cy as i64, extent as i64);
    }

    /// Collects what the cells of a block hold, cell after cell.
    fn collect_block(&self, cx: i64, cy: i64, extent: i64) -> (found: Vec<usize>)
        requires
            -0x1_0000_0000 <= cx <= 0x1_0000_0000,
            -0x1_0000_0000 <= cy <= 0x1_0000_0000,
            0 <= extent <= 0x4_0000_0000,
        ensures
            forall|idx: usize|
                found@.contains(idx) <==> exists|px: int, py: int|
                    in_block(cx as int, cy as int, extent as int, px, py) && (
                    #[trigger] self.bucket(px, py)).contains(idx),
    {
        broadcast use group_hash_axioms;

        let mut found: Vec<usize> = Vec::new();
        let ghost mut source: Seq<(int, int)> = Seq::empty();
        let mut a: i64 = cx - extent;
        while a <= cx + extent
            invariant
                -0x1_0000_0000 <= cx <= 0x1_0000_0000,
                -0x1_0000_0000 <= cy <= 0x1_0000_0000,
                0 <= extent <= 0x4_0000_0000,
                cx - extent <= a <= cx + extent + 1,
                source.len() == found.len(),
                forall|k: int|
                    0 <= k < found.len() ==> in_block(
                        cx as int,
                        cy as int,
                        extent as int,
                        (#[trigger] source[k]).0,
                        source[k].1,
                    ) && self.bucket(source[k].0, source[k].1).contains(found[k]),
                forall|px: int, py: int, t: int|
                    cx - extent <= px < a && cy - extent <= py <= cy + extent && 0 <= t
                        < self.bucket(px, py).len() ==> found@.contains(
                        #[trigger] self.bucket(px, py)[t],
                    ),
            decreases cx + extent + 1 - a,
        {
            let mut b: i64 = cy - extent;
            while b <= cy + extent
                invariant
                    -0x1_0000_0000 <= cx <= 0x1_0000_0000,
                    -0x1_0000_0000 <= cy <= 0x1_0000_0000,
                    0 <= extent <= 0x4_0000_0000,
                    cx - extent <= a <= cx + extent,
                    cy - extent <= b <= cy + extent + 1,
                    source.len() == found.len(),
                    forall|k: int|
                        0 <= k < found.len() ==> in_block(
                            cx as int,
                            cy as int,
                            extent as int,
                            (#[trigger] source[k]).0,
                            source[k].1,
                        ) && self.bucket(source[k].0, source[k].1).contains(found[k]),
                    forall|px: int, py: int, t: int|
                        ((cx - extent <= px < a && cy - extent <= py <= cy + extent) || (px == a
                            && cy - extent <= py < b)) && 0 <= t < self.bucket(px, py).len()
                            ==> found@.contains(#[trigger] self.bucket(px, py)[t]),
                decreases cy + extent + 1 - b,
            {
                let key: u128 = key_of(a, b);
                let ghost before = found@;
                match self.cells.get(&key) {
                    Some(items) => {
                        assert(items@ == self.bucket(a as int, b as int));
                        found.extend_from_slice(items.as_slice());
                        assert(found@ =~= before + items@);
                    },
                    None => {
                        assert(self.bucket(a as int, b as int) == Seq::<usize>::empty());
                    },
                }
                proof {
                    let here = self.bucket(a as int, b as int);
                    assert(found@ == before + here);
                    source = source + Seq::new(here.len(), |k: int| (a as int, b as int));
                    assert forall|k: int| 0 <= k < found.len() implies in_block(
                        cx as int,
                        cy as int,
                        extent as int,
                        (#[trigger] source[k]).0,
                        source[k].1,
                    ) && self.bucket(source[k].0, source[k].1).contains(found[k]) by {
                        if k >= before.len() {
                            assert(found[k] == here[k - before.len()]);
                        }
                    }
                    assert forall|px: int, py: int, t: int|
                        ((cx - extent <= px < a && cy - extent <= py <= cy + extent) || (px == a
                            && cy - extent <= py < b + 1)) && 0 <= t < self.bucket(
                            px,
                            py,
                        ).len() implies found@.contains(#[trigger] self.bucket(px, py)[t]) by {
                        if px == a && py == b {
                            assert(found@[before.len() + t] == here[t]);
                        } else {
                            let v = self.bucket(px, py)[t];
                            assert(before.contains(v));
                            let w = choose|w: int| 0 <= w < before.len() && before[w] == v;
                            assert(found@[w] == v);
                        }
                    }
                }
                b += 1;
            }
            a += 1;
        }
        assert forall|idx: usize| found@.contains(idx) implies exists|px: int, py: int|
            in_block(cx as int, cy as int, extent as int, px, py) && (#[trigger] self.bucket(
                px,
                py,
            )).contains(idx) by {
            let k = choose|k: int| 0 <= k < found.len() && found[k] == idx;
            assert(self.bucket(source[k].0, source[k].1).contains(idx));
        }
        assert forall|idx: usize|
            (exists|px: int, py: int|
                in_block(cx as int, cy as int, extent as int, px, py) && (#[trigger] self.bucket(
                    px,
                    py,
                )).contains(idx)) implies found@.contains(idx) by {
            let (px, py) = choose|px: int, py: int|
                in_block(cx as int, cy as int, extent as int, px, py) && (#[trigger] self.bucket(
                    px,
                    py,
                )).contains(idx);
            let t = choose|t: int| 0 <= t < self.bucket(px, py).len() && self.bucket(px, py)[t]
                == idx;
            assert(found@.contains(self.bucket(px, py)[t]));
        }
        found
    }

    /// Returns, in ascending order and without repeats, the indices held
    /// by the cells that a circle at `(x, y)` with the given radius
    /// reaches.
    pub(crate) fn query_within(&self, x: i32, y: i32, radius: u64) -> (nearby: Vec<usize>)
        requires
            self.wf(),
            radius <= MAX_QUERY_RADIUS,
        ensures
            strictly_increasing(nearby@),
            forall|idx: usize|
                nearby@.contains(idx) <==> self.near(x as int, y as int, radius as int, idx),
    {
        let (cx, cy) = self.get_cell(x, y);
        let extent: u64 = extent_in_cells(radius, self.cell_size);
        let found = self.collect_block(cx as i64, cy as i64, extent as i64);
        sort_dedup(&found)
    }

    /// Returns, in ascending order and without repeats, the indices held
    /// by the cells that a circle at `(x, y)` with the given radius
    /// reaches.
    pub fn query_nearby(&self, x: i32, y: i32, radius: u32) -> (nearby: Vec<usize>)
        requires
            self.wf(),
        ensures
            strictly_increasing(nearby@),
            forall|idx: usize|
                nearby@.contains(idx) <==> self.near(x as int, y as int, radius as int, idx),
    {
        self.query_within(x, y, radius as u64)
    }
}

} // verus!
