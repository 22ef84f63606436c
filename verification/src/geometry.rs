use vstd::prelude::*;
use vstd::arithmetic::div_mod::lemma_fundamental_div_mod;
use vstd::arithmetic::div_mod::lemma_fundamental_div_mod_converse;

verus! {

/// Squared Euclidean distance between two points.
pub open spec fn dist_sq(x1: int, y1: int, x2: int, y2: int) -> int {
    (x2 - x1) * (x2 - x1) + (y2 - y1) * (y2 - y1)
}

/// `r` is the integer square root of `n`: the largest integer whose square
/// does not exceed `n`.
pub open spec fn is_integer_sqrt(n: int, r: int) -> bool {
    0 <= r && r * r <= n && n < (r + 1) * (r + 1)
}

/// The grid coordinate of `v` along one axis: `v / cell_size` rounded
/// towards negative infinity.
pub open spec fn cell_index(v: int, cell_size: int) -> int {
    v / cell_size
}

/// `radius / cell_size` rounded up.
pub open spec fn cells_spanned(radius: int, cell_size: int) -> int {
    if radius % cell_size == 0 {
        radius / cell_size
    } else {
        radius / cell_size + 1
    }
}

/// The number of cells a circle of the given radius reaches on each side
/// of its centre cell: the radius in cells, rounded up, and never less
/// than one.
pub open spec fn half_extent(radius: int, cell_size: int) -> int {
    if cells_spanned(radius, cell_size) < 1 {
        1
    } else {
        cells_spanned(radius, cell_size)
    }
}

/// The cell `(cx, cy)` lies in the square block of half-width `extent`
/// centred on the cell `(centre_x, centre_y)`.
pub open spec fn in_block(centre_x: int, centre_y: int, extent: int, cx: int, cy: int) -> bool {
    &&& centre_x - extent <= cx <= centre_x + extent
    &&& centre_y - extent <= cy <= centre_y + extent
}

/// The integer square root is unique.
pub proof fn lemma_integer_sqrt_unique(n: int, r1: int, r2: int)
    requires
        is_integer_sqrt(n, r1),
        is_integer_sqrt(n, r2),
    ensures
        r1 == r2,
{
    if r1 < r2 {
        assert((r1 + 1) * (r1 + 1) <= r2 * r2) by (nonlinear_arith)
            requires
                0 <= r1 + 1 <= r2,
        ;
    }
    if r2 < r1 {
        assert((r2 + 1) * (r2 + 1) <= r1 * r1) by (nonlinear_arith)
            requires
                0 <= r2 + 1 <= r1,
        ;
    }
}

/// Computes the squared distance between two points without overflow.
pub fn squared_distance(x1: i32, y1: i32, x2: i32, y2: i32) -> (d: u128)
    ensures
        d == dist_sq(x1 as int, y1 as int, x2 as int, y2 as int),
        d <= 0x2_0000_0000_0000_0000,
{
    let dx: i128 = x2 as i128 - x1 as i128;
    let dy: i128 = y2 as i128 - y1 as i128;
    assert(0 <= dx * dx <= 0x1_0000_0000_0000_0000) by (nonlinear_arith)
        requires
            -0x1_0000_0000 <= dx <= 0x1_0000_0000,
    ;
    assert(0 <= dy * dy <= 0x1_0000_0000_0000_0000) by (nonlinear_arith)
        requires
            -0x1_0000_0000 <= dy <= 0x1_0000_0000,
    ;
    let sum: i128 = dx * dx + dy * dy;
    sum as u128
}

/// Computes the integer square root by bisection.
pub fn integer_sqrt(n: u128) -> (r: u64)
    ensures
        is_integer_sqrt(n as int, r as int),
{
    let mut lo: u128 = 0;
    let mut hi: u128 = 0x1_0000_0000_0000_0000;
    assert(n < hi * hi) by (nonlinear_arith)
        requires
            n <= u128::MAX,
            hi == 0x1_0000_0000_0000_0000,
    ;
    while hi - lo > 1
        invariant
            lo < hi <= 0x1_0000_0000_0000_0000,
            lo * lo <= n,
            n < hi * hi,
        decreases hi - lo,
    {
        let mid: u128 = lo + (hi - lo) / 2;
        assert(mid * mid <= u128::MAX) by (nonlinear_arith)
            requires
                0 <= mid < 0x1_0000_0000_0000_0000,
        ;
        if mid * mid <= n {
            lo = mid;
        } else {
            hi = mid;
        }
    }
    lo as u64
}

/// Computes the grid coordinate of `v` along one axis.
pub fn cell_coord(v: i32, cell_size: u32) -> (c: i32)
    requires
        cell_size > 0,
    ensures
        c == cell_index(v as int, cell_size as int),
{
    let size: i64 = cell_size as i64;
    if v >= 0 {
        let q: i64 = v as i64 / size;
        proof {
            lemma_fundamental_div_mod(v as int, size as int);
            assert(0 <= q <= v) by (nonlinear_arith)
                requires
                    v as int == size * q + (v as int % size as int),
                    0 <= (v as int % size as int) < size,
                    0 <= v,
                    size > 0,
            ;
        }
        q as i32
    } else {
        let m: i64 = -(v as i64) - 1;
        let q: i64 = m / size;
        proof {
            let r = m as int % size as int;
            lemma_fundamental_div_mod(m as int, size as int);
            assert(0 <= q <= m) by (nonlinear_arith)
                requires
                    m as int == size * q + r,
                    0 <= r < size,
                    0 <= m,
                    size > 0,
            ;
            assert(v as int == (-q - 1) * size + (size - 1 - r)) by (nonlinear_arith)
                requires
                    m as int == size * q + r,
                    m == -(v as int) - 1,
            ;
            lemma_fundamental_div_mod_converse(v as int, size as int, -q - 1, size - 1 - r);
        }
        (-q - 1) as i32
    }
}

/// Computes how many cells a circle of the given radius reaches on each
/// side of its centre cell.
pub fn extent_in_cells(radius: u64, cell_size: u32) -> (e: u64)
    requires
        cell_size > 0,
    ensures
        e == half_extent(radius as int, cell_size as int),
        1 <= e,
        e <= radius || e == 1,
{
    let size: u64 = cell_size as u64;
    let q: u64 = radius / size;
    let whole: bool = radius % size == 0;
    proof {
        lemma_fundamental_div_mod(radius as int, size as int);
        assert(q <= radius && (radius as int % size as int != 0 ==> q < radius))
            by (nonlinear_arith)
            requires
                radius as int == size * q + (radius as int % size as int),
                0 <= (radius as int % size as int) < size,
                size > 0,
                q >= 0,
        ;
    }
    let cells: u64 = if whole { q } else { q + 1 };
    if cells < 1 {
        1
    } else {
        cells
    }
}

} // verus!
