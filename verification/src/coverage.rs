use vstd::prelude::*;
use vstd::arithmetic::div_mod::lemma_fundamental_div_mod;
use crate::entity::{overlaps, Entity};
use crate::geometry::{cell_index, half_extent, in_block};

verus! {

/// The entity `e` reaches the cell `(cx, cy)` of a grid with the given
/// cell size.
pub open spec fn covers(e: Entity, cell_size: int, cx: int, cy: int) -> bool {
    in_block(
        cell_index(e.x as int, cell_size),
        cell_index(e.y as int, cell_size),
        half_extent(e.radius as int, cell_size),
        cx,
        cy,
    )
}

/// The positions below `upto` of the entities that reach the cell
/// `(cx, cy)`, in ascending order.
pub open spec fn covering(s: Seq<Entity>, cell_size: int, cx: int, cy: int, upto: int) -> Seq<
    usize,
>
    decreases upto,
{
    if upto <= 0 {
        Seq::empty()
    } else if covers(s[upto - 1], cell_size, cx, cy) {
        covering(s, cell_size, cx, cy, upto - 1).push((upto - 1) as usize)
    } else {
        covering(s, cell_size, cx, cy, upto - 1)
    }
}

/// What a cell holds after a rebuild is below `upto`, and is exactly the
/// positions of the entities that reach the cell.
pub proof fn lemma_covering_content(s: Seq<Entity>, cell_size: int, cx: int, cy: int, upto: int)
    requires
        0 <= upto <= s.len(),
        upto <= usize::MAX,
    ensures
        forall|k: int|
            0 <= k < covering(s, cell_size, cx, cy, upto).len() ==> (#[trigger] covering(
                s,
                cell_size,
                cx,
                cy,
                upto,
            )[k]) < upto,
        forall|j: int|
            0 <= j < upto && covers(#[trigger] s[j], cell_size, cx, cy) ==> covering(
                s,
                cell_size,
                cx,
                cy,
                upto,
            ).contains(j as usize),
    decreases upto,
{
    if upto > 0 {
        lemma_covering_content(s, cell_size, cx, cy, upto - 1);
        let prev = covering(s, cell_size, cx, cy, upto - 1);
        let now = covering(s, cell_size, cx, cy, upto);
        assert forall|j: int|
            0 <= j < upto && covers(#[trigger] s[j], cell_size, cx, cy) implies now.contains(
            j as usize,
        ) by {
            if j < upto - 1 {
                let k = choose|k: int| 0 <= k < prev.len() && prev[k] == j as usize;
                assert(now[k] == j as usize);
            } else {
                assert(now[now.len() - 1] == j as usize);
            }
        }
    }
}

/// The cells that a radius spans, laid side by side, are at least as long
/// as the radius.
pub proof fn lemma_extent_spans_radius(radius: int, cell_size: int)
    requires
        radius >= 0,
        cell_size > 0,
    ensures
        half_extent(radius, cell_size) >= 1,
        half_extent(radius, cell_size) * cell_size >= radius,
{
    lemma_fundamental_div_mod(radius, cell_size);
    let q = radius / cell_size;
    let m = radius % cell_size;
    let e = half_extent(radius, cell_size);
    assert(e * cell_size >= radius) by (nonlinear_arith)
        requires
            radius == cell_size * q + m,
            0 <= m < cell_size,
            e >= q,
            m != 0 ==> e >= q + 1,
    ;
}

/// Two points lie less than one cell further apart than their cells do.
pub proof fn lemma_cell_gap(xa: int, xb: int, cell_size: int)
    requires
        cell_size > 0,
    ensures
        (cell_index(xa, cell_size) - cell_index(xb, cell_size)) * cell_size < xa - xb + cell_size,
{
    lemma_fundamental_div_mod(xa, cell_size);
    lemma_fundamental_div_mod(xb, cell_size);
    let ca = xa / cell_size;
    let cb = xb / cell_size;
    let ma = xa % cell_size;
    let mb = xb % cell_size;
    assert((ca - cb) * cell_size < xa - xb + cell_size) by (nonlinear_arith)
        requires
            xa == cell_size * ca + ma,
            xb == cell_size * cb + mb,
            0 <= ma < cell_size,
            0 <= mb < cell_size,
    ;
}

/// Along one axis: when two centres are closer than the sum of the radii,
/// the cells queried around the first centre with twice its radius meet
/// the cells that the second circle was inserted into.
pub proof fn lemma_axis_meet(xa: int, ra: int, xb: int, rb: int, cell_size: int) -> (p: int)
    requires
        cell_size > 0,
        ra >= 0,
        rb >= 0,
        xa - xb < ra + rb,
        xb - xa < ra + rb,
    ensures
        cell_index(xa, cell_size) - half_extent(2 * ra, cell_size) <= p <= cell_index(
            xa,
            cell_size,
        ) + half_extent(2 * ra, cell_size),
        cell_index(xb, cell_size) - half_extent(rb, cell_size) <= p <= cell_index(xb, cell_size)
            + half_extent(rb, cell_size),
{
    let ca = cell_index(xa, cell_size);
    let cb = cell_index(xb, cell_size);
    let qa = half_extent(2 * ra, cell_size);
    let eb = half_extent(rb, cell_size);
    lemma_extent_spans_radius(2 * ra, cell_size);
    lemma_extent_spans_radius(rb, cell_size);
    lemma_cell_gap(xa, xb, cell_size);
    lemma_cell_gap(xb, xa, cell_size);
    assert(ca - cb <= qa + eb) by (nonlinear_arith)
        requires
            cell_size > 0,
            (ca - cb) * cell_size < xa - xb + cell_size,
            xa - xb < ra + rb,
            qa * cell_size >= 2 * ra,
            eb * cell_size >= rb,
            ra >= 0,
    ;
    assert(cb - ca <= qa + eb) by (nonlinear_arith)
        requires
            cell_size > 0,
            (cb - ca) * cell_size < xb - xa + cell_size,
            xb - xa < ra + rb,
            qa * cell_size >= 2 * ra,
            eb * cell_size >= rb,
            ra >= 0,
    ;
    if cb > ca + qa {
        ca + qa
    } else if cb < ca - qa {
        ca - qa
    } else {
        cb
    }
}

/// Overlapping circles are closer than the sum of their radii along each
/// axis.
pub proof fn lemma_overlap_bounds_axes(a: Entity, b: Entity)
    requires
        overlaps(a, b),
    ensures
        a.x - b.x < a.radius + b.radius,
        b.x - a.x < a.radius + b.radius,
        a.y - b.y < a.radius + b.radius,
        b.y - a.y < a.radius + b.radius,
{
    let dx = b.x - a.x;
    let dy = b.y - a.y;
    let reach = a.radius + b.radius;
    assert(-reach < dx < reach && -reach < dy < reach) by (nonlinear_arith)
        requires
            dx * dx + dy * dy < reach * reach,
            reach >= 0,
    ;
}

/// When two circles overlap, some cell lies both in the block queried
/// around the first with twice its radius and in the block that the second
/// was inserted into.
pub proof fn lemma_blocks_meet(a: Entity, b: Entity, cell_size: int) -> (cell: (int, int))
    requires
        cell_size > 0,
        overlaps(a, b),
    ensures
        in_block(
            cell_index(a.x as int, cell_size),
            cell_index(a.y as int, cell_size),
            half_extent(2 * a.radius, cell_size),
            cell.0,
            cell.1,
        ),
        covers(b, cell_size, cell.0, cell.1),
{
    lemma_overlap_bounds_axes(a, b);
    let px = lemma_axis_meet(a.x as int, a.radius as int, b.x as int, b.radius as int, cell_size);
    let py = lemma_axis_meet(a.y as int, a.radius as int, b.y as int, b.radius as int, cell_size);
    (px, py)
}

} // verus!
