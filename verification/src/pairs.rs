use vstd::prelude::*;
use crate::entity::Entity;

verus! {

/// The pairs `(i, j)` with `0 <= j < upto` that `rel` relates, by
/// ascending `j`.
pub open spec fn row_hits(rel: spec_fn(int, int) -> bool, i: int, upto: int) -> Seq<(int, int)>
    decreases upto,
{
    if upto <= 0 {
        Seq::empty()
    } else if rel(i, upto - 1) {
        row_hits(rel, i, upto - 1).push((i, upto - 1))
    } else {
        row_hits(rel, i, upto - 1)
    }
}

/// The pairs `(i, j)` with `0 <= i < rows` and `0 <= j < n` that `rel`
/// relates, by ascending `i` and, for equal `i`, by ascending `j`.
pub open spec fn hits(rel: spec_fn(int, int) -> bool, n: int, rows: int) -> Seq<(int, int)>
    decreases rows,
{
    if rows <= 0 {
        Seq::empty()
    } else {
        hits(rel, n, rows - 1) + row_hits(rel, rows - 1, n)
    }
}

/// The ids of the entities that a sequence of index pairs names,
/// flattened: first id, second id, first id, second id, and so on.
pub open spec fn id_pairs(s: Seq<Entity>, ps: Seq<(int, int)>) -> Seq<u32> {
    Seq::new(
        2 * ps.len(),
        |k: int|
            if k % 2 == 0 {
                s[ps[k / 2].0].id
            } else {
                s[ps[k / 2].1].id
            },
    )
}

/// `p` comes before `q` when pairs are ordered by first component and then
/// by second component.
pub open spec fn pair_before(p: (int, int), q: (int, int)) -> bool {
    p.0 < q.0 || (p.0 == q.0 && p.1 < q.1)
}

/// Columns that `rel` does not relate to row `i` add nothing to the row.
pub proof fn lemma_row_hits_skip(rel: spec_fn(int, int) -> bool, i: int, lo: int, hi: int)
    requires
        lo <= hi,
        forall|j: int| lo <= j < hi ==> !#[trigger] rel(i, j),
    ensures
        row_hits(rel, i, hi) == row_hits(rel, i, lo),
    decreases hi - lo,
{
    if lo < hi {
        lemma_row_hits_skip(rel, i, lo, hi - 1);
        if hi <= 0 {
            assert(row_hits(rel, i, hi) == row_hits(rel, i, lo));
        }
    }
}

/// Appending one index pair appends its two ids.
pub proof fn lemma_id_pairs_push(s: Seq<Entity>, ps: Seq<(int, int)>, p: (int, int))
    ensures
        id_pairs(s, ps.push(p)) == id_pairs(s, ps).push(s[p.0].id).push(s[p.1].id),
{
    assert(id_pairs(s, ps.push(p)) =~= id_pairs(s, ps).push(s[p.0].id).push(s[p.1].id));
}

/// A row holds exactly the related pairs of that row, once each, by
/// ascending column.
pub proof fn lemma_row_hits_content(rel: spec_fn(int, int) -> bool, i: int, upto: int)
    ensures
        forall|k: int|
            0 <= k < row_hits(rel, i, upto).len() ==> {
                let p = #[trigger] row_hits(rel, i, upto)[k];
                p.0 == i && 0 <= p.1 < upto && rel(p.0, p.1)
            },
        forall|k: int, m: int|
            0 <= k < m < row_hits(rel, i, upto).len() ==> row_hits(rel, i, upto)[k].1 < row_hits(
                rel,
                i,
                upto,
            )[m].1,
        forall|j: int|
            0 <= j < upto && #[trigger] rel(i, j) ==> row_hits(rel, i, upto).contains((i, j)),
    decreases upto,
{
    if upto > 0 {
        lemma_row_hits_content(rel, i, upto - 1);
        let prev = row_hits(rel, i, upto - 1);
        let row = row_hits(rel, i, upto);
        assert forall|j: int| 0 <= j < upto && #[trigger] rel(i, j) implies row.contains((i, j)) by {
            if j < upto - 1 {
                let k = choose|k: int| 0 <= k < prev.len() && prev[k] == (i, j);
                assert(row[k] == (i, j));
            } else {
                assert(row[row.len() - 1] == (i, j));
            }
        }
    }
}

/// The enumeration holds exactly the related pairs, once each, in order.
pub proof fn lemma_hits_content(rel: spec_fn(int, int) -> bool, n: int, rows: int)
    ensures
        forall|k: int|
            0 <= k < hits(rel, n, rows).len() ==> {
                let p = #[trigger] hits(rel, n, rows)[k];
                0 <= p.0 < rows && 0 <= p.1 < n && rel(p.0, p.1)
            },
        forall|k: int, m: int|
            0 <= k < m < hits(rel, n, rows).len() ==> pair_before(
                hits(rel, n, rows)[k],
                hits(rel, n, rows)[m],
            ),
        forall|i: int, j: int|
            0 <= i < rows && 0 <= j < n && #[trigger] rel(i, j) ==> hits(rel, n, rows).contains(
                (i, j),
            ),
    decreases rows,
{
    if rows > 0 {
        lemma_hits_content(rel, n, rows - 1);
        lemma_row_hits_content(rel, rows - 1, n);
        let prev = hits(rel, n, rows - 1);
        let row = row_hits(rel, rows - 1, n);
        let all = hits(rel, n, rows);
        assert(all == prev + row);
        assert forall|k: int| 0 <= k < all.len() implies {
            let p = #[trigger] all[k];
            0 <= p.0 < rows && 0 <= p.1 < n && rel(p.0, p.1)
        } by {
            if k < prev.len() {
                assert(all[k] == prev[k]);
            } else {
                assert(all[k] == row[k - prev.len()]);
            }
        }
        assert forall|k: int, m: int| 0 <= k < m < all.len() implies pair_before(
            all[k],
            all[m],
        ) by {
            if m < prev.len() {
                assert(all[k] == prev[k] && all[m] == prev[m]);
            } else if k < prev.len() {
                assert(all[k] == prev[k] && all[m] == row[m - prev.len()]);
            } else {
                assert(all[k] == row[k - prev.len()] && all[m] == row[m - prev.len()]);
            }
        }
        assert forall|i: int, j: int|
            0 <= i < rows && 0 <= j < n && #[trigger] rel(i, j) implies all.contains(
            (i, j),
        ) by {
            if i < rows - 1 {
                let k = choose|k: int| 0 <= k < prev.len() && prev[k] == (i, j);
                assert(all[k] == (i, j));
            } else {
                let k = choose|k: int| 0 <= k < row.len() && row[k] == (i, j);
                assert(all[prev.len() + k] == (i, j));
            }
        }
    }
}

/// Relations that agree on every pair of `[0, rows) x [0, n)` have the
/// same enumeration.
pub proof fn lemma_hits_agree(
    r1: spec_fn(int, int) -> bool,
    r2: spec_fn(int, int) -> bool,
    n: int,
    rows: int,
)
    requires
        forall|i: int, j: int| 0 <= i < rows && 0 <= j < n ==> #[trigger] r1(i, j) == r2(i, j),
    ensures
        hits(r1, n, rows) == hits(r2, n, rows),
    decreases rows,
{
    if rows > 0 {
        lemma_hits_agree(r1, r2, n, rows - 1);
        lemma_row_hits_agree(r1, r2, rows - 1, n);
    }
}

/// Relations that agree on row `i` up to column `upto` give the same row.
pub proof fn lemma_row_hits_agree(
    r1: spec_fn(int, int) -> bool,
    r2: spec_fn(int, int) -> bool,
    i: int,
    upto: int,
)
    requires
        forall|j: int| 0 <= j < upto ==> #[trigger] r1(i, j) == r2(i, j),
    ensures
        row_hits(r1, i, upto) == row_hits(r2, i, upto),
    decreases upto,
{
    if upto > 0 {
        lemma_row_hits_agree(r1, r2, i, upto - 1);
    }
}

} // verus!
