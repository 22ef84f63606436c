use vstd::prelude::*;
use vstd::seq_lib::lemma_seq_contains_after_push;

verus! {

/// Every element is smaller than all elements after it.
pub open spec fn strictly_increasing(s: Seq<usize>) -> bool {
    forall|i: int, j: int| 0 <= i < j < s.len() ==> s[i] < s[j]
}

/// Two strictly increasing sequences with the same elements are the same
/// sequence.
pub proof fn lemma_strictly_increasing_unique(a: Seq<usize>, b: Seq<usize>)
    requires
        strictly_increasing(a),
        strictly_increasing(b),
        forall|v: usize| a.contains(v) <==> b.contains(v),
    ensures
        a == b,
    decreases a.len(),
{
    if a.len() == 0 {
        if b.len() > 0 {
            assert(b.contains(b[0]));
        }
        assert(a =~= b);
    } else if b.len() == 0 {
        assert(a.contains(a[0]));
    } else {
        let la = a.last();
        let lb = b.last();
        assert(a.contains(la));
        assert(b.contains(lb));
        let ia = choose|i: int| 0 <= i < b.len() && b[i] == la;
        let ib = choose|i: int| 0 <= i < a.len() && a[i] == lb;
        assert(la == lb);
        let a0 = a.drop_last();
        let b0 = b.drop_last();
        assert forall|v: usize| a0.contains(v) <==> b0.contains(v) by {
            if a0.contains(v) {
                let i = choose|i: int| 0 <= i < a0.len() && a0[i] == v;
                assert(a[i] == v);
                assert(a.contains(v));
                let j = choose|j: int| 0 <= j < b.len() && b[j] == v;
                assert(b0[j] == v);
            }
            if b0.contains(v) {
                let i = choose|i: int| 0 <= i < b0.len() && b0[i] == v;
                assert(b[i] == v);
                assert(b.contains(v));
                let j = choose|j: int| 0 <= j < a.len() && a[j] == v;
                assert(a0[j] == v);
            }
        }
        lemma_strictly_increasing_unique(a0, b0);
        assert(a =~= a0.push(la));
        assert(b =~= b0.push(lb));
    }
}

/// Merges two strictly increasing vectors into the strictly increasing
/// vector of their union.
fn merge_unique(a: &Vec<usize>, b: &Vec<usize>) -> (out: Vec<usize>)
    requires
        strictly_increasing(a@),
        strictly_increasing(b@),
    ensures
        strictly_increasing(out@),
        forall|v: usize| out@.contains(v) <==> (a@.contains(v) || b@.contains(v)),
{
    let mut out: Vec<usize> = Vec::new();
    let mut i: usize = 0;
    let mut j: usize = 0;
    while i < a.len() || j < b.len()
        invariant
            i <= a.len(),
            j <= b.len(),
            strictly_increasing(a@),
            strictly_increasing(b@),
            strictly_increasing(out@),
            forall|k: int| 0 <= k < out.len() && i < a.len() ==> out[k] < a[i as int],
            forall|k: int| 0 <= k < out.len() && j < b.len() ==> out[k] < b[j as int],
            forall|k: int|
                0 <= k < out.len() ==> a@.contains(#[trigger] out[k]) || b@.contains(out[k]),
            forall|k: int| 0 <= k < i ==> out@.contains(#[trigger] a[k]),
            forall|k: int| 0 <= k < j ==> out@.contains(#[trigger] b[k]),
        decreases a.len() - i + (b.len() - j),
    {
        broadcast use lemma_seq_contains_after_push;

        let ghost before = out@;
        let take_a: bool = if i >= a.len() {
            false
        } else if j >= b.len() {
            true
        } else {
            a[i] <= b[j]
        };
        if take_a {
            let v: usize = a[i];
            out.push(v);
            assert(a@.contains(v));
            if j < b.len() && b[j] == v {
                j += 1;
            }
            i += 1;
        } else {
            let v: usize = b[j];
            out.push(v);
            assert(b@.contains(v));
            j += 1;
        }
        assert(forall|k: int| 0 <= k < before.len() ==> out[k] == before[k]);
    }
    assert forall|v: usize| out@.contains(v) <==> (a@.contains(v) || b@.contains(v)) by {
        if a@.contains(v) {
            let k = choose|k: int| 0 <= k < a.len() && a[k] == v;
            assert(out@.contains(a[k]));
        }
        if b@.contains(v) {
            let k = choose|k: int| 0 <= k < b.len() && b[k] == v;
            assert(out@.contains(b[k]));
        }
    }
    out
}

/// Sorts the elements of `v[lo..hi]` and drops repeats, by merging the
/// sorted halves.
fn sort_range(v: &Vec<usize>, lo: usize, hi: usize) -> (out: Vec<usize>)
    requires
        lo <= hi <= v.len(),
    ensures
        strictly_increasing(out@),
        forall|x: usize| out@.contains(x) <==> exists|k: int| lo <= k < hi && v[k] == x,
    decreases hi - lo,
{
    if hi - lo == 0 {
        Vec::new()
    } else if hi - lo == 1 {
        let mut out: Vec<usize> = Vec::new();
        out.push(v[lo]);
        assert(out@[0] == v[lo as int]);
        out
    } else {
        let mid: usize = lo + (hi - lo) / 2;
        let left = sort_range(v, lo, mid);
        let right = sort_range(v, mid, hi);
        merge_unique(&left, &right)
    }
}

/// Returns the distinct elements of `v` in ascending order.
pub fn sort_dedup(v: &Vec<usize>) -> (out: Vec<usize>)
    ensures
        strictly_increasing(out@),
        forall|x: usize| out@.contains(x) <==> v@.contains(x),
{
    sort_range(v, 0, v.len())
}

} // verus!
