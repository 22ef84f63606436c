use vstd::prelude::*;
use crate::entity::{has_id, ids_of, overlaps, unique_ids, Entity};
use crate::geometry::{dist_sq, is_integer_sqrt};
use crate::pairs::{hits, lemma_hits_content, pair_before};
use crate::world::{collide_at, collides, is_nearest, other_than, overlap_at, PhysicsWorld};

verus! {

/// The number of pairs in a flat list of pairs.
pub open spec fn pair_count(pairs: Seq<u32>) -> int {
    pairs.len() as int / 2
}

/// The `k`-th pair of a flat list of pairs is `a` and `b`, in either order.
pub open spec fn names_pair(pairs: Seq<u32>, k: int, a: u32, b: u32) -> bool {
    ||| (pairs[2 * k] == a && pairs[2 * k + 1] == b)
    ||| (pairs[2 * k] == b && pairs[2 * k + 1] == a)
}

/// Overlap does not depend on the order of the two circles.
pub proof fn lemma_overlap_is_symmetric(a: Entity, b: Entity)
    ensures
        overlaps(a, b) == overlaps(b, a),
{
    assert((b.x - a.x) * (b.x - a.x) == (a.x - b.x) * (a.x - b.x)) by (nonlinear_arith);
    assert((b.y - a.y) * (b.y - a.y) == (a.y - b.y) * (a.y - b.y)) by (nonlinear_arith);
}

/// Two circles overlap if and only if the distance between their centres,
/// rounded down to a whole number, is less than the sum of their radii.
/// Circles whose centres are exactly that sum apart do not overlap.
pub proof fn lemma_overlap_iff_closer_than_radii(a: Entity, b: Entity, d: int)
    requires
        is_integer_sqrt(dist_sq(a.x as int, a.y as int, b.x as int, b.y as int), d),
    ensures
        overlaps(a, b) <==> d < a.radius + b.radius,
{
    let apart = dist_sq(a.x as int, a.y as int, b.x as int, b.y as int);
    let reach = a.radius + b.radius;
    if d < reach {
        assert((d + 1) * (d + 1) <= reach * reach) by (nonlinear_arith)
            requires
                0 <= d + 1 <= reach,
        ;
    } else {
        assert(reach * reach <= d * d) by (nonlinear_arith)
            requires
                0 <= reach <= d,
        ;
    }
}

/// The position pairs behind a query result: every pair that the query
/// relates, in order.
pub open spec fn reported(w: PhysicsWorld) -> Seq<(int, int)> {
    hits(collides(w@, w.grid()), w@.len() as int, w@.len() as int)
}

/// The `k`-th pair of a query result holds the ids of the entities at the
/// `k`-th reported position pair, which the query relates.
pub proof fn lemma_result_at(w: PhysicsWorld, k: int)
    requires
        0 <= k < pair_count(w.colliding_pairs()),
    ensures
        w.colliding_pairs().len() == 2 * reported(w).len(),
        collide_at(w@, w.grid(), reported(w)[k].0, reported(w)[k].1),
        w.colliding_pairs()[2 * k] == w@[reported(w)[k].0].id,
        w.colliding_pairs()[2 * k + 1] == w@[reported(w)[k].1].id,
{
    let n = w@.len() as int;
    lemma_hits_content(collides(w@, w.grid()), n, n);
    let p = reported(w)[k];
    assert(collides(w@, w.grid())(p.0, p.1));
}

/// Reported position pairs come in order of the first position, then of
/// the second.
pub proof fn lemma_reported_in_order(w: PhysicsWorld, k: int, m: int)
    requires
        0 <= k < m < reported(w).len(),
    ensures
        pair_before(reported(w)[k], reported(w)[m]),
{
    let n = w@.len() as int;
    lemma_hits_content(collides(w@, w.grid()), n, n);
}

/// No entity is ever paired with itself.
pub proof fn lemma_no_entity_pairs_with_itself(w: PhysicsWorld)
    requires
        w.wf(),
    ensures
        forall|k: int|
            0 <= k < pair_count(w.colliding_pairs()) ==> w.colliding_pairs()[2 * k]
                != #[trigger] w.colliding_pairs()[2 * k + 1],
{
    assert forall|k: int| 0 <= k < pair_count(w.colliding_pairs()) implies w.colliding_pairs()[2
        * k] != #[trigger] w.colliding_pairs()[2 * k + 1] by {
        lemma_result_at(w, k);
    }
}

/// No two pairs of one query result name the same two entities, in either
/// order.
pub proof fn lemma_no_pair_is_reported_twice(w: PhysicsWorld)
    requires
        w.wf(),
    ensures
        forall|k: int, m: int|
            0 <= k < m < pair_count(w.colliding_pairs()) ==> !#[trigger] names_pair(
                w.colliding_pairs(),
                m,
                w.colliding_pairs()[2 * k],
                w.colliding_pairs()[2 * k + 1],
            ),
{
    let pairs = w.colliding_pairs();
    assert forall|k: int, m: int| 0 <= k < m < pair_count(pairs) implies !#[trigger] names_pair(
        pairs,
        m,
        pairs[2 * k],
        pairs[2 * k + 1],
    ) by {
        let p = reported(w)[k];
        let q = reported(w)[m];
        lemma_result_at(w, k);
        lemma_result_at(w, m);
        lemma_reported_in_order(w, k, m);
        if pairs[2 * m] == pairs[2 * k] && pairs[2 * m + 1] == pairs[2 * k + 1] {
            lemma_same_id_same_position(w@, p.0, q.0);
            lemma_same_id_same_position(w@, p.1, q.1);
        }
        if pairs[2 * m] == pairs[2 * k + 1] && pairs[2 * m + 1] == pairs[2 * k] {
            lemma_same_id_same_position(w@, p.0, q.1);
            lemma_same_id_same_position(w@, p.1, q.0);
        }
    }
}

/// Entities with the same id stand at the same position.
pub proof fn lemma_same_id_same_position(s: Seq<Entity>, i: int, j: int)
    requires
        unique_ids(s),
        0 <= i < s.len(),
        0 <= j < s.len(),
        s[i].id == s[j].id,
    ensures
        i == j,
{
    if i < j {
        assert(s[i].id != s[j].id);
    }
    if j < i {
        assert(s[j].id != s[i].id);
    }
}

/// Every pair that the query relates is reported.
pub proof fn lemma_colliding_pair_is_reported(w: PhysicsWorld, i: int, j: int) -> (k: int)
    requires
        w.wf(),
        collide_at(w@, w.grid(), i, j),
    ensures
        0 <= k < pair_count(w.colliding_pairs()),
        w.colliding_pairs()[2 * k] == w@[i].id,
        w.colliding_pairs()[2 * k + 1] == w@[j].id,
{
    let n = w@.len() as int;
    let rel = collides(w@, w.grid());
    let found = reported(w);
    lemma_hits_content(rel, n, n);
    assert(rel(i, j));
    assert(found.contains((i, j)));
    let k = choose|k: int| 0 <= k < found.len() && found[k] == (i, j);
    assert(w.colliding_pairs().len() == 2 * found.len());
    lemma_result_at(w, k);
    k
}

/// After a rebuild of the grid, two stored circles are reported as a pair
/// if and only if they overlap; the one that stands first in the store is
/// named first.
pub proof fn lemma_reported_iff_overlapping(w: PhysicsWorld, i: int, j: int)
    requires
        w.wf(),
        w.grid_is_current(),
        0 <= i < j < w@.len(),
    ensures
        overlaps(w@[i], w@[j]) <==> exists|k: int|
            0 <= k < pair_count(w.colliding_pairs()) && #[trigger] w.colliding_pairs()[2 * k]
                == w@[i].id && w.colliding_pairs()[2 * k + 1] == w@[j].id,
{
    let pairs = w.colliding_pairs();
    w.lemma_current_grid_misses_nothing();
    if overlaps(w@[i], w@[j]) {
        assert(overlap_at(w@, i, j));
        assert(collide_at(w@, w.grid(), i, j));
        let k = lemma_colliding_pair_is_reported(w, i, j);
        assert(pairs[2 * k] == w@[i].id && pairs[2 * k + 1] == w@[j].id);
    }
    if exists|k: int|
        0 <= k < pair_count(pairs) && #[trigger] pairs[2 * k] == w@[i].id && pairs[2 * k + 1]
            == w@[j].id {
        let k = choose|k: int|
            0 <= k < pair_count(pairs) && #[trigger] pairs[2 * k] == w@[i].id && pairs[2 * k + 1]
                == w@[j].id;
        let p = reported(w)[k];
        lemma_result_at(w, k);
        lemma_same_id_same_position(w@, p.0, i);
        lemma_same_id_same_position(w@, p.1, j);
    }
}

/// After a rebuild of the grid, every two distinct stored circles that
/// overlap make exactly one pair of the query result.
pub proof fn lemma_overlapping_pair_is_reported_once(w: PhysicsWorld, i: int, j: int) -> (k: int)
    requires
        w.wf(),
        w.grid_is_current(),
        0 <= i < w@.len(),
        0 <= j < w@.len(),
        i != j,
        overlaps(w@[i], w@[j]),
    ensures
        0 <= k < pair_count(w.colliding_pairs()),
        names_pair(w.colliding_pairs(), k, w@[i].id, w@[j].id),
        forall|m: int|
            0 <= m < pair_count(w.colliding_pairs()) && #[trigger] names_pair(
                w.colliding_pairs(),
                m,
                w@[i].id,
                w@[j].id,
            ) ==> m == k,
{
    let pairs = w.colliding_pairs();
    w.lemma_current_grid_misses_nothing();
    lemma_overlap_is_symmetric(w@[i], w@[j]);
    let k = if i < j {
        assert(overlap_at(w@, i, j));
        lemma_colliding_pair_is_reported(w, i, j)
    } else {
        assert(overlap_at(w@, j, i));
        lemma_colliding_pair_is_reported(w, j, i)
    };
    lemma_no_pair_is_reported_twice(w);
    assert forall|m: int|
        0 <= m < pair_count(pairs) && #[trigger] names_pair(
            pairs,
            m,
            w@[i].id,
            w@[j].id,
        ) implies m == k by {
        if m < k {
            assert(!names_pair(pairs, k, pairs[2 * m], pairs[2 * m + 1]));
        }
        if k < m {
            assert(!names_pair(pairs, m, pairs[2 * k], pairs[2 * k + 1]));
        }
    }
    k
}

/// Removing an id from a store leaves no entity with that id, and keeps
/// every other entity.
pub proof fn lemma_removal_drops_only_that_id(s: Seq<Entity>, id: u32)
    ensures
        !has_id(s.filter(other_than(id)), id),
        forall|e: Entity| s.filter(other_than(id)).contains(e) <==> s.contains(e) && e.id != id,
{
    broadcast use vstd::seq_lib::group_filter_ensures;

    let kept = s.filter(other_than(id));
    assert forall|k: int| 0 <= k < kept.len() implies (#[trigger] kept[k]).id != id by {
        assert(other_than(id)(kept[k]));
    }
    assert forall|e: Entity| kept.contains(e) <==> s.contains(e) && e.id != id by {
        if kept.contains(e) {
            let k = choose|k: int| 0 <= k < kept.len() && kept[k] == e;
            assert(other_than(id)(kept[k]));
            s.lemma_filter_contains_rev(other_than(id), e);
        }
        if s.contains(e) && e.id != id {
            let k = choose|k: int| 0 <= k < s.len() && s[k] == e;
            assert(other_than(id)(s[k]));
            assert(kept.contains(s[k]));
        }
    }
}

/// An id that no stored entity has, such as the id of a removed entity,
/// occurs neither among the stored ids nor in a collision result.
pub proof fn lemma_absent_id_is_never_reported(w: PhysicsWorld, id: u32)
    requires
        w.wf(),
        !has_id(w@, id),
    ensures
        !ids_of(w@).contains(id),
        !w.colliding_pairs().contains(id),
{
    let pairs = w.colliding_pairs();
    if ids_of(w@).contains(id) {
        let k = choose|k: int| 0 <= k < ids_of(w@).len() && ids_of(w@)[k] == id;
        assert(w@[k].id == id);
    }
    if pairs.contains(id) {
        let t = choose|t: int| 0 <= t < pairs.len() && pairs[t] == id;
        let k = t / 2;
        let p = reported(w)[k];
        lemma_result_at(w, k);
        if t % 2 == 0 {
            assert(pairs[2 * k] == w@[p.0].id);
        } else {
            assert(pairs[2 * k + 1] == w@[p.1].id);
        }
    }
}

/// At most one position is the nearest, so the result of a nearest-entity
/// query is determined by the store and the arguments.
pub proof fn lemma_nearest_is_unique(s: Seq<Entity>, x: int, y: int, exclude: u32, k: int, m: int)
    requires
        is_nearest(s, x, y, exclude, k),
        is_nearest(s, x, y, exclude, m),
    ensures
        k == m,
{
    assert(s[k].id != exclude);
    assert(s[m].id != exclude);
}

} // verus!
