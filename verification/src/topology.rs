//! Dependency ordering of graph nodes (Kahn's algorithm, smallest ready id first).
//!
//! Nodes are given as a sequence `ids` of distinct ids in increasing order and
//! edges as a set of `(from, to)` id pairs. The order is built step by step:
//! among the nodes not yet placed whose every predecessor has been placed, the
//! one that comes first in `ids` (the smallest id) is placed next. When no
//! unplaced node is ready, the remaining nodes all wait on one another.

use vstd::prelude::*;
use crate::adjacency::{lemma_occ_take, lemma_occ_targets, occ, out_edges, pair_count, seg_end, targets_of};
use crate::heap::MinHeap;

verus! {

/// `ids` lists distinct ids in strictly increasing order.
pub open spec fn strictly_increasing(ids: Seq<usize>) -> bool {
    forall|i: int, j: int| 0 <= i < j < ids.len() ==> ids[i] < ids[j]
}

/// Node at position `i` has a predecessor among the nodes not yet placed.
pub open spec fn blocked(ids: Seq<usize>, edges: Set<(usize, usize)>, done: Seq<bool>, i: int) -> bool {
    exists|j: int|
        0 <= j < ids.len() && j < done.len() && !done[j] && #[trigger] edges.contains((ids[j], ids[i]))
}

/// Node at position `i` is not placed yet and all its predecessors are placed.
pub open spec fn ready(ids: Seq<usize>, edges: Set<(usize, usize)>, done: Seq<bool>, i: int) -> bool {
    0 <= i < ids.len() && i < done.len() && !done[i] && !blocked(ids, edges, done, i)
}

/// First ready position at or after `i`, or -1 when there is none.
pub open spec fn first_ready_from(
    ids: Seq<usize>,
    edges: Set<(usize, usize)>,
    done: Seq<bool>,
    i: int,
) -> int
    decreases ids.len() - i,
{
    if i >= ids.len() {
        -1
    } else if ready(ids, edges, done, i) {
        i
    } else {
        first_ready_from(ids, edges, done, i + 1)
    }
}

/// Number of positions not yet placed.
pub open spec fn count_undone(done: Seq<bool>) -> nat
    decreases done.len(),
{
    if done.len() == 0 {
        0
    } else {
        count_undone(done.drop_last()) + if done.last() {
            0nat
        } else {
            1nat
        }
    }
}

/// The ids placed from state `done` on, in placement order.
pub open spec fn kahn(ids: Seq<usize>, edges: Set<(usize, usize)>, done: Seq<bool>) -> Seq<usize>
    decreases count_undone(done),
{
    let k = first_ready_from(ids, edges, done, 0);
    if 0 <= k < done.len() && !done[k] {
        proof {
            lemma_count_undone_update(done, k);
        }
        seq![ids[k]] + kahn(ids, edges, done.update(k, true))
    } else {
        seq![]
    }
}

/// The placement state reached from `done` when no node is ready any more.
pub open spec fn kahn_final(ids: Seq<usize>, edges: Set<(usize, usize)>, done: Seq<bool>) -> Seq<bool>
    decreases count_undone(done),
{
    let k = first_ready_from(ids, edges, done, 0);
    if 0 <= k < done.len() && !done[k] {
        proof {
            lemma_count_undone_update(done, k);
        }
        kahn_final(ids, edges, done.update(k, true))
    } else {
        done
    }
}

/// The ids at the positions not placed, in list order.
pub open spec fn undone_ids(ids: Seq<usize>, done: Seq<bool>) -> Seq<usize>
    decreases ids.len(),
{
    if ids.len() == 0 {
        seq![]
    } else {
        undone_ids(ids.drop_last(), done) + if done[ids.len() - 1] {
            Seq::<usize>::empty()
        } else {
            seq![ids.last()]
        }
    }
}

/// No node placed yet.
pub open spec fn none_done(n: nat) -> Seq<bool> {
    Seq::new(n, |i: int| false)
}

/// Result of the dependency sort: `Ok(order)` when every node could be placed,
/// otherwise `Err(remaining)` with the unplaced ids in list order.
pub open spec fn topo_sort(ids: Seq<usize>, edges: Set<(usize, usize)>) -> Result<Seq<usize>, Seq<usize>> {
    let order = kahn(ids, edges, none_done(ids.len()));
    if order.len() == ids.len() {
        Ok(order)
    } else {
        Err(undone_ids(ids, kahn_final(ids, edges, none_done(ids.len()))))
    }
}

/// The order in which a graph processes its nodes: the dependency order, or
/// the plain id order when the graph has a cycle.
pub open spec fn processing_order_of(ids: Seq<usize>, edges: Set<(usize, usize)>) -> Seq<usize> {
    match topo_sort(ids, edges) {
        Ok(order) => order,
        Err(_) => ids,
    }
}

/// Edge set described by pairs of positions into `ids`.
pub open spec fn edges_at(ids: Seq<usize>, ep: Seq<(usize, usize)>) -> Set<(usize, usize)> {
    Set::new(
        |e: (usize, usize)|
            exists|k: int|
                0 <= k < ep.len() && ids[ep[k].0 as int] == e.0 && ids[ep[k].1 as int] == e.1,
    )
}

pub proof fn lemma_count_undone_update(done: Seq<bool>, k: int)
    requires
        0 <= k < done.len(),
        !done[k],
    ensures
        count_undone(done.update(k, true)) + 1 == count_undone(done),
    decreases done.len(),
{
    let d2 = done.update(k, true);
    if k == done.len() - 1 {
        assert(d2.drop_last() =~= done.drop_last());
    } else {
        assert(d2.drop_last() =~= done.drop_last().update(k, true));
        lemma_count_undone_update(done.drop_last(), k);
    }
}

pub proof fn lemma_count_undone_bound(done: Seq<bool>)
    ensures
        count_undone(done) <= done.len(),
        count_undone(done) == 0 ==> forall|i: int| 0 <= i < done.len() ==> done[i],
    decreases done.len(),
{
    if done.len() > 0 {
        lemma_count_undone_bound(done.drop_last());
        assert forall|i: int| 0 <= i < done.len() && count_undone(done) == 0 implies done[i] by {
            if i < done.len() - 1 {
                assert(done.drop_last()[i] == done[i]);
            }
        }
    }
}

pub proof fn lemma_count_undone_none(n: nat)
    ensures
        count_undone(none_done(n)) == n,
    decreases n,
{
    if n > 0 {
        assert(none_done(n).drop_last() =~= none_done((n - 1) as nat));
        lemma_count_undone_none((n - 1) as nat);
    }
}

/// Skipping positions that are not ready does not change the first ready one.
pub proof fn lemma_first_ready_skip(
    ids: Seq<usize>,
    edges: Set<(usize, usize)>,
    done: Seq<bool>,
    a: int,
    b: int,
)
    requires
        0 <= a <= b <= ids.len(),
        forall|j: int| a <= j < b ==> !ready(ids, edges, done, j),
    ensures
        first_ready_from(ids, edges, done, a) == first_ready_from(ids, edges, done, b),
    decreases b - a,
{
    if a < b {
        lemma_first_ready_skip(ids, edges, done, a + 1, b);
    }
}

/// The first ready position is ready, and nothing before it is.
pub proof fn lemma_first_ready_spec(ids: Seq<usize>, edges: Set<(usize, usize)>, done: Seq<bool>, a: int)
    requires
        0 <= a,
    ensures
        ({
            let k = first_ready_from(ids, edges, done, a);
            &&& (k == -1 || (a <= k && ready(ids, edges, done, k)))
            &&& forall|j: int| a <= j && (k == -1 || j < k) ==> !ready(ids, edges, done, j)
        }),
    decreases ids.len() - a,
{
    if a < ids.len() && !ready(ids, edges, done, a) {
        lemma_first_ready_spec(ids, edges, done, a + 1);
    }
}

/// Facts about the order and the final state reached from `done`.
pub proof fn lemma_kahn_props(ids: Seq<usize>, edges: Set<(usize, usize)>, done: Seq<bool>)
    requires
        ids.len() == done.len(),
        ids.no_duplicates(),
    ensures
        ({
            let r = kahn(ids, edges, done);
            let f = kahn_final(ids, edges, done);
            &&& f.len() == done.len()
            &&& r.len() + count_undone(f) == count_undone(done)
            // every placed id was unplaced and is placed in the final state
            &&& forall|t: int| #![trigger r[t]]
                0 <= t < r.len() ==> exists|i: int|
                    0 <= i < ids.len() && !done[i] && f[i] && r[t] == #[trigger] ids[i]
            // positions placed in the final state were placed before or appear in r
            &&& forall|i: int| 0 <= i < ids.len() && f[i] && !done[i] ==> r.contains(#[trigger] ids[i])
            &&& forall|i: int| 0 <= i < ids.len() && done[i] ==> #[trigger] f[i]
            &&& r.no_duplicates()
            // every unplaced predecessor of a placed node is placed before it
            &&& forall|t: int, j: int|
                0 <= t < r.len() && 0 <= j < ids.len() && !done[j] && #[trigger] edges.contains(
                    (ids[j], r[t]),
                ) ==> exists|u: int| 0 <= u < t && r[u] == ids[j]
            // in the final state no node is ready
            &&& forall|i: int| !ready(ids, edges, f, i)
        }),
    decreases count_undone(done),
{
    let k = first_ready_from(ids, edges, done, 0);
    lemma_first_ready_spec(ids, edges, done, 0);
    if 0 <= k < done.len() && !done[k] {
        let d2 = done.update(k, true);
        lemma_count_undone_update(done, k);
        lemma_kahn_props(ids, edges, d2);
        let r2 = kahn(ids, edges, d2);
        let f = kahn_final(ids, edges, d2);
        let r = kahn(ids, edges, done);
        assert(r == seq![ids[k]] + r2);
        assert(kahn_final(ids, edges, done) == f);
        assert forall|t: int| #![trigger r[t]] 0 <= t < r.len() implies exists|i: int|
            0 <= i < ids.len() && !done[i] && f[i] && r[t] == #[trigger] ids[i] by {
            if t == 0 {
                assert(f[k]);
                assert(r[0] == ids[k]);
            } else {
                assert(r[t] == r2[t - 1]);
                let i = choose|i: int|
                    0 <= i < ids.len() && !d2[i] && f[i] && r2[t - 1] == #[trigger] ids[i];
                assert(!done[i]);
            }
        }
        assert forall|i: int| 0 <= i < ids.len() && f[i] && !done[i] implies r.contains(
            #[trigger] ids[i],
        ) by {
            if i == k {
                assert(r[0] == ids[i]);
            } else {
                assert(!d2[i]);
                assert(r2.contains(ids[i]));
                let u = choose|u: int| 0 <= u < r2.len() && r2[u] == ids[i];
                assert(r[u + 1] == ids[i]);
            }
        }
        assert forall|i: int| 0 <= i < ids.len() && done[i] implies #[trigger] f[i] by {
            assert(d2[i]);
        }
        assert forall|a: int, b: int| 0 <= a < b < r.len() implies r[a] != r[b] by {
            if a == 0 {
                assert(r[b] == r2[b - 1]);
                let i = choose|i: int|
                    0 <= i < ids.len() && !d2[i] && f[i] && r2[b - 1] == #[trigger] ids[i];
                assert(i != k);
            } else {
                assert(r[a] == r2[a - 1]);
                assert(r[b] == r2[b - 1]);
            }
        }
        assert forall|t: int, j: int|
            0 <= t < r.len() && 0 <= j < ids.len() && !done[j] && #[trigger] edges.contains(
                (ids[j], r[t]),
            ) implies exists|u: int| 0 <= u < t && r[u] == ids[j] by {
            if t == 0 {
                assert(r[0] == ids[k]);
                assert(blocked(ids, edges, done, k));
            } else {
                assert(r[t] == r2[t - 1]);
                if j == k {
                    assert(r[0] == ids[j]);
                } else {
                    assert(!d2[j]);
                    assert(edges.contains((ids[j], r2[t - 1])));
                    let u = choose|u: int| 0 <= u < t - 1 && r2[u] == ids[j];
                    assert(r[u + 1] == ids[j]);
                }
            }
        }
    } else {
        assert(kahn(ids, edges, done) =~= seq![]);
        assert forall|i: int| !ready(ids, edges, done, i) by {
            if 0 <= i {
                if k != -1 {
                    assert(ready(ids, edges, done, k));
                }
            }
        }
    }
}

pub proof fn lemma_undone_ids_contains(ids: Seq<usize>, done: Seq<bool>, x: usize)
    requires
        ids.len() <= done.len(),
    ensures
        undone_ids(ids, done).contains(x) <==> exists|i: int|
            0 <= i < ids.len() && !done[i] && ids[i] == x,
    decreases ids.len(),
{
    if ids.len() > 0 {
        let n = ids.len() - 1;
        lemma_undone_ids_contains(ids.drop_last(), done, x);
        let u = undone_ids(ids.drop_last(), done);
        let tail = if done[n] {
            Seq::<usize>::empty()
        } else {
            seq![ids.last()]
        };
        assert(undone_ids(ids, done) == u + tail);
        if undone_ids(ids, done).contains(x) {
            let p = choose|p: int| 0 <= p < (u + tail).len() && (u + tail)[p] == x;
            if p < u.len() {
                assert(u.contains(x));
                let i = choose|i: int| 0 <= i < ids.drop_last().len() && !done[i] && ids.drop_last()[i] == x;
                assert(ids[i] == x);
            } else {
                assert(!done[n] && ids[n] == x);
            }
        }
        if exists|i: int| 0 <= i < ids.len() && !done[i] && ids[i] == x {
            let i = choose|i: int| 0 <= i < ids.len() && !done[i] && ids[i] == x;
            if i < n {
                assert(ids.drop_last()[i] == x);
                assert(u.contains(x));
                let p = choose|p: int| 0 <= p < u.len() && u[p] == x;
                assert((u + tail)[p] == x);
            } else {
                assert((u + tail)[u.len() as int] == x);
            }
        }
    }
}

/// A successful sort lists every node exactly once, and every edge goes from
/// an earlier node to a later one.
pub proof fn lemma_topo_sort_ok(ids: Seq<usize>, edges: Set<(usize, usize)>)
    requires
        ids.no_duplicates(),
        topo_sort(ids, edges) is Ok,
    ensures
        ({
            let order = topo_sort(ids, edges)->Ok_0;
            &&& order.len() == ids.len()
            &&& order.no_duplicates()
            &&& forall|x: usize| order.contains(x) <==> ids.contains(x)
            &&& forall|a: int, b: int|
                0 <= a < order.len() && 0 <= b < order.len() && #[trigger] edges.contains(
                    (order[a], order[b]),
                ) ==> a < b
        }),
{
    let n = ids.len();
    let init = none_done(n);
    lemma_kahn_props(ids, edges, init);
    lemma_count_undone_none(n);
    let order = kahn(ids, edges, init);
    let f = kahn_final(ids, edges, init);
    lemma_count_undone_bound(f);
    assert forall|x: usize| order.contains(x) <==> ids.contains(x) by {
        if order.contains(x) {
            let t = choose|t: int| 0 <= t < order.len() && order[t] == x;
            let i = choose|i: int| 0 <= i < ids.len() && !init[i] && f[i] && order[t] == #[trigger] ids[i];
            assert(ids[i] == x);
        }
        if ids.contains(x) {
            let i = choose|i: int| 0 <= i < ids.len() && ids[i] == x;
            assert(f[i]);
            assert(order.contains(ids[i]));
        }
    }
    assert forall|a: int, b: int|
        0 <= a < order.len() && 0 <= b < order.len() && #[trigger] edges.contains((order[a], order[b]))
            implies a < b by {
        let i = choose|i: int| 0 <= i < ids.len() && !init[i] && f[i] && order[a] == #[trigger] ids[i];
        assert(edges.contains((ids[i], order[b])));
        let u = choose|u: int| 0 <= u < b && order[u] == ids[i];
        if u != a {
            assert(order[u] == order[a]);
        }
    }
}

/// A failed sort leaves a non-empty set of nodes, each of which has a
/// predecessor among the remaining nodes (so the graph has a cycle).
pub proof fn lemma_topo_sort_err(ids: Seq<usize>, edges: Set<(usize, usize)>)
    requires
        ids.no_duplicates(),
        topo_sort(ids, edges) is Err,
    ensures
        ({
            let rest = topo_sort(ids, edges)->Err_0;
            &&& rest.len() > 0
            &&& forall|x: usize| #[trigger] rest.contains(x) ==> ids.contains(x) && exists|y: usize|
                rest.contains(y) && edges.contains((y, x))
        }),
{
    let n = ids.len();
    let init = none_done(n);
    lemma_kahn_props(ids, edges, init);
    lemma_count_undone_none(n);
    let order = kahn(ids, edges, init);
    let f = kahn_final(ids, edges, init);
    let rest = undone_ids(ids, f);
    assert(count_undone(f) > 0);
    lemma_count_undone_bound(f);
    assert(exists|i: int| 0 <= i < f.len() && !f[i]) by {
        if forall|i: int| 0 <= i < f.len() ==> f[i] {
            lemma_count_undone_all_done(f);
        }
    }
    let i0 = choose|i: int| 0 <= i < f.len() && !f[i];
    lemma_undone_ids_contains(ids, f, ids[i0]);
    assert(rest.contains(ids[i0]));
    assert forall|x: usize| #[trigger] rest.contains(x) implies ids.contains(x) && exists|y: usize|
        rest.contains(y) && edges.contains((y, x)) by {
        lemma_undone_ids_contains(ids, f, x);
        let i = choose|i: int| 0 <= i < ids.len() && !f[i] && ids[i] == x;
        assert(!ready(ids, edges, f, i));
        assert(blocked(ids, edges, f, i));
        let j = choose|j: int|
            0 <= j < ids.len() && j < f.len() && !f[j] && #[trigger] edges.contains((ids[j], ids[i]));
        lemma_undone_ids_contains(ids, f, ids[j]);
        assert(rest.contains(ids[j]));
    }
}

pub proof fn lemma_count_undone_all_done(done: Seq<bool>)
    requires
        forall|i: int| 0 <= i < done.len() ==> done[i],
    ensures
        count_undone(done) == 0,
    decreases done.len(),
{
    if done.len() > 0 {
        lemma_count_undone_all_done(done.drop_last());
    }
}

/// Two node lists of the same length whose edges join the same positions.
pub open spec fn same_shape(
    ids: Seq<usize>,
    edges: Set<(usize, usize)>,
    ids2: Seq<usize>,
    edges2: Set<(usize, usize)>,
) -> bool {
    &&& ids.len() == ids2.len()
    &&& forall|i: int, j: int|
        0 <= i < ids.len() && 0 <= j < ids.len() ==> (edges.contains((ids[j], ids[i])) <==> edges2.contains(
            (ids2[j], ids2[i]),
        ))
}

/// The id in `ids2` at the position `x` has in `ids`.
pub open spec fn relabel(ids: Seq<usize>, ids2: Seq<usize>) -> spec_fn(usize) -> usize {
    |x: usize| ids2[ids.index_of(x)]
}

/// Ready positions depend only on which positions are joined.
proof fn lemma_first_ready_relabel(
    ids: Seq<usize>,
    edges: Set<(usize, usize)>,
    ids2: Seq<usize>,
    edges2: Set<(usize, usize)>,
    done: Seq<bool>,
    a: int,
)
    requires
        same_shape(ids, edges, ids2, edges2),
        0 <= a,
    ensures
        first_ready_from(ids2, edges2, done, a) == first_ready_from(ids, edges, done, a),
    decreases ids.len() - a,
{
    if a < ids.len() {
        if blocked(ids, edges, done, a) {
            let j = choose|j: int| 0 <= j < ids.len() && j < done.len() && !done[j] && #[trigger] edges.contains((ids[j], ids[a]));
            assert(edges2.contains((ids2[j], ids2[a])));
        }
        if blocked(ids2, edges2, done, a) {
            let j = choose|j: int| 0 <= j < ids2.len() && j < done.len() && !done[j] && #[trigger] edges2.contains((ids2[j], ids2[a]));
            assert(edges.contains((ids[j], ids[a])));
        }
        lemma_first_ready_relabel(ids, edges, ids2, edges2, done, a + 1);
    }
}

/// The position of an id in a list without repeats.
proof fn lemma_index_of_distinct(ids: Seq<usize>, k: int)
    requires
        ids.no_duplicates(),
        0 <= k < ids.len(),
    ensures
        ids.index_of(ids[k]) == k,
{
    assert(ids.contains(ids[k]));
    let i = ids.index_of(ids[k]);
    assert(0 <= i < ids.len() && ids[i] == ids[k]);
}

/// Relabelling the nodes position by position relabels the order placed.
proof fn lemma_kahn_relabel(
    ids: Seq<usize>,
    edges: Set<(usize, usize)>,
    ids2: Seq<usize>,
    edges2: Set<(usize, usize)>,
    done: Seq<bool>,
)
    requires
        same_shape(ids, edges, ids2, edges2),
        ids.no_duplicates(),
        done.len() == ids.len(),
    ensures
        kahn_final(ids2, edges2, done) == kahn_final(ids, edges, done),
        kahn(ids2, edges2, done) == kahn(ids, edges, done).map_values(relabel(ids, ids2)),
    decreases count_undone(done),
{
    lemma_first_ready_relabel(ids, edges, ids2, edges2, done, 0);
    let k = first_ready_from(ids, edges, done, 0);
    if 0 <= k < done.len() && !done[k] {
        lemma_count_undone_update(done, k);
        let d2 = done.update(k, true);
        lemma_kahn_relabel(ids, edges, ids2, edges2, d2);
        lemma_index_of_distinct(ids, k);
        let r = kahn(ids, edges, d2);
        assert((seq![ids[k]] + r).map_values(relabel(ids, ids2)) =~= seq![ids2[k]] + r.map_values(relabel(ids, ids2)));
    } else {
        assert(kahn(ids, edges, done).map_values(relabel(ids, ids2)) =~= Seq::<usize>::empty());
    }
}

/// Relabelling the nodes position by position relabels the processing order.
pub proof fn lemma_processing_order_relabel(
    ids: Seq<usize>,
    edges: Set<(usize, usize)>,
    ids2: Seq<usize>,
    edges2: Set<(usize, usize)>,
)
    requires
        same_shape(ids, edges, ids2, edges2),
        ids.no_duplicates(),
    ensures
        processing_order_of(ids2, edges2) == processing_order_of(ids, edges).map_values(relabel(ids, ids2)),
{
    let n = ids.len();
    lemma_kahn_relabel(ids, edges, ids2, edges2, none_done(n));
    assert(ids2.len() == n);
    assert forall|i: int| 0 <= i < n implies #[trigger] ids.map_values(relabel(ids, ids2))[i] == ids2[i] by {
        lemma_index_of_distinct(ids, i);
    }
    assert(ids.map_values(relabel(ids, ids2)) =~= ids2);
}

/// Every edge between two listed nodes goes from an earlier position to a
/// later one.
pub open spec fn respects(order: Seq<usize>, edges: Set<(usize, usize)>) -> bool {
    forall|a: int, b: int|
        0 <= a < order.len() && 0 <= b < order.len() && #[trigger] edges.contains((order[a], order[b])) ==> a < b
}

/// `order` lists each of the nodes `ids` exactly once, every node after the
/// nodes that feed into it.
pub open spec fn is_schedule(order: Seq<usize>, ids: Seq<usize>, edges: Set<(usize, usize)>) -> bool {
    &&& order.len() == ids.len()
    &&& order.no_duplicates()
    &&& forall|x: usize| order.contains(x) <==> ids.contains(x)
    &&& respects(order, edges)
}

/// The nodes admit a schedule: the edges form no cycle.
pub open spec fn schedulable(ids: Seq<usize>, edges: Set<(usize, usize)>) -> bool {
    exists|order: Seq<usize>| is_schedule(order, ids, edges)
}

/// In an order that respects the edges, a node of a set in which every node
/// has a predecessor in the set sits at position `k` or later.
proof fn lemma_waiting_positions(s: Seq<usize>, rest: Seq<usize>, edges: Set<(usize, usize)>, k: nat)
    requires
        respects(s, edges),
        forall|x: usize| #[trigger] rest.contains(x) ==> s.contains(x) && exists|y: usize|
            rest.contains(y) && edges.contains((y, x)),
    ensures
        forall|p: int| 0 <= p < s.len() && rest.contains(#[trigger] s[p]) ==> p >= k,
    decreases k,
{
    if k > 0 {
        lemma_waiting_positions(s, rest, edges, (k - 1) as nat);
        assert forall|p: int| 0 <= p < s.len() && rest.contains(#[trigger] s[p]) implies p >= k by {
            let y = choose|y: usize| rest.contains(y) && edges.contains((y, s[p]));
            assert(s.contains(y));
            let q = choose|q: int| 0 <= q < s.len() && s[q] == y;
            assert(edges.contains((s[q], s[p])));
            assert(rest.contains(s[q]));
        }
    }
}

/// The sort fails exactly when the nodes admit no schedule.
pub proof fn lemma_topo_sort_schedulable(ids: Seq<usize>, edges: Set<(usize, usize)>)
    requires
        ids.no_duplicates(),
    ensures
        topo_sort(ids, edges) is Ok <==> schedulable(ids, edges),
        topo_sort(ids, edges) is Ok ==> is_schedule(topo_sort(ids, edges)->Ok_0, ids, edges),
{
    match topo_sort(ids, edges) {
        Ok(order) => {
            lemma_topo_sort_ok(ids, edges);
            assert(is_schedule(order, ids, edges));
        },
        Err(rest) => {
            lemma_topo_sort_err(ids, edges);
            if schedulable(ids, edges) {
                let s = choose|s: Seq<usize>| is_schedule(s, ids, edges);
                assert forall|x: usize| #[trigger] rest.contains(x) implies s.contains(x) && exists|y: usize|
                    rest.contains(y) && edges.contains((y, x)) by {
                    assert(ids.contains(x));
                }
                lemma_waiting_positions(s, rest, edges, s.len());
                let x = rest[0];
                assert(rest.contains(x));
                assert(s.contains(x));
                let p = choose|p: int| 0 <= p < s.len() && s[p] == x;
                assert(rest.contains(s[p]));
            }
        },
    }
}

/// Number of the first `k` position pairs that lead from a position not yet
/// placed to position `q`.
pub open spec fn pending(ep: Seq<(usize, usize)>, done: Seq<bool>, q: int, k: int) -> nat
    decreases k,
{
    if k <= 0 {
        0
    } else {
        pending(ep, done, q, k - 1) + if !done[ep[k - 1].0 as int] && ep[k - 1].1 == q {
            1nat
        } else {
            0nat
        }
    }
}

/// A pair is pending exactly when one of them leads from an unplaced
/// position to `q`.
proof fn lemma_pending_exists(ep: Seq<(usize, usize)>, done: Seq<bool>, q: int, k: int)
    requires
        0 <= k,
    ensures
        pending(ep, done, q, k) > 0 <==> exists|j: int| 0 <= j < k && !done[ep[j].0 as int] && ep[j].1 == q,
        pending(ep, done, q, k) <= k,
    decreases k,
{
    if k > 0 {
        lemma_pending_exists(ep, done, q, k - 1);
        if exists|j: int| 0 <= j < k && !done[ep[j].0 as int] && ep[j].1 == q {
            let j = choose|j: int| 0 <= j < k && !done[ep[j].0 as int] && ep[j].1 == q;
            if j < k - 1 {
                assert(pending(ep, done, q, k - 1) > 0);
            }
        }
    }
}

/// With distinct ids, a position has pending pairs exactly when it waits on
/// an unplaced predecessor.
proof fn lemma_pending_blocked(ids: Seq<usize>, ep: Seq<(usize, usize)>, done: Seq<bool>, q: int)
    requires
        strictly_increasing(ids),
        forall|k: int| 0 <= k < ep.len() ==> (#[trigger] ep[k]).0 < ids.len() && ep[k].1 < ids.len(),
        done.len() == ids.len(),
        0 <= q < ids.len(),
    ensures
        pending(ep, done, q, ep.len() as int) > 0 <==> blocked(ids, edges_at(ids, ep), done, q),
{
    let edges = edges_at(ids, ep);
    lemma_pending_exists(ep, done, q, ep.len() as int);
    if pending(ep, done, q, ep.len() as int) > 0 {
        let k = choose|k: int| 0 <= k < ep.len() && !done[ep[k].0 as int] && ep[k].1 == q;
        let j = ep[k].0 as int;
        assert(edges.contains((ids[j], ids[q])));
    }
    if blocked(ids, edges, done, q) {
        let j = choose|j: int| 0 <= j < ids.len() && j < done.len() && !done[j] && #[trigger] edges.contains((ids[j], ids[q]));
        let k = choose|k: int| 0 <= k < ep.len() && ids[ep[k].0 as int] == ids[j] && ids[ep[k].1 as int] == ids[q];
        if ep[k].0 as int != j {
            if (ep[k].0 as int) < j {
                assert(ids[ep[k].0 as int] < ids[j]);
            } else {
                assert(ids[j] < ids[ep[k].0 as int]);
            }
        }
        if ep[k].1 as int != q {
            if (ep[k].1 as int) < q {
                assert(ids[ep[k].1 as int] < ids[q]);
            } else {
                assert(ids[q] < ids[ep[k].1 as int]);
            }
        }
        assert(!done[ep[k].0 as int] && ep[k].1 == q);
    }
}

/// Placing `c` takes away exactly its own pairs from the pending ones.
proof fn lemma_pending_place(ep: Seq<(usize, usize)>, done: Seq<bool>, c: int, q: int, k: int)
    requires
        0 <= c < done.len(),
        !done[c],
        0 <= k <= ep.len(),
        forall|j: int| 0 <= j < ep.len() ==> (#[trigger] ep[j]).0 < done.len(),
    ensures
        pending(ep, done.update(c, true), q, k) + pair_count(ep, c, q, k) == pending(ep, done, q, k),
    decreases k,
{
    if k > 0 {
        lemma_pending_place(ep, done, c, q, k - 1);
        assert(ep[k - 1].0 < done.len());
    }
}

/// Occurrences in a prefix never exceed those in the whole sequence.
proof fn lemma_occ_prefix(s: Seq<usize>, q: int, t: int)
    requires
        0 <= t <= s.len(),
    ensures
        occ(s.take(t), q) <= occ(s, q),
    decreases s.len() - t,
{
    if t < s.len() {
        lemma_occ_take(s, q, t);
        lemma_occ_prefix(s, q, t + 1);
    } else {
        assert(s.take(t) =~= s);
    }
}

/// Dependency sort of the nodes `ids` (strictly increasing) under the edges
/// given as position pairs `ep`.
///
/// Every position keeps the number of pairs that lead into it from positions
/// not yet placed; placing a position walks its outgoing list only. Ready
/// positions wait in a min-heap, so the smallest is placed first.
pub fn sort_positions(ids: &Vec<usize>, ep: &Vec<(usize, usize)>) -> (res: Result<Vec<usize>, Vec<usize>>)
    requires
        strictly_increasing(ids@),
        forall|k: int| 0 <= k < ep.len() ==> (#[trigger] ep[k]).0 < ids.len() && ep[k].1 < ids.len(),
    ensures
        match (res, topo_sort(ids@, edges_at(ids@, ep@))) {
            (Ok(o), Ok(s)) => o@ == s,
            (Err(o), Err(s)) => o@ == s,
            _ => false,
        },
{
    let n = ids.len();
    let m = ep.len();
    let ghost edges = edges_at(ids@, ep@);
    let (start, targets) = out_edges(n, ep);
    let mut done: Vec<bool> = Vec::new();
    let mut i: usize = 0;
    while i < n
        invariant
            i <= n,
            n == ids.len(),
            done@ == none_done(i as nat),
        decreases n - i,
    {
        done.push(false);
        i = i + 1;
        assert(done@ =~= none_done(i as nat));
    }
    let ghost init = done@;
    // pending pairs into each position
    let mut indeg: Vec<usize> = Vec::new();
    let mut i: usize = 0;
    while i < n
        invariant
            i <= n,
            indeg@.len() == i,
            forall|q: int| 0 <= q < i ==> #[trigger] indeg@[q] == 0,
        decreases n - i,
    {
        indeg.push(0);
        i = i + 1;
    }
    let mut k: usize = 0;
    while k < m
        invariant
            k <= m,
            m == ep.len(),
            n == ids.len(),
            init == none_done(n as nat),
            forall|t: int| 0 <= t < ep.len() ==> (#[trigger] ep[t]).0 < ids.len() && ep[t].1 < ids.len(),
            indeg@.len() == n,
            forall|q: int| 0 <= q < n ==> #[trigger] indeg@[q] == pending(ep@, init, q, k as int),
            forall|q: int| 0 <= q < n ==> #[trigger] pending(ep@, init, q, k as int) <= k,
        decreases m - k,
    {
        let d = ep[k].1;
        proof {
            assert(!init[ep@[k as int].0 as int]);
            assert forall|q: int| 0 <= q < n implies #[trigger] pending(ep@, init, q, k + 1) <= k + 1 by {
                assert(pending(ep@, init, q, k + 1) == pending(ep@, init, q, k as int) + if ep@[k as int].1 == q {
                    1nat
                } else {
                    0nat
                });
            }
        }
        indeg.set(d, indeg[d] + 1);
        k = k + 1;
    }
    proof {
        lemma_count_undone_none(n as nat);
    }
    // positions that are ready, smallest first
    let mut heap = MinHeap::new();
    let mut q: usize = 0;
    while q < n
        invariant
            q <= n,
            n == ids.len(),
            indeg@.len() == n,
            heap.wf(),
            forall|x: usize| #[trigger] heap@.count(x) == (if x < q && indeg@[x as int] == 0 {
                1nat
            } else {
                0nat
            }),
        decreases n - q,
    {
        if indeg[q] == 0 {
            heap.push(q);
        }
        q = q + 1;
    }
    let mut order: Vec<usize> = Vec::new();
    loop
        invariant
            n == ids.len(),
            m == ep.len(),
            done@.len() == n,
            strictly_increasing(ids@),
            forall|t: int| 0 <= t < ep.len() ==> (#[trigger] ep[t]).0 < ids.len() && ep[t].1 < ids.len(),
            edges == edges_at(ids@, ep@),
            init == none_done(n as nat),
            kahn(ids@, edges, init) == order@ + kahn(ids@, edges, done@),
            kahn_final(ids@, edges, init) == kahn_final(ids@, edges, done@),
            order.len() + count_undone(done@) == n,
            start@.len() == n,
            targets@.len() == m,
            forall|p: int| 0 <= p < n ==> #[trigger] start@[p] <= seg_end(start@, p, m as int) <= m,
            forall|p: int| 0 <= p < n ==> targets@.subrange(#[trigger] start@[p] as int, seg_end(start@, p, m as int))
                == targets_of(ep@, p, m as int),
            forall|t: int| 0 <= t < m ==> #[trigger] targets@[t] < n,
            indeg@.len() == n,
            forall|q: int| 0 <= q < n ==> #[trigger] indeg@[q] == pending(ep@, done@, q, m as int),
            forall|q: int| 0 <= q < n && #[trigger] done@[q] ==> indeg@[q] == 0,
            heap.wf(),
            forall|x: usize| #[trigger] heap@.count(x) == (if x < n && !done@[x as int] && indeg@[x as int] == 0 {
                1nat
            } else {
                0nat
            }),
        ensures
            done@.len() == n,
            kahn(ids@, edges, init) == order@,
            kahn_final(ids@, edges, init) == done@,
        decreases count_undone(done@),
    {
        let ghost before_pop = heap@;
        let popped = heap.pop();
        let c = match popped {
            Some(c) => c,
            None => {
                proof {
                    assert forall|j: int| 0 <= j < n implies !ready(ids@, edges, done@, j) by {
                        lemma_pending_blocked(ids@, ep@, done@, j);
                        assert(before_pop.count(j as usize) <= before_pop.len());
                    }
                    lemma_first_ready_skip(ids@, edges, done@, 0, n as int);
                    assert(first_ready_from(ids@, edges, done@, n as int) == -1);
                    assert(kahn(ids@, edges, done@) =~= seq![]);
                    assert(order@ + kahn(ids@, edges, done@) =~= order@);
                    assert(kahn_final(ids@, edges, done@) == done@);
                }
                break;
            },
        };
        proof {
            assert(before_pop.count(c) > 0);
            assert forall|j: int| 0 <= j < c implies !ready(ids@, edges, done@, j) by {
                lemma_pending_blocked(ids@, ep@, done@, j);
                if ready(ids@, edges, done@, j) {
                    assert(before_pop.count(j as usize) > 0);
                }
            }
            lemma_first_ready_skip(ids@, edges, done@, 0, c as int);
            lemma_pending_blocked(ids@, ep@, done@, c as int);
        }
        assert(ready(ids@, edges, done@, c as int));
        assert(first_ready_from(ids@, edges, done@, c as int) == c);
        let ghost old_done = done@;
        proof {
            lemma_count_undone_update(done@, c as int);
        }
        done.set(c, true);
        order.push(ids[c]);
        proof {
            assert(kahn(ids@, edges, old_done) == seq![ids[c as int]] + kahn(ids@, edges, done@));
            assert(order@ + kahn(ids@, edges, done@) =~= (order@.drop_last() + seq![ids[c as int]])
                + kahn(ids@, edges, done@));
            assert forall|q: int| 0 <= q < n implies pending(ep@, done@, q, m as int) + pair_count(ep@, c as int, q, m as int)
                == pending(ep@, old_done, q, m as int) by {
                lemma_pending_place(ep@, old_done, c as int, q, m as int);
            }
        }
        // positions fed by `c` wait on one pair less
        let a = start[c];
        let b = if c + 1 < n {
            start[c + 1]
        } else {
            m
        };
        let ghost seg = targets@.subrange(a as int, b as int);
        proof {
            assert(b == seg_end(start@, c as int, m as int));
            assert(seg == targets_of(ep@, c as int, m as int));
            assert forall|q: int| 0 <= q < n implies occ(seg, q) == pair_count(ep@, c as int, q, m as int) by {
                lemma_occ_targets(ep@, c as int, q, m as int);
            }
            assert forall|q: int| 0 <= q < n implies #[trigger] indeg@[q] + occ(seg.take(0), q) == pending(
                ep@,
                old_done,
                q,
                m as int,
            ) by {
                assert(seg.take(0) =~= Seq::<usize>::empty());
            }
        }
        let mut j = a;
        while j < b
            invariant
                a <= j <= b <= m,
                c < n,
                seg == targets@.subrange(a as int, b as int),
                targets@.len() == m,
                forall|t: int| 0 <= t < m ==> #[trigger] targets@[t] < n,
                indeg@.len() == n,
                done@.len() == n,
                forall|q: int| 0 <= q < n ==> #[trigger] indeg@[q] + occ(seg.take(j - a), q) == pending(
                    ep@,
                    old_done,
                    q,
                    m as int,
                ),
                forall|q: int| 0 <= q < n ==> occ(seg, q) == pair_count(ep@, c as int, q, m as int),
                forall|q: int| 0 <= q < n ==> pending(ep@, done@, q, m as int) + pair_count(ep@, c as int, q, m as int)
                    == pending(ep@, old_done, q, m as int),
                forall|q: int| 0 <= q < n && #[trigger] done@[q] ==> indeg@[q] == 0,
                heap.wf(),
                forall|x: usize| #[trigger] heap@.count(x) == (if x < n && !done@[x as int] && indeg@[x as int] == 0 {
                    1nat
                } else {
                    0nat
                }),
            decreases b - j,
        {
            let q = targets[j];
            proof {
                assert(seg[j - a] == q);
                lemma_occ_take(seg, q as int, j - a);
                lemma_occ_prefix(seg, q as int, j - a + 1);
                assert(indeg@[q as int] >= 1);
                assert(!done@[q as int]);
            }
            let ghost before = indeg@;
            let ghost heap_before = heap@;
            indeg.set(q, indeg[q] - 1);
            if indeg[q] == 0 {
                heap.push(q);
            }
            j = j + 1;
            proof {
                assert(heap_before.count(q) == 0);
                assert forall|r: int| 0 <= r < n implies #[trigger] indeg@[r] + occ(seg.take(j - a), r) == pending(
                    ep@,
                    old_done,
                    r,
                    m as int,
                ) by {
                    lemma_occ_take(seg, r, j - 1 - a);
                    assert(before[r] + occ(seg.take(j - 1 - a), r) == pending(ep@, old_done, r, m as int));
                }
            }
        }
        proof {
            assert(seg.take(b - a) =~= seg);
            assert forall|q: int| 0 <= q < n implies #[trigger] indeg@[q] == pending(ep@, done@, q, m as int) by {
                assert(indeg@[q] + occ(seg.take(b - a), q) == pending(ep@, old_done, q, m as int));
            }
        }
    }
    proof {
        lemma_count_undone_none(n as nat);
    }
    assert(init == none_done(ids@.len()));
    if order.len() == n {
        Ok(order)
    } else {
        let mut rest: Vec<usize> = Vec::new();
        let mut r: usize = 0;
        while r < n
            invariant
                r <= n,
                n == ids.len(),
                done@.len() == n,
                rest@ == undone_ids(ids@.take(r as int), done@),
            decreases n - r,
        {
            proof {
                assert(ids@.take(r as int + 1).drop_last() =~= ids@.take(r as int));
            }
            if !done[r] {
                rest.push(ids[r]);
            }
            r = r + 1;
            proof {
                let t = ids@.take(r as int);
                assert(undone_ids(t, done@) == undone_ids(t.drop_last(), done@) + if done@[t.len() - 1] {
                    Seq::<usize>::empty()
                } else {
                    seq![t.last()]
                });
                if done@[r as int - 1] {
                    assert(rest@ =~= undone_ids(t, done@));
                } else {
                    assert(rest@ =~= undone_ids(t, done@));
                }
            }
        }
        proof {
            assert(ids@.take(n as int) =~= ids@);
        }
        Err(rest)
    }
}

} // verus!
