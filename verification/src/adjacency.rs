//! Outgoing edge lists of a graph on positions `0..n`, in compressed form:
//! the targets of the edges leaving `p` sit in `targets[start[p]..start[p + 1]]`,
//! in the order the edges were given.

use vstd::prelude::*;

verus! {

/// Targets of the first `k` edges that leave `p`, in order.
pub open spec fn targets_of(ep: Seq<(usize, usize)>, p: int, k: int) -> Seq<usize>
    decreases k,
{
    if k <= 0 {
        seq![]
    } else {
        targets_of(ep, p, k - 1) + if ep[k - 1].0 == p {
            seq![ep[k - 1].1]
        } else {
            Seq::<usize>::empty()
        }
    }
}

/// Number of the first `k` edges that leave a position below `p`.
pub open spec fn prefix_total(ep: Seq<(usize, usize)>, p: int, k: int) -> nat
    decreases p,
{
    if p <= 0 {
        0
    } else {
        prefix_total(ep, p - 1, k) + targets_of(ep, p - 1, k).len()
    }
}

/// Number of occurrences of `q` in `s`.
pub open spec fn occ(s: Seq<usize>, q: int) -> nat
    decreases s.len(),
{
    if s.len() == 0 {
        0
    } else {
        occ(s.drop_last(), q) + if s.last() == q {
            1nat
        } else {
            0nat
        }
    }
}

/// Number of the first `k` edges joining `p` to `q`.
pub open spec fn pair_count(ep: Seq<(usize, usize)>, p: int, q: int, k: int) -> nat
    decreases k,
{
    if k <= 0 {
        0
    } else {
        pair_count(ep, p, q, k - 1) + if ep[k - 1].0 == p && ep[k - 1].1 == q {
            1nat
        } else {
            0nat
        }
    }
}

/// Taking one more edge into account.
pub proof fn lemma_targets_of_step(ep: Seq<(usize, usize)>, p: int, k: int)
    requires
        0 <= k,
    ensures
        targets_of(ep, p, k + 1) == targets_of(ep, p, k) + if ep[k].0 == p {
            seq![ep[k].1]
        } else {
            Seq::<usize>::empty()
        },
        targets_of(ep, p, k + 1).len() == targets_of(ep, p, k).len() + if ep[k].0 == p {
            1int
        } else {
            0int
        },
{
}

/// Edge lists only grow as more edges are taken into account.
pub proof fn lemma_targets_of_grow(ep: Seq<(usize, usize)>, p: int, k: int, k2: int)
    requires
        0 <= k <= k2,
    ensures
        targets_of(ep, p, k).len() <= targets_of(ep, p, k2).len(),
        targets_of(ep, p, k2).subrange(0, targets_of(ep, p, k).len() as int) == targets_of(ep, p, k),
    decreases k2 - k,
{
    if k < k2 {
        lemma_targets_of_grow(ep, p, k, k2 - 1);
        lemma_targets_of_step(ep, p, k2 - 1);
        let a = targets_of(ep, p, k);
        let b = targets_of(ep, p, k2 - 1);
        let c = targets_of(ep, p, k2);
        assert(c.subrange(0, a.len() as int) =~= b.subrange(0, a.len() as int));
    }
}

/// One more edge adds one to the count of exactly the position it leaves.
proof fn lemma_prefix_total_step(ep: Seq<(usize, usize)>, p: int, k: int)
    requires
        0 <= k,
        0 <= p,
    ensures
        prefix_total(ep, p, k + 1) == prefix_total(ep, p, k) + if 0 <= ep[k].0 < p {
            1int
        } else {
            0int
        },
    decreases p,
{
    if p > 0 {
        lemma_prefix_total_step(ep, p - 1, k);
        lemma_targets_of_step(ep, p - 1, k);
    }
}

/// Before any edge is taken into account, nothing is counted.
proof fn lemma_prefix_total_zero(ep: Seq<(usize, usize)>, p: int)
    ensures
        prefix_total(ep, p, 0) == 0,
    decreases p,
{
    if p > 0 {
        lemma_prefix_total_zero(ep, p - 1);
    }
}

/// Counting edges by the position they leave counts every edge once.
pub proof fn lemma_prefix_total_all(ep: Seq<(usize, usize)>, n: int, k: int)
    requires
        0 <= k <= ep.len(),
        0 <= n,
        forall|j: int| 0 <= j < k ==> (#[trigger] ep[j]).0 < n,
    ensures
        prefix_total(ep, n, k) == k,
    decreases k,
{
    if k > 0 {
        lemma_prefix_total_all(ep, n, k - 1);
        lemma_prefix_total_step(ep, n, k - 1);
        assert(ep[k - 1].0 < n);
    } else {
        lemma_prefix_total_zero(ep, n);
    }
}

/// The counts below `p` grow with `p`.
pub proof fn lemma_prefix_total_mono(ep: Seq<(usize, usize)>, p: int, p2: int, k: int)
    requires
        0 <= p <= p2,
    ensures
        prefix_total(ep, p, k) <= prefix_total(ep, p2, k),
        p < p2 ==> prefix_total(ep, p + 1, k) <= prefix_total(ep, p2, k),
    decreases p2 - p,
{
    if p < p2 {
        lemma_prefix_total_mono(ep, p, p2 - 1, k);
    }
}

/// The occurrences of `q` among the targets of `p` are the edges from `p`
/// to `q`.
pub proof fn lemma_occ_targets(ep: Seq<(usize, usize)>, p: int, q: int, k: int)
    requires
        0 <= k,
    ensures
        occ(targets_of(ep, p, k), q) == pair_count(ep, p, q, k),
    decreases k,
{
    if k > 0 {
        lemma_occ_targets(ep, p, q, k - 1);
        let a = targets_of(ep, p, k - 1);
        if ep[k - 1].0 == p {
            let b = a + seq![ep[k - 1].1];
            assert(b.drop_last() =~= a);
        } else {
            assert(a + Seq::<usize>::empty() =~= a);
        }
    }
}

/// Occurrences in a prefix, one element at a time.
pub proof fn lemma_occ_take(s: Seq<usize>, q: int, t: int)
    requires
        0 <= t < s.len(),
    ensures
        occ(s.take(t + 1), q) == occ(s.take(t), q) + if s[t] == q {
            1int
        } else {
            0int
        },
{
    assert(s.take(t + 1).drop_last() =~= s.take(t));
}

/// End of the list of position `p`: the next list's start, or the number
/// of edges `m` for the last position.
pub open spec fn seg_end(start: Seq<usize>, p: int, m: int) -> int {
    if p + 1 < start.len() {
        start[p + 1] as int
    } else {
        m
    }
}

/// Outgoing edge lists of the edges `ep` between positions below `n`.
pub fn out_edges(n: usize, ep: &Vec<(usize, usize)>) -> (r: (Vec<usize>, Vec<usize>))
    requires
        forall|k: int| 0 <= k < ep.len() ==> (#[trigger] ep[k]).0 < n && ep[k].1 < n,
    ensures
        r.0@.len() == n,
        r.1@.len() == ep@.len(),
        forall|p: int| 0 <= p < n ==> #[trigger] r.0@[p] == prefix_total(ep@, p, ep@.len() as int),
        forall|p: int| 0 <= p < n ==> #[trigger] seg_end(r.0@, p, ep@.len() as int) == prefix_total(ep@, p + 1, ep@.len() as int),
        forall|p: int| 0 <= p < n ==> #[trigger] r.0@[p] <= seg_end(r.0@, p, ep@.len() as int) <= ep@.len(),
        forall|p: int| 0 <= p < n ==> r.1@.subrange(#[trigger] r.0@[p] as int, seg_end(r.0@, p, ep@.len() as int))
            == targets_of(ep@, p, ep@.len() as int),
        forall|j: int| 0 <= j < r.1@.len() ==> #[trigger] r.1@[j] < n,
{
    let m = ep.len();
    let ghost e = ep@;
    // number of edges leaving each position
    let mut count: Vec<usize> = Vec::new();
    let mut p: usize = 0;
    while p < n
        invariant
            p <= n,
            count@.len() == p,
            forall|i: int| 0 <= i < p ==> #[trigger] count@[i] == 0,
        decreases n - p,
    {
        count.push(0);
        p = p + 1;
    }
    let mut k: usize = 0;
    while k < m
        invariant
            k <= m,
            m == e.len(),
            e == ep@,
            count@.len() == n,
            forall|j: int| 0 <= j < m ==> (#[trigger] e[j]).0 < n && e[j].1 < n,
            forall|i: int| 0 <= i < n ==> #[trigger] count@[i] == targets_of(e, i, k as int).len(),
            forall|i: int| 0 <= i < n ==> (#[trigger] targets_of(e, i, k as int)).len() <= k,
        decreases m - k,
    {
        let s = ep[k].0;
        proof {
            assert forall|i: int| 0 <= i < n implies targets_of(e, i, k + 1).len() == targets_of(e, i, k as int).len() + if e[k as int].0 == i {
                1int
            } else {
                0int
            } by {
                lemma_targets_of_step(e, i, k as int);
            }
            assert forall|i: int| 0 <= i < n implies (#[trigger] targets_of(e, i, k + 1)).len() <= k + 1 by {
                lemma_targets_of_step(e, i, k as int);
            }
        }
        count.set(s, count[s] + 1);
        k = k + 1;
    }
    // start of each position's list
    proof {
        lemma_prefix_total_all(e, n as int, m as int);
    }
    let mut start: Vec<usize> = Vec::new();
    let mut acc: usize = 0;
    let mut p: usize = 0;
    while p < n
        invariant
            p <= n,
            m == e.len(),
            e == ep@,
            count@.len() == n,
            forall|i: int| 0 <= i < n ==> #[trigger] count@[i] == targets_of(e, i, m as int).len(),
            prefix_total(e, n as int, m as int) == m,
            start@.len() == p,
            acc == prefix_total(e, p as int, m as int),
            forall|i: int| 0 <= i < p ==> #[trigger] start@[i] == prefix_total(e, i, m as int),
        decreases n - p,
    {
        proof {
            lemma_prefix_total_mono(e, p + 1, n as int, m as int);
        }
        start.push(acc);
        acc = acc + count[p];
        p = p + 1;
    }
    proof {
        assert forall|i: int| 0 <= i < n implies #[trigger] seg_end(start@, i, m as int) == prefix_total(e, i + 1, m as int) by {
        }
        assert forall|i: int| 0 <= i < n implies #[trigger] start@[i] <= seg_end(start@, i, m as int) <= m by {
            lemma_prefix_total_mono(e, i + 1, n as int, m as int);
        }
    }
    // place each edge's target in its source's list
    let mut targets: Vec<usize> = Vec::new();
    let mut t: usize = 0;
    while t < m
        invariant
            t <= m,
            targets@.len() == t,
            forall|j: int| 0 <= j < t ==> #[trigger] targets@[j] == 0,
        decreases m - t,
    {
        targets.push(0);
        t = t + 1;
    }
    let mut pos: Vec<usize> = Vec::new();
    let mut p: usize = 0;
    while p < n
        invariant
            p <= n,
            start@.len() == n,
            pos@.len() == p,
            forall|i: int| 0 <= i < p ==> #[trigger] pos@[i] == start@[i],
        decreases n - p,
    {
        pos.push(start[p]);
        p = p + 1;
    }
    proof {
        assert forall|i: int| 0 <= i < n implies targets@.subrange(start@[i] as int, #[trigger] pos@[i] as int)
            =~= targets_of(e, i, 0) by {
        }
    }
    let mut k: usize = 0;
    while k < m
        invariant
            k <= m,
            m == e.len(),
            e == ep@,
            forall|j: int| 0 <= j < m ==> (#[trigger] e[j]).0 < n && e[j].1 < n,
            start@.len() == n,
            forall|i: int| 0 <= i < n ==> #[trigger] start@[i] == prefix_total(e, i, m as int),
            forall|i: int| 0 <= i < n ==> #[trigger] seg_end(start@, i, m as int) == prefix_total(e, i + 1, m as int),
            forall|i: int| 0 <= i < n ==> #[trigger] start@[i] <= seg_end(start@, i, m as int) <= m,
            targets@.len() == m,
            pos@.len() == n,
            forall|i: int| 0 <= i < n ==> #[trigger] pos@[i] == start@[i] + targets_of(e, i, k as int).len(),
            forall|i: int| 0 <= i < n ==> targets@.subrange(start@[i] as int, #[trigger] pos@[i] as int) == targets_of(
                e,
                i,
                k as int,
            ),
            forall|j: int| 0 <= j < m ==> #[trigger] targets@[j] < n,
        decreases m - k,
    {
        let (s, d) = ep[k];
        let ghost old_targets = targets@;
        let ghost old_pos = pos@;
        proof {
            lemma_targets_of_grow(e, s as int, k + 1, m as int);
            lemma_targets_of_step(e, s as int, k as int);
            assert(seg_end(start@, s as int, m as int) == prefix_total(e, s + 1, m as int));
            assert(pos@[s as int] < seg_end(start@, s as int, m as int));
        }
        let x = pos[s];
        targets.set(x, d);
        pos.set(s, x + 1);
        proof {
            assert forall|i: int| 0 <= i < n implies targets@.subrange(start@[i] as int, #[trigger] pos@[i] as int) == targets_of(
                e,
                i,
                k + 1,
            ) by {
                lemma_targets_of_step(e, i, k as int);
                if i == s {
                    assert(targets@.subrange(start@[i] as int, pos@[i] as int) =~= old_targets.subrange(
                        start@[i] as int,
                        old_pos[i] as int,
                    ).push(d));
                } else {
                    assert(old_pos[i] <= seg_end(start@, i, m as int)) by {
                        lemma_targets_of_grow(e, i, k as int, m as int);
                    }
                    assert(pos@[i] == old_pos[i]);
                    assert(old_pos[s as int] >= start@[s as int]);
                    if i < s {
                        assert(seg_end(start@, i, m as int) <= start@[s as int]) by {
                            lemma_prefix_total_mono(e, i + 1, s as int, m as int);
                        }
                        assert(old_pos[i] <= x);
                    } else {
                        assert(seg_end(start@, s as int, m as int) <= start@[i]) by {
                            lemma_prefix_total_mono(e, s + 1, i, m as int);
                        }
                        assert(x < start@[i]);
                    }
                    assert(targets@.subrange(start@[i] as int, pos@[i] as int) =~= old_targets.subrange(
                        start@[i] as int,
                        old_pos[i] as int,
                    ));
                    assert(targets_of(e, i, k + 1) =~= targets_of(e, i, k as int));
                }
            }
        }
        k = k + 1;
    }
    proof {
        assert forall|i: int| 0 <= i < n implies targets@.subrange(#[trigger] start@[i] as int, seg_end(start@, i, m as int))
            == targets_of(e, i, m as int) by {
            assert(pos@[i] == seg_end(start@, i, m as int));
        }
    }
    (start, targets)
}

} // verus!
