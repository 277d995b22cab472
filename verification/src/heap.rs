//! Binary min-heap of `usize` values, kept in a vector in heap order.
//!
//! The heap hands out its smallest value first, whatever order the values
//! were pushed in; the dependency sort uses it to pick the smallest ready
//! node in logarithmic time.

use vstd::prelude::*;
use vstd::multiset::Multiset;

verus! {

/// Slot holding the parent of heap slot `i` (for `i > 0`).
pub open spec fn parent(i: int) -> int {
    (i - 1) / 2
}

/// Heap order: no slot holds less than its parent.
pub open spec fn heap_ordered(s: Seq<usize>) -> bool {
    forall|i: int| 0 < i < s.len() ==> s[parent(i)] <= #[trigger] s[i]
}

/// The root of a heap-ordered sequence is its smallest element.
proof fn lemma_root_min(s: Seq<usize>, i: int)
    requires
        heap_ordered(s),
        0 <= i < s.len(),
    ensures
        s[0] <= s[i],
    decreases i,
{
    if i > 0 {
        lemma_root_min(s, parent(i));
    }
}

/// Exchanging two slots keeps the multiset of values.
proof fn lemma_swap_multiset(s: Seq<usize>, i: int, j: int)
    requires
        0 <= i < s.len(),
        0 <= j < s.len(),
    ensures
        s.update(i, s[j]).update(j, s[i]).to_multiset() == s.to_multiset(),
{
    broadcast use vstd::seq_lib::group_to_multiset_ensures;

    let s1 = s.update(i, s[j]);
    vstd::seq_lib::to_multiset_update(s, i, s[j]);
    vstd::seq_lib::to_multiset_update(s1, j, s[i]);
    if i == j {
        assert(s.update(i, s[j]).update(j, s[i]) =~= s);
    } else {
        assert(s.to_multiset().count(s[i]) > 0);
        assert(s.to_multiset().count(s[j]) > 0);
        assert(s1.update(j, s[i]).to_multiset() =~= s.to_multiset());
    }
}

/// A min-heap of `usize` values.
pub struct MinHeap {
    items: Vec<usize>,
}

impl MinHeap {
    /// The values held, with their multiplicities.
    pub closed spec fn view(&self) -> Multiset<usize> {
        self.items@.to_multiset()
    }

    /// The slots are in heap order.
    pub closed spec fn wf(&self) -> bool {
        heap_ordered(self.items@)
    }

    /// An empty heap.
    pub fn new() -> (h: MinHeap)
        ensures
            h.wf(),
            h@ == Multiset::<usize>::empty(),
    {
        let h = MinHeap { items: Vec::new() };
        proof {
            vstd::seq_lib::to_multiset_len(h.items@);
            assert(h@ =~= Multiset::<usize>::empty());
        }
        h
    }

    /// Number of values held.
    pub fn len(&self) -> (n: usize)
        ensures
            n == self@.len(),
    {
        proof {
            vstd::seq_lib::to_multiset_len(self.items@);
        }
        self.items.len()
    }

    /// Add a value.
    pub fn push(&mut self, x: usize)
        requires
            old(self).wf(),
        ensures
            final(self).wf(),
            final(self)@ == old(self)@.insert(x),
    {
        let ghost target = old(self)@.insert(x);
        proof {
            vstd::seq_lib::to_multiset_build(self.items@, x);
        }
        self.items.push(x);
        let len = self.items.len();
        let mut k: usize = len - 1;
        while k > 0
            invariant
                len == self.items.len(),
                k < len,
                self.items@.to_multiset() == target,
                forall|i: int| 0 < i < len && i != k ==> self.items@[parent(i)] <= #[trigger] self.items@[i],
                k > 0 ==> forall|c: int|
                    0 < c < len && parent(c) == k ==> self.items@[parent(k as int)] <= #[trigger] self.items@[c],
            ensures
                self.items@.to_multiset() == target,
                heap_ordered(self.items@),
            decreases k,
        {
            let p = (k - 1) / 2;
            if self.items[p] <= self.items[k] {
                proof {
                    assert forall|i: int| 0 < i < len implies self.items@[parent(i)] <= #[trigger] self.items@[i] by {
                        if i == k {
                            assert(parent(i) == p);
                        }
                    }
                }
                break;
            }
            let ghost s = self.items@;
            let vp = self.items[p];
            let vk = self.items[k];
            self.items.set(p, vk);
            self.items.set(k, vp);
            proof {
                lemma_swap_multiset(s, p as int, k as int);
                assert(self.items@ =~= s.update(p as int, s[k as int]).update(k as int, s[p as int]));
                let t = self.items@;
                assert forall|i: int| 0 < i < len && i != p implies t[parent(i)] <= #[trigger] t[i] by {
                    if i == k {
                    } else if parent(i) == k {
                        assert(s[parent(k as int)] <= s[i]);
                    } else if parent(i) == p {
                        assert(s[p as int] <= s[i]);
                    } else {
                        assert(s[parent(i)] <= s[i]);
                    }
                }
                if p > 0 {
                    assert forall|c: int| 0 < c < len && parent(c) == p implies t[parent(p as int)] <= #[trigger] t[c] by {
                        assert(s[parent(p as int)] <= s[p as int]);
                        if c == k {
                        } else {
                            assert(s[p as int] <= s[c]);
                        }
                    }
                }
            }
            k = p;
        }
    }

    /// Remove and return the smallest value, or `None` when the heap is
    /// empty.
    pub fn pop(&mut self) -> (r: Option<usize>)
        requires
            old(self).wf(),
        ensures
            final(self).wf(),
            match r {
                None => old(self)@.len() == 0 && final(self)@ == old(self)@,
                Some(m) => {
                    &&& old(self)@.count(m) > 0
                    &&& forall|x: usize| old(self)@.count(x) > 0 ==> m <= x
                    &&& final(self)@ == old(self)@.remove(m)
                },
            },
    {
        broadcast use vstd::seq_lib::group_to_multiset_ensures;

        let n = self.items.len();
        if n == 0 {
            proof {
                vstd::seq_lib::to_multiset_len(self.items@);
            }
            return None;
        }
        let ghost s0 = self.items@;
        let top = self.items[0];
        proof {
            assert forall|x: usize| s0.to_multiset().count(x) > 0 implies top <= x by {
                vstd::seq_lib::to_multiset_contains(s0, x);
                let i = choose|i: int| 0 <= i < s0.len() && s0[i] == x;
                lemma_root_min(s0, i);
            }
            vstd::seq_lib::to_multiset_contains(s0, top);
        }
        let last = self.items.pop().unwrap();
        let ghost target = s0.to_multiset().remove(top);
        proof {
            assert(s0.remove(n - 1) =~= self.items@);
            vstd::seq_lib::to_multiset_remove(s0, n - 1);
        }
        if n == 1 {
            proof {
                assert(self.items@.to_multiset() == s0.to_multiset().remove(last));
                assert(self.items@.to_multiset() =~= target);
            }
            return Some(top);
        }
        let ghost s1 = self.items@;
        self.items.set(0, last);
        proof {
            vstd::seq_lib::to_multiset_update(s1, 0, last);
            assert(s1.to_multiset().count(top) > 0) by {
                vstd::seq_lib::to_multiset_contains(s1, top);
                assert(s1[0] == top);
            }
            assert(self.items@.to_multiset() =~= target);
        }
        let len = self.items.len();
        let mut k: usize = 0;
        loop
            invariant
                len == self.items.len(),
                len == n - 1,
                k < len,
                self.items@.to_multiset() == target,
                forall|i: int| 0 < i < len && parent(i) != k ==> self.items@[parent(i)] <= #[trigger] self.items@[i],
                k > 0 ==> forall|c: int|
                    0 < c < len && parent(c) == k ==> self.items@[parent(k as int)] <= #[trigger] self.items@[c],
            ensures
                len == self.items.len(),
                self.items@.to_multiset() == target,
                heap_ordered(self.items@),
            decreases len - k,
        {
            if k >= len / 2 {
                proof {
                    assert forall|i: int| 0 < i < len implies self.items@[parent(i)] <= #[trigger] self.items@[i] by {
                        assert(parent(i) != k);
                    }
                }
                break;
            }
            let l = 2 * k + 1;
            let r = l + 1;
            let m = if r < len && self.items[r] < self.items[l] {
                r
            } else {
                l
            };
            if self.items[k] <= self.items[m] {
                proof {
                    assert forall|i: int| 0 < i < len implies self.items@[parent(i)] <= #[trigger] self.items@[i] by {
                        if parent(i) == k {
                            assert(i == l || i == r);
                        }
                    }
                }
                break;
            }
            let ghost s = self.items@;
            let vk = self.items[k];
            let vm = self.items[m];
            self.items.set(k, vm);
            self.items.set(m, vk);
            proof {
                lemma_swap_multiset(s, k as int, m as int);
                assert(self.items@ =~= s.update(k as int, s[m as int]).update(m as int, s[k as int]));
                let t = self.items@;
                assert(parent(m as int) == k);
                assert forall|i: int| 0 < i < len && parent(i) != m implies t[parent(i)] <= #[trigger] t[i] by {
                    if i == m {
                    } else if parent(i) == k {
                        assert(i == l || i == r);
                        assert(s[m as int] <= s[i]);
                    } else if i == k {
                        assert(s[parent(k as int)] <= s[m as int]);
                    } else {
                        assert(s[parent(i)] <= s[i]);
                    }
                }
                assert forall|c: int| 0 < c < len && parent(c) == m implies t[parent(m as int)] <= #[trigger] t[c] by {
                    assert(s[m as int] <= s[c]);
                }
            }
            k = m;
        }
        Some(top)
    }
}

} // verus!
