//! Sample-accurate parameter changes handed to a plugin for one processing
//! block: one queue of (sample offset, value) points per changed parameter.
//!
//! Values are carried as the bit patterns of their `f64` values.

use vstd::prelude::*;

verus! {

/// Value changes of one parameter, in the order they were added.
#[derive(Debug)]
pub struct ParamValueQueue {
    param_id: u32,
    points: Vec<(i32, u64)>,
}

impl ParamValueQueue {
    /// The parameter this queue is for.
    pub closed spec fn id(&self) -> u32 {
        self.param_id
    }

    /// The (sample offset, value bits) points, in insertion order.
    pub closed spec fn point_list(&self) -> Seq<(i32, u64)> {
        self.points@
    }

    /// Create an empty queue for a parameter.
    pub fn new(param_id: u32) -> (q: ParamValueQueue)
        ensures
            q.id() == param_id,
            q.point_list() == Seq::<(i32, u64)>::empty(),
    {
        ParamValueQueue { param_id, points: Vec::new() }
    }

    /// Add a value change at a specific sample offset.
    pub fn add_value(&mut self, sample_offset: i32, value_bits: u64)
        ensures
            final(self).id() == old(self).id(),
            final(self).point_list() == old(self).point_list().push((sample_offset, value_bits)),
    {
        self.points.push((sample_offset, value_bits));
    }

    /// Add a point and report the index it was stored at.
    pub fn add_point(&mut self, sample_offset: i32, value_bits: u64) -> (index: usize)
        ensures
            index == old(self).point_list().len(),
            final(self).id() == old(self).id(),
            final(self).point_list() == old(self).point_list().push((sample_offset, value_bits)),
    {
        let index = self.points.len();
        self.points.push((sample_offset, value_bits));
        index
    }

    /// The parameter this queue is for.
    pub fn parameter_id(&self) -> (r: u32)
        ensures
            r == self.id(),
    {
        self.param_id
    }

    /// Number of points, as reported to the plugin.
    pub fn point_count(&self) -> (r: i32)
        ensures
            r == self.point_list().len() as i32,
    {
        self.points.len() as i32
    }

    /// The point at `index`, or `None` when the index is negative or not
    /// below the reported point count.
    pub fn get_point(&self, index: i32) -> (r: Option<(i32, u64)>)
        ensures
            (index < 0 || index >= self.point_list().len() as i32) ==> r is None,
            !(index < 0 || index >= self.point_list().len() as i32) ==> r == Some(self.point_list()[index as int]),
    {
        if index < 0 || index >= self.points.len() as i32 {
            return None;
        }
        proof {
            assert(index < self.points.len()) by {
                if self.points.len() > i32::MAX {
                } else {
                    assert(self.points.len() as i32 == self.points.len());
                }
            }
        }
        Some(self.points[index as usize])
    }
}

/// The queues of a set of parameter changes.
#[derive(Debug)]
pub struct ParameterChanges {
    queues: Vec<ParamValueQueue>,
}

impl ParameterChanges {
    /// Parameter ids of the queues, in creation order.
    pub closed spec fn ids(&self) -> Seq<u32> {
        Seq::new(self.queues.len() as nat, |i: int| self.queues[i].param_id)
    }

    /// Points of the queue at position `i`.
    pub closed spec fn points_at(&self, i: int) -> Seq<(i32, u64)> {
        self.queues[i].points@
    }

    /// Each parameter has at most one queue.
    pub open spec fn wf(&self) -> bool {
        self.ids().no_duplicates()
    }

    /// Create a new empty parameter changes collection.
    pub fn new() -> (c: ParameterChanges)
        ensures
            c.wf(),
            c.ids() == Seq::<u32>::empty(),
    {
        let c = ParameterChanges { queues: Vec::new() };
        assert(c.ids() =~= Seq::<u32>::empty());
        c
    }

    /// Position of the queue for `id`, if there is one.
    fn find(&self, id: u32) -> (r: Option<usize>)
        ensures
            match r {
                Some(p) => p < self.ids().len() && self.ids()[p as int] == id,
                None => !self.ids().contains(id),
            },
    {
        let mut i: usize = 0;
        while i < self.queues.len()
            invariant
                i <= self.queues.len(),
                forall|j: int| 0 <= j < i ==> self.queues[j].param_id != id,
            decreases self.queues.len() - i,
        {
            if self.queues[i].param_id == id {
                return Some(i);
            }
            i = i + 1;
        }
        proof {
            if self.ids().contains(id) {
                let j = choose|j: int| 0 <= j < self.ids().len() && self.ids()[j] == id;
                assert(self.queues[j].param_id == id);
            }
        }
        None
    }

    /// Add a parameter change: appended to the parameter's queue, which is
    /// created (at the end) when the parameter has none yet.
    pub fn add_change(&mut self, param_id: u32, sample_offset: i32, value_bits: u64)
        requires
            old(self).wf(),
        ensures
            final(self).wf(),
            final(self).ids().contains(param_id),
            old(self).ids().contains(param_id) ==> final(self).ids() == old(self).ids(),
            !old(self).ids().contains(param_id) ==> final(self).ids() == old(self).ids().push(param_id),
            forall|i: int| 0 <= i < final(self).ids().len() ==> #[trigger] final(self).points_at(i) == if final(self).ids()[i] == param_id {
                (if i < old(self).ids().len() { old(self).points_at(i) } else { Seq::<(i32, u64)>::empty() }).push((sample_offset, value_bits))
            } else {
                old(self).points_at(i)
            },
    {
        match self.find(param_id) {
            Some(p) => {
                let ghost old_self = *self;
                let mut q = self.queues.remove(p);
                q.add_value(sample_offset, value_bits);
                self.queues.insert(p, q);
                proof {
                    assert(self.ids() =~= old_self.ids());
                    assert forall|i: int| 0 <= i < self.ids().len() implies #[trigger] self.points_at(i) == if self.ids()[i] == param_id {
                        (if i < old_self.ids().len() { old_self.points_at(i) } else { Seq::<(i32, u64)>::empty() }).push((sample_offset, value_bits))
                    } else {
                        old_self.points_at(i)
                    } by {
                        if i != p {
                            assert(self.queues[i] == old_self.queues[i]);
                            assert(old_self.ids()[i] != old_self.ids()[p as int]);
                        }
                    }
                }
            },
            None => {
                let ghost old_self = *self;
                let mut q = ParamValueQueue::new(param_id);
                q.add_value(sample_offset, value_bits);
                self.queues.push(q);
                proof {
                    assert(self.ids() =~= old_self.ids().push(param_id));
                    assert(self.ids()[self.ids().len() - 1] == param_id);
                    assert forall|i: int| 0 <= i < self.ids().len() implies #[trigger] self.points_at(i) == if self.ids()[i] == param_id {
                        (if i < old_self.ids().len() { old_self.points_at(i) } else { Seq::<(i32, u64)>::empty() }).push((sample_offset, value_bits))
                    } else {
                        old_self.points_at(i)
                    } by {
                        if i < old_self.ids().len() {
                            assert(self.queues[i] == old_self.queues[i]);
                            assert(old_self.ids().contains(old_self.ids()[i]));
                        }
                    }
                }
            },
        }
    }

    /// Position of the queue for a parameter, creating an empty queue at
    /// the end when there is none.
    pub fn add_parameter_data(&mut self, param_id: u32) -> (index: usize)
        requires
            old(self).wf(),
        ensures
            final(self).wf(),
            index < final(self).ids().len(),
            final(self).ids()[index as int] == param_id,
            old(self).ids().contains(param_id) ==> final(self).ids() == old(self).ids(),
            !old(self).ids().contains(param_id) ==> final(self).ids() == old(self).ids().push(param_id)
                && index == old(self).ids().len(),
            forall|i: int| 0 <= i < old(self).ids().len() ==> #[trigger] final(self).points_at(i) == old(self).points_at(i),
            !old(self).ids().contains(param_id) ==> final(self).points_at(index as int) == Seq::<(i32, u64)>::empty(),
    {
        match self.find(param_id) {
            Some(p) => p,
            None => {
                let ghost old_self = *self;
                self.queues.push(ParamValueQueue::new(param_id));
                proof {
                    assert(self.ids() =~= old_self.ids().push(param_id));
                    assert forall|i: int| 0 <= i < old_self.ids().len() implies #[trigger] self.points_at(i) == old_self.points_at(i) by {
                        assert(self.queues[i] == old_self.queues[i]);
                    }
                }
                self.queues.len() - 1
            },
        }
    }

    /// Number of parameters with changes, as reported to the plugin.
    pub fn parameter_count(&self) -> (r: i32)
        ensures
            r == self.ids().len() as i32,
    {
        self.queues.len() as i32
    }

    /// The queue at `index`, or `None` when the index is negative or not
    /// below the reported count.
    pub fn parameter_data(&self, index: i32) -> (r: Option<&ParamValueQueue>)
        ensures
            (index < 0 || index >= self.ids().len() as i32) ==> r is None,
            !(index < 0 || index >= self.ids().len() as i32) ==> (r matches Some(q) && q.id() == self.ids()[index as int]
                && q.point_list() == self.points_at(index as int)),
    {
        if index < 0 || index >= self.queues.len() as i32 {
            return None;
        }
        proof {
            assert(index < self.queues.len()) by {
                if self.queues.len() > i32::MAX {
                } else {
                    assert(self.queues.len() as i32 == self.queues.len());
                }
            }
        }
        Some(&self.queues[index as usize])
    }

    /// Clear all queues (for reuse).
    pub fn clear(&mut self)
        ensures
            final(self).wf(),
            final(self).ids() == Seq::<u32>::empty(),
    {
        self.queues.clear();
        assert(self.ids() =~= Seq::<u32>::empty());
    }
}

} // verus!
