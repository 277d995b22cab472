//! Topology of the audio processing graph: nodes, connections and the order
//! in which nodes are processed.
//!
//! The graph keeps, for every node, its id, where its plugin came from and
//! its channel counts; the plugin instances themselves and their audio
//! buffers are owned by the host that drives the graph.

use vstd::prelude::*;
use crate::errors::PluginError;
use crate::text::{decimal, text_with_number};
use crate::topology::{
    edges_at, is_schedule, kahn, lemma_topo_sort_err, lemma_topo_sort_schedulable, none_done, processing_order_of,
    respects, schedulable, sort_positions, strictly_increasing, topo_sort,
};

verus! {

/// Where the plugin of a node came from (needed to save the graph).
#[derive(Debug, Clone, PartialEq, Eq)]
pub enum PluginSource {
    /// Built-in processor, by name
    Builtin { name: String },
    /// VST3 bundle, by path
    Vst3 { path: String },
    /// Source not recorded (such a node cannot be saved)
    Unknown,
}

/// A node of the audio graph.
#[derive(Debug, Clone)]
pub struct AudioNode {
    id: usize,
    source: PluginSource,
    inputs: usize,
    outputs: usize,
}

impl AudioNode {
    pub closed spec fn spec_id(&self) -> usize {
        self.id
    }

    pub closed spec fn spec_inputs(&self) -> usize {
        self.inputs
    }

    pub closed spec fn spec_outputs(&self) -> usize {
        self.outputs
    }

    pub closed spec fn spec_source(&self) -> PluginSource {
        self.source
    }

    /// Get the node's ID
    pub fn id(&self) -> (r: usize)
        ensures
            r == self.spec_id(),
    {
        self.id
    }

    /// Get the number of input channels
    pub fn inputs(&self) -> (r: usize)
        ensures
            r == self.spec_inputs(),
    {
        self.inputs
    }

    /// Get the number of output channels
    pub fn outputs(&self) -> (r: usize)
        ensures
            r == self.spec_outputs(),
    {
        self.outputs
    }

    /// Where the node's plugin came from
    pub fn source(&self) -> (r: &PluginSource)
        ensures
            *r == self.spec_source(),
    {
        &self.source
    }
}

/// Connection between two nodes
#[derive(Debug, Clone, Copy, PartialEq, Eq, Hash, Structural)]
pub struct Connection {
    pub from: usize,
    pub to: usize,
}

/// The audio processing graph.
#[derive(Debug)]
pub struct AudioGraph {
    nodes: Vec<AudioNode>,
    connections: Vec<Connection>,
    next_id: usize,
    sample_rate: u32,
    block_size: usize,
    processing_order: Vec<usize>,
}

/// Ids of a node list, in list order.
pub open spec fn ids_of(nodes: Seq<AudioNode>) -> Seq<usize> {
    Seq::new(nodes.len(), |i: int| nodes[i].spec_id())
}

/// Removing a node from a list removes its id from the id list.
pub proof fn lemma_ids_of_remove(nodes: Seq<AudioNode>, p: int)
    requires
        0 <= p < nodes.len(),
    ensures
        ids_of(nodes.remove(p)) == ids_of(nodes).remove(p),
{
    assert(ids_of(nodes.remove(p)) =~= ids_of(nodes).remove(p));
}

/// Edge set of a connection list.
pub open spec fn edges_of(conns: Seq<Connection>) -> Set<(usize, usize)> {
    Set::new(|e: (usize, usize)| exists|k: int| 0 <= k < conns.len() && conns[k].from == e.0 && conns[k].to == e.1)
}

/// Whether a connection stays when the node `id` is removed.
pub open spec fn avoids(id: usize) -> spec_fn(Connection) -> bool {
    |c: Connection| c.from != id && c.to != id
}

/// What connecting `from` to `to` in `g` yields: the result `res` and the
/// graph `h`. Both nodes must exist (else the error names the first missing
/// one); a new connection goes to the end of the list, an existing one is
/// kept as it is; nodes and configuration stay.
pub open spec fn connect_outcome(g: AudioGraph, from: usize, to: usize, res: Result<(), String>, h: AudioGraph) -> bool {
    &&& h.node_list() == g.node_list()
    &&& h.spec_next_id() == g.spec_next_id()
    &&& h.spec_sample_rate() == g.spec_sample_rate()
    &&& h.spec_block_size() == g.spec_block_size()
    &&& !g.ids().contains(from) ==> (res matches Err(m) && m@ == "Source node "@ + decimal(from as nat) + " not found"@)
    &&& g.ids().contains(from) && !g.ids().contains(to) ==> (res matches Err(m) && m@ == "Destination node "@ + decimal(
        to as nat,
    ) + " not found"@)
    &&& res is Ok <==> g.ids().contains(from) && g.ids().contains(to)
    &&& res is Ok ==> h.edges() == g.edges().insert((from, to))
    &&& res is Ok && !g.edges().contains((from, to)) ==> h.connection_list() == g.connection_list().push(
        Connection { from, to },
    )
    &&& res is Ok && g.edges().contains((from, to)) ==> h.connection_list() == g.connection_list()
    &&& res is Err ==> h.connection_list() == g.connection_list()
}

/// What disconnecting `from` from `to` in `g` yields: the graph `h`, in which
/// that one connection, if present, is taken out of the list; nodes and
/// configuration stay.
pub open spec fn disconnect_outcome(g: AudioGraph, from: usize, to: usize, h: AudioGraph) -> bool {
    &&& h.node_list() == g.node_list()
    &&& h.spec_next_id() == g.spec_next_id()
    &&& h.spec_sample_rate() == g.spec_sample_rate()
    &&& h.spec_block_size() == g.spec_block_size()
    &&& h.edges() == g.edges().remove((from, to))
    &&& g.edges().contains((from, to)) ==> exists|k: int|
        0 <= k < g.connection_list().len() && g.connection_list()[k] == (Connection { from, to })
            && h.connection_list() == g.connection_list().remove(k)
    &&& !g.edges().contains((from, to)) ==> h.connection_list() == g.connection_list()
}

/// The node of one processed block whose output becomes the system output:
/// the last node of `order` that ran (`ran[i]` tells whether `order[i]`
/// ran), or `None` when none ran and the output is silence.
pub fn output_node(order: &Vec<usize>, ran: &Vec<bool>) -> (r: Option<usize>)
    requires
        ran.len() == order.len(),
    ensures
        match r {
            Some(id) => exists|i: int|
                0 <= i < order.len() && ran[i] && order[i] == id && forall|j: int| i < j < order.len() ==> !ran[j],
            None => forall|i: int| 0 <= i < ran.len() ==> !ran[i],
        },
{
    let mut k = order.len();
    while k > 0
        invariant
            k <= order.len(),
            ran.len() == order.len(),
            forall|j: int| k <= j < order.len() ==> !ran[j],
        decreases k,
    {
        if ran[k - 1] {
            return Some(order[k - 1]);
        }
        k = k - 1;
    }
    None
}

impl AudioGraph {
    /// The nodes, in increasing id order.
    pub closed spec fn node_list(&self) -> Seq<AudioNode> {
        self.nodes@
    }

    /// The connections, in the order they were made.
    pub closed spec fn connection_list(&self) -> Seq<Connection> {
        self.connections@
    }

    /// Node ids in increasing order.
    pub open spec fn ids(&self) -> Seq<usize> {
        ids_of(self.node_list())
    }

    /// Set of `(from, to)` pairs that are connected.
    pub open spec fn edges(&self) -> Set<(usize, usize)> {
        edges_of(self.connection_list())
    }

    /// The id the next added node receives.
    pub closed spec fn spec_next_id(&self) -> usize {
        self.next_id
    }

    pub closed spec fn spec_sample_rate(&self) -> u32 {
        self.sample_rate
    }

    pub closed spec fn spec_block_size(&self) -> usize {
        self.block_size
    }

    /// The order in which nodes are processed.
    pub closed spec fn spec_processing_order(&self) -> Seq<usize> {
        self.processing_order@
    }

    /// Graph invariant: ids strictly increase and are below the next id;
    /// every connection joins existing nodes and appears once; the
    /// processing order is the dependency order (id order on a cycle).
    pub closed spec fn wf(&self) -> bool {
        &&& self.wf_except_order()
        &&& self.processing_order@ == processing_order_of(self.ids(), self.edges())
    }

    /// In a well-formed graph ids are strictly increasing (hence distinct)
    /// and every edge joins two existing nodes.
    pub proof fn lemma_wf_facts(&self)
        requires
            self.wf(),
        ensures
            strictly_increasing(self.ids()),
            self.ids().no_duplicates(),
            forall|e: (usize, usize)| #[trigger] self.edges().contains(e) ==> self.ids().contains(e.0) && self.ids().contains(e.1),
            self.spec_processing_order() == processing_order_of(self.ids(), self.edges()),
            self.node_list().len() <= usize::MAX,
            forall|a: int, b: int|
                0 <= a < b < self.connection_list().len() ==> self.connection_list()[a] != self.connection_list()[b],
    {
        assert forall|e: (usize, usize)| #[trigger] self.edges().contains(e) implies self.ids().contains(e.0) && self.ids().contains(e.1) by {
            let k = choose|k: int| 0 <= k < self.connections.len() && self.connections[k].from == e.0 && self.connections[k].to == e.1;
            assert(self.ids().contains(self.connections[k].from));
        }
    }

    /// Create a new empty audio graph (48 kHz, 512-frame blocks).
    pub fn new() -> (g: AudioGraph)
        ensures
            g.wf(),
            g.ids() == Seq::<usize>::empty(),
            g.edges() == Set::<(usize, usize)>::empty(),
            g.spec_next_id() == 0,
            g.spec_sample_rate() == 48000,
            g.spec_block_size() == 512,
    {
        Self::with_config(48000, 512)
    }

    /// Create a new audio graph with a specific sample rate and block size.
    pub fn with_config(sample_rate: u32, block_size: usize) -> (g: AudioGraph)
        ensures
            g.wf(),
            g.ids() == Seq::<usize>::empty(),
            g.node_list() == Seq::<AudioNode>::empty(),
            g.connection_list() == Seq::<Connection>::empty(),
            g.edges() == Set::<(usize, usize)>::empty(),
            g.spec_next_id() == 0,
            g.spec_sample_rate() == sample_rate,
            g.spec_block_size() == block_size,
            g.spec_processing_order() == Seq::<usize>::empty(),
    {
        let g = AudioGraph {
            nodes: Vec::new(),
            connections: Vec::new(),
            next_id: 0,
            sample_rate,
            block_size,
            processing_order: Vec::new(),
        };
        proof {
            assert(g.ids() =~= Seq::<usize>::empty());
            assert(g.edges() =~= Set::<(usize, usize)>::empty());
            assert(kahn(g.ids(), g.edges(), none_done(0)) =~= seq![]);
        }
        g
    }

    /// Update the graph configuration.
    pub fn set_config(&mut self, sample_rate: u32, block_size: usize)
        requires
            old(self).wf(),
        ensures
            final(self).wf(),
            final(self).node_list() == old(self).node_list(),
            final(self).connection_list() == old(self).connection_list(),
            final(self).spec_next_id() == old(self).spec_next_id(),
            final(self).spec_processing_order() == old(self).spec_processing_order(),
            final(self).spec_sample_rate() == sample_rate,
            final(self).spec_block_size() == block_size,
    {
        self.sample_rate = sample_rate;
        self.block_size = block_size;
    }

    /// The nodes, in increasing id order.
    pub fn nodes(&self) -> (r: &Vec<AudioNode>)
        ensures
            r@ == self.node_list(),
    {
        &self.nodes
    }

    /// The connections.
    pub fn connections(&self) -> (r: &Vec<Connection>)
        ensures
            r@ == self.connection_list(),
    {
        &self.connections
    }

    /// The configured sample rate.
    pub fn sample_rate(&self) -> (r: u32)
        ensures
            r == self.spec_sample_rate(),
    {
        self.sample_rate
    }

    /// The configured block size.
    pub fn block_size(&self) -> (r: usize)
        ensures
            r == self.spec_block_size(),
    {
        self.block_size
    }

    /// The id the next added node receives.
    pub fn next_id(&self) -> (r: usize)
        ensures
            r == self.spec_next_id(),
    {
        self.next_id
    }

    /// The order in which nodes are processed.
    pub fn processing_order(&self) -> (r: &Vec<usize>)
        ensures
            r@ == self.spec_processing_order(),
    {
        &self.processing_order
    }

    /// Position of the node with the given id.
    fn find_position(&self, id: usize) -> (r: Option<usize>)
        ensures
            match r {
                Some(p) => p < self.nodes.len() && self.nodes[p as int].id == id,
                None => !self.ids().contains(id),
            },
    {
        let mut i: usize = 0;
        while i < self.nodes.len()
            invariant
                i <= self.nodes.len(),
                forall|j: int| 0 <= j < i ==> self.nodes[j].id != id,
            decreases self.nodes.len() - i,
        {
            if self.nodes[i].id == id {
                return Some(i);
            }
            i = i + 1;
        }
        proof {
            if self.ids().contains(id) {
                let j = choose|j: int| 0 <= j < self.ids().len() && self.ids()[j] == id;
                assert(self.nodes[j].id == id);
            }
        }
        None
    }

    /// Whether a node with this id exists.
    pub fn contains_node(&self, id: usize) -> (r: bool)
        ensures
            r == self.ids().contains(id),
    {
        match self.find_position(id) {
            Some(p) => {
                assert(self.ids()[p as int] == id);
                true
            },
            None => false,
        }
    }

    /// The node with this id, if any.
    pub fn node(&self, id: usize) -> (r: Option<&AudioNode>)
        ensures
            match r {
                Some(n) => n.spec_id() == id && self.node_list().contains(*n),
                None => !self.ids().contains(id),
            },
    {
        match self.find_position(id) {
            Some(p) => {
                assert(self.node_list()[p as int] == self.nodes[p as int]);
                Some(&self.nodes[p])
            },
            None => None,
        }
    }

    /// Dependency sort of the nodes (Kahn's algorithm, smallest ready id first).
    ///
    /// Returns `Ok(order)` when the graph is acyclic, `Err(remaining)` with the
    /// nodes that could not be placed (in id order) when it has a cycle.
    pub fn topological_sort(&self) -> (res: Result<Vec<usize>, Vec<usize>>)
        requires
            self.wf(),
        ensures
            match (res, topo_sort(self.ids(), self.edges())) {
                (Ok(o), Ok(s)) => o@ == s,
                (Err(o), Err(s)) => o@ == s,
                _ => false,
            },
            res is Ok <==> schedulable(self.ids(), self.edges()),
            res matches Ok(o) ==> is_schedule(o@, self.ids(), self.edges()),
            res matches Err(rest) ==> rest@.len() > 0 && forall|x: usize| #[trigger] rest@.contains(x) ==> self.ids().contains(x)
                && exists|y: usize| rest@.contains(y) && self.edges().contains((y, x)),
    {
        proof {
            self.lemma_wf_facts();
            lemma_topo_sort_schedulable(self.ids(), self.edges());
            if topo_sort(self.ids(), self.edges()) is Err {
                lemma_topo_sort_err(self.ids(), self.edges());
            }
        }
        self.sort_current()
    }

    /// Add a node whose plugin has been initialised (or failed to).
    ///
    /// `initialized` is the outcome of initialising the node's plugin at the
    /// graph's sample rate and block size: its input and output channel
    /// counts, or the initialisation error. An id is used up either way.
    pub fn add_node(&mut self, source: PluginSource, initialized: Result<(usize, usize), PluginError>) -> (res: Result<usize, PluginError>)
        requires
            old(self).wf(),
            old(self).spec_next_id() < usize::MAX,
        ensures
            final(self).wf(),
            final(self).spec_next_id() == old(self).spec_next_id() + 1,
            final(self).connection_list() == old(self).connection_list(),
            final(self).spec_sample_rate() == old(self).spec_sample_rate(),
            final(self).spec_block_size() == old(self).spec_block_size(),
            match initialized {
                Ok((ins, outs)) => {
                    &&& res == Ok::<usize, PluginError>(old(self).spec_next_id())
                    &&& !old(self).ids().contains(old(self).spec_next_id())
                    &&& final(self).node_list().len() == old(self).node_list().len() + 1
                    &&& final(self).node_list().drop_last() == old(self).node_list()
                    &&& final(self).node_list().last().spec_id() == old(self).spec_next_id()
                    &&& final(self).node_list().last().spec_source() == source
                    &&& final(self).node_list().last().spec_inputs() == ins
                    &&& final(self).node_list().last().spec_outputs() == outs
                },
                Err(e) => {
                    &&& res == Err::<usize, PluginError>(e)
                    &&& final(self).node_list() == old(self).node_list()
                    &&& final(self).spec_processing_order() == old(self).spec_processing_order()
                },
            },
    {
        let id = self.next_id;
        proof {
            if self.ids().contains(id) {
                let j = choose|j: int| 0 <= j < self.ids().len() && self.ids()[j] == id;
                assert(self.nodes[j].id < self.next_id);
            }
        }
        self.next_id = self.next_id + 1;
        match initialized {
            Err(e) => Err(e),
            Ok((inputs, outputs)) => {
                let ghost old_ids = self.ids();
                self.nodes.push(AudioNode { id, source, inputs, outputs });
                proof {
                    assert(self.ids() =~= old_ids.push(id));
                    assert forall|k: int| 0 <= k < self.connections.len() implies self.ids().contains(
                        (#[trigger] self.connections[k]).from,
                    ) && self.ids().contains(self.connections[k].to) by {
                        assert(old_ids.contains(self.connections[k].from));
                        assert(old_ids.contains(self.connections[k].to));
                        let a = choose|a: int| 0 <= a < old_ids.len() && old_ids[a] == self.connections[k].from;
                        let b = choose|b: int| 0 <= b < old_ids.len() && old_ids[b] == self.connections[k].to;
                        assert(self.ids()[a] == old_ids[a]);
                        assert(self.ids()[b] == old_ids[b]);
                    }
                }
                self.update_processing_order();
                Ok(id)
            },
        }
    }

    /// Remove a node and every connection that involves it.
    pub fn remove_node(&mut self, id: usize) -> (r: Option<AudioNode>)
        requires
            old(self).wf(),
        ensures
            final(self).wf(),
            final(self).spec_next_id() == old(self).spec_next_id(),
            final(self).spec_sample_rate() == old(self).spec_sample_rate(),
            final(self).spec_block_size() == old(self).spec_block_size(),
            final(self).edges() == old(self).edges().filter(|e: (usize, usize)| e.0 != id && e.1 != id),
            match r {
                Some(n) => {
                    &&& old(self).ids().contains(id)
                    &&& !final(self).ids().contains(id)
                    &&& n == old(self).node_list()[old(self).ids().index_of(id)]
                    &&& final(self).node_list() == old(self).node_list().remove(old(self).ids().index_of(id))
                    &&& final(self).connection_list() == old(self).connection_list().filter(avoids(id))
                },
                None => {
                    &&& !old(self).ids().contains(id)
                    &&& *final(self) == *old(self)
                    &&& final(self).node_list() == old(self).node_list()
                    &&& final(self).connection_list() == old(self).connection_list()
                    &&& final(self).spec_processing_order() == old(self).spec_processing_order()
                },
            },
    {
        let ghost old_edges = self.edges();
        let ghost old_ids = self.ids();
        let ghost old_nodes = self.nodes@;
        let p = match self.find_position(id) {
            None => {
                proof {
                    assert forall|e: (usize, usize)| old_edges.contains(e) implies e.0 != id && e.1 != id by {
                        let t = choose|t: int| 0 <= t < self.connections.len() && self.connections[t].from == e.0 && self.connections[t].to == e.1;
                        assert(old_ids.contains(self.connections[t].from));
                        assert(old_ids.contains(self.connections[t].to));
                    }
                    assert(old_edges =~= old_edges.filter(|e: (usize, usize)| e.0 != id && e.1 != id));
                }
                return None;
            },
            Some(p) => p,
        };
        // keep only the connections that do not involve the node
        let mut kept: Vec<Connection> = Vec::new();
        let mut k: usize = 0;
        while k < self.connections.len()
            invariant
                k <= self.connections.len(),
                forall|t: int| 0 <= t < kept.len() ==> (#[trigger] kept[t]).from != id && kept[t].to != id,
                forall|t: int| 0 <= t < kept.len() ==> exists|u: int| 0 <= u < k && self.connections[u] == #[trigger] kept[t],
                forall|u: int| 0 <= u < k && (#[trigger] self.connections[u]).from != id && self.connections[u].to != id ==> kept@.contains(self.connections[u]),
                forall|a: int, b: int| 0 <= a < b < kept.len() ==> kept[a] != kept[b],
                forall|a: int, b: int| 0 <= a < b < self.connections.len() ==> self.connections[a] != self.connections[b],
                kept@ == self.connections@.take(k as int).filter(avoids(id)),
            decreases self.connections.len() - k,
        {
            let c = self.connections[k];
            proof {
                assert(self.connections@.take(k + 1).drop_last() =~= self.connections@.take(k as int));
                assert(self.connections@.take(k + 1).last() == c);
            }
            if c.from != id && c.to != id {
                proof {
                    assert forall|t: int| 0 <= t < kept.len() implies kept[t] != c by {
                        let u = choose|u: int| 0 <= u < k && self.connections[u] == #[trigger] kept[t];
                    }
                }
                let ghost prev = kept@;
                kept.push(c);
                proof {
                    assert(kept@ == prev.push(c));
                    assert(kept@[kept.len() - 1] == c);
                    assert(kept@.contains(c));
                    assert forall|t: int| 0 <= t < kept.len() implies exists|u: int| 0 <= u < k + 1 && self.connections[u] == #[trigger] kept[t] by {
                        if t == kept.len() - 1 {
                            assert(self.connections[k as int] == kept[t]);
                        } else {
                            assert(kept[t] == prev[t]);
                            let u = choose|u: int| 0 <= u < k && self.connections[u] == #[trigger] prev[t];
                        }
                    }
                    assert forall|u: int| 0 <= u < k + 1 && (#[trigger] self.connections[u]).from != id && self.connections[u].to != id implies kept@.contains(self.connections[u]) by {
                        if u < k {
                            assert(prev.contains(self.connections[u]));
                            let t = choose|t: int| 0 <= t < prev.len() && prev[t] == self.connections[u];
                            assert(kept@[t] == self.connections[u]);
                        }
                    }
                }
            }
            proof {
                let t = self.connections@.take(k + 1);
                reveal(Seq::filter);
                assert(t.filter(avoids(id)) == if avoids(id)(t.last()) {
                    t.drop_last().filter(avoids(id)).push(t.last())
                } else {
                    t.drop_last().filter(avoids(id))
                });
            }
            k = k + 1;
        }
        proof {
            let q = old_ids.index_of(id);
            assert(old_ids[p as int] == id);
            assert(old_ids.contains(id));
            assert(old_ids[q] == id);
            if q < p {
                assert(old_ids[q] < old_ids[p as int]);
            } else if q > p {
                assert(old_ids[p as int] < old_ids[q]);
            }
        }
        let node = self.nodes.remove(p);
        let ghost old_conns = self.connections@;
        proof {
            assert(old_conns.take(old_conns.len() as int) =~= old_conns);
        }
        self.connections = kept;
        proof {
            let new_ids = self.ids();
            assert(new_ids =~= old_ids.remove(p as int));
            assert forall|e: (usize, usize)| self.edges().contains(e) <==> old_edges.filter(|e: (usize, usize)| e.0 != id && e.1 != id).contains(e) by {
                if self.edges().contains(e) {
                    let t = choose|t: int| 0 <= t < self.connections.len() && self.connections[t].from == e.0 && self.connections[t].to == e.1;
                    let u = choose|u: int| 0 <= u < old_conns.len() && old_conns[u] == #[trigger] self.connections[t];
                    assert(old_edges.contains(e));
                }
                if old_edges.filter(|e: (usize, usize)| e.0 != id && e.1 != id).contains(e) {
                    assert(old_edges.contains(e));
                    let u = choose|u: int| 0 <= u < old_conns.len() && old_conns[u].from == e.0 && old_conns[u].to == e.1;
                    assert(self.connections@.contains(old_conns[u]));
                    let t = choose|t: int| 0 <= t < self.connections.len() && self.connections[t] == old_conns[u];
                    assert(self.connections[t].from == e.0);
                }
            }
            assert(self.edges() =~= old_edges.filter(|e: (usize, usize)| e.0 != id && e.1 != id));
            assert forall|k2: int| 0 <= k2 < self.connections.len() implies new_ids.contains((#[trigger] self.connections[k2]).from) && new_ids.contains(self.connections[k2].to) by {
                let u = choose|u: int| 0 <= u < old_conns.len() && old_conns[u] == #[trigger] self.connections[k2];
                let x = self.connections[k2].from;
                let y = self.connections[k2].to;
                assert(old_ids.contains(x));
                assert(old_ids.contains(y));
                let a = choose|a: int| 0 <= a < old_ids.len() && old_ids[a] == x;
                let b = choose|b: int| 0 <= b < old_ids.len() && old_ids[b] == y;
                assert(a != p);
                assert(b != p);
                if a < p {
                    assert(new_ids[a] == x);
                } else {
                    assert(new_ids[a - 1] == x);
                }
                if b < p {
                    assert(new_ids[b] == y);
                } else {
                    assert(new_ids[b - 1] == y);
                }
            }
            assert forall|i: int, j: int| 0 <= i < j < new_ids.len() implies new_ids[i] < new_ids[j] by {
                let i2 = if i < p { i } else { i + 1 };
                let j2 = if j < p { j } else { j + 1 };
                assert(new_ids[i] == old_ids[i2]);
                assert(new_ids[j] == old_ids[j2]);
            }
            assert forall|i: int| 0 <= i < self.nodes.len() implies (#[trigger] self.nodes[i]).id < self.next_id by {
                let i2 = if i < p { i } else { i + 1 };
                assert(self.nodes[i] == old_nodes[i2]);
            }
        }
        self.update_processing_order();
        Some(node)
    }

    /// Connect two nodes (a no-op when they are connected already).
    pub fn connect(&mut self, from: usize, to: usize) -> (res: Result<(), String>)
        requires
            old(self).wf(),
        ensures
            final(self).wf(),
            connect_outcome(*old(self), from, to, res, *final(self)),
    {
        if !self.contains_node(from) {
            return Err(text_with_number("Source node ", from as u64, " not found"));
        }
        if !self.contains_node(to) {
            return Err(text_with_number("Destination node ", to as u64, " not found"));
        }
        let conn = Connection { from, to };
        let mut k: usize = 0;
        while k < self.connections.len()
            invariant
                self.wf(),
                conn == (Connection { from, to }),
                self.ids().contains(from),
                self.ids().contains(to),
                k <= self.connections.len(),
                forall|t: int| 0 <= t < k ==> self.connections[t] != conn,
            decreases self.connections.len() - k,
        {
            if self.connections[k] == conn {
                proof {
                    assert(self.edges().contains((from, to)));
                    assert(self.edges() =~= self.edges().insert((from, to)));
                }
                return Ok(());
            }
            k = k + 1;
        }
        let ghost old_edges = self.edges();
        let ghost old_conns = self.connections@;
        proof {
            if old_edges.contains((from, to)) {
                let t = choose|t: int| 0 <= t < old_conns.len() && old_conns[t].from == from && old_conns[t].to == to;
                assert(self.connections[t] == conn);
            }
        }
        self.connections.push(conn);
        proof {
            assert(self.connections@ == old_conns.push(conn));
            assert forall|e: (usize, usize)| self.edges().contains(e) <==> old_edges.insert((from, to)).contains(e) by {
                if self.edges().contains(e) {
                    let t = choose|t: int| 0 <= t < self.connections.len() && self.connections[t].from == e.0 && self.connections[t].to == e.1;
                    if t < self.connections.len() - 1 {
                        assert(self.connections[t] == old_conns[t]);
                        assert(old_edges.contains(e));
                    }
                }
                if old_edges.contains(e) {
                    let t = choose|t: int| 0 <= t < old_conns.len() && old_conns[t].from == e.0 && old_conns[t].to == e.1;
                    assert(self.connections[t] == old_conns[t]);
                }
                if e == (from, to) {
                    assert(self.connections[self.connections.len() - 1] == conn);
                }
            }
            assert(self.edges() =~= old_edges.insert((from, to)));
        }
        self.update_processing_order();
        Ok(())
    }

    /// Disconnect two nodes (a no-op when they are not connected).
    pub fn disconnect(&mut self, from: usize, to: usize)
        requires
            old(self).wf(),
        ensures
            final(self).wf(),
            disconnect_outcome(*old(self), from, to, *final(self)),
    {
        let conn = Connection { from, to };
        let mut k: usize = 0;
        while k < self.connections.len()
            invariant
                self.wf(),
                self.nodes@ == old(self).nodes@,
                self.connections@ == old(self).connections@,
                self.next_id == old(self).next_id,
                self.sample_rate == old(self).sample_rate,
                self.block_size == old(self).block_size,
                conn == (Connection { from, to }),
                k <= self.connections.len(),
                forall|t: int| 0 <= t < k ==> self.connections[t] != conn,
            decreases self.connections.len() - k,
        {
            if self.connections[k] == conn {
                let ghost old_conns = self.connections@;
                let ghost old_edges = self.edges();
                self.connections.remove(k);
                proof {
                    assert(old_conns[k as int] == conn);
                    assert(self.connections@ == old_conns.remove(k as int));
                    assert forall|e: (usize, usize)| self.edges().contains(e) <==> old_edges.remove((from, to)).contains(e) by {
                        if self.edges().contains(e) {
                            let t = choose|t: int| 0 <= t < self.connections.len() && self.connections[t].from == e.0 && self.connections[t].to == e.1;
                            if t < k {
                                assert(old_conns[t] == self.connections[t]);
                            } else {
                                assert(old_conns[t + 1] == self.connections[t]);
                            }
                        }
                        if old_edges.remove((from, to)).contains(e) {
                            let t = choose|t: int| 0 <= t < old_conns.len() && old_conns[t].from == e.0 && old_conns[t].to == e.1;
                            if t < k {
                                assert(old_conns[t] == self.connections[t]);
                            } else if t > k {
                                assert(old_conns[t] == self.connections[t - 1]);
                            }
                        }
                    }
                    assert(self.edges() =~= old_edges.remove((from, to)));
                    assert forall|k2: int| 0 <= k2 < self.connections.len() implies self.ids().contains((#[trigger] self.connections[k2]).from) && self.ids().contains(self.connections[k2].to) by {
                        if k2 < k {
                            assert(old_conns[k2] == self.connections[k2]);
                        } else {
                            assert(old_conns[k2 + 1] == self.connections[k2]);
                        }
                    }
                    assert forall|a: int, b: int| 0 <= a < b < self.connections.len() implies self.connections[a] != self.connections[b] by {
                        let a2 = if a < k { a } else { a + 1 };
                        let b2 = if b < k { b } else { b + 1 };
                        assert(old_conns[a2] == self.connections[a]);
                        assert(old_conns[b2] == self.connections[b]);
                    }
                }
                self.update_processing_order();
                return;
            }
            k = k + 1;
        }
        proof {
            assert(!self.edges().contains((from, to))) by {
                if self.edges().contains((from, to)) {
                    let t = choose|t: int| 0 <= t < self.connections.len() && self.connections[t].from == from
                        && self.connections[t].to == to;
                    assert(self.connections[t] == conn);
                }
            }
            assert(self.edges() =~= self.edges().remove((from, to)));
        }
    }

    /// The processing order lists every node exactly once. When the
    /// connections form no cycle, every node comes after all the nodes that
    /// feed into it; when they do, the nodes are processed in id order.
    pub proof fn law_processing_order(&self)
        requires
            self.wf(),
        ensures
            ({
                let order = self.spec_processing_order();
                &&& order.len() == self.ids().len()
                &&& order.no_duplicates()
                &&& forall|x: usize| order.contains(x) <==> self.ids().contains(x)
                &&& schedulable(self.ids(), self.edges()) ==> respects(order, self.edges())
                &&& !schedulable(self.ids(), self.edges()) ==> order == self.ids()
            }),
    {
        self.lemma_wf_facts();
        lemma_topo_sort_schedulable(self.ids(), self.edges());
    }

    /// Every node id lies below the id that the next added node receives.
    /// That id grows by one with every `add_node`, successful or not, and no
    /// other operation changes it, so an id is never handed out twice, not
    /// even after its node was removed.
    pub proof fn law_fresh_ids(&self)
        requires
            self.wf(),
        ensures
            forall|x: usize| #[trigger] self.ids().contains(x) ==> x < self.spec_next_id(),
    {
        assert forall|x: usize| #[trigger] self.ids().contains(x) implies x < self.spec_next_id() by {
            let i = choose|i: int| 0 <= i < self.ids().len() && self.ids()[i] == x;
            assert(self.nodes[i].id == x);
        }
    }

    /// Disconnecting two nodes right after connecting them, when they were
    /// not connected before, gives back the graph as it was: the same nodes,
    /// connections in the same order, edges and processing order.
    pub proof fn law_disconnect_undoes_connect(
        g0: AudioGraph,
        g1: AudioGraph,
        g2: AudioGraph,
        from: usize,
        to: usize,
        res: Result<(), String>,
    )
        requires
            g0.wf(),
            g1.wf(),
            g2.wf(),
            !g0.edges().contains((from, to)),
            connect_outcome(g0, from, to, res, g1),
            res is Ok,
            disconnect_outcome(g1, from, to, g2),
        ensures
            g2.node_list() == g0.node_list(),
            g2.connection_list() == g0.connection_list(),
            g2.edges() == g0.edges(),
            g2.spec_processing_order() == g0.spec_processing_order(),
            g2.spec_next_id() == g0.spec_next_id(),
    {
        let conn = Connection { from, to };
        let l0 = g0.connection_list();
        let l1 = g1.connection_list();
        assert(l1 == l0.push(conn));
        assert(g1.edges().contains((from, to)));
        g1.lemma_wf_facts();
        let k = choose|k: int| 0 <= k < l1.len() && l1[k] == conn && g2.connection_list() == l1.remove(k);
        assert(l1[l1.len() - 1] == conn);
        if k != l1.len() - 1 {
            assert(l1[k] != l1[l1.len() - 1]);
        }
        assert(l1.remove(k) =~= l0);
        assert(g2.edges() =~= g0.edges());
    }

    /// Connecting two nodes a second time changes nothing: the second call
    /// succeeds exactly when the first did, and the nodes, connections and
    /// processing order stay as the first call left them.
    pub proof fn law_connect_twice(
        g0: AudioGraph,
        g1: AudioGraph,
        g2: AudioGraph,
        from: usize,
        to: usize,
        r1: Result<(), String>,
        r2: Result<(), String>,
    )
        requires
            g0.wf(),
            g1.wf(),
            g2.wf(),
            connect_outcome(g0, from, to, r1, g1),
            connect_outcome(g1, from, to, r2, g2),
        ensures
            r2 is Ok <==> r1 is Ok,
            g2.node_list() == g1.node_list(),
            g2.connection_list() == g1.connection_list(),
            g2.edges() == g1.edges(),
            g2.spec_processing_order() == g1.spec_processing_order(),
    {
        if r1 is Ok {
            assert(g1.edges().contains((from, to)));
            assert(g2.edges() =~= g1.edges());
        }
    }

    /// Recompute the processing order after a change of nodes or connections.
    fn update_processing_order(&mut self)
        requires
            old(self).wf_except_order(),
        ensures
            final(self).wf(),
            final(self).nodes == old(self).nodes,
            final(self).connections == old(self).connections,
            final(self).next_id == old(self).next_id,
            final(self).sample_rate == old(self).sample_rate,
            final(self).block_size == old(self).block_size,
    {
        match self.sort_current() {
            Ok(order) => {
                self.processing_order = order;
            },
            Err(_) => {
                let mut lin: Vec<usize> = Vec::new();
                let mut i: usize = 0;
                while i < self.nodes.len()
                    invariant
                        i <= self.nodes.len(),
                        lin@ == self.ids().take(i as int),
                    decreases self.nodes.len() - i,
                {
                    lin.push(self.nodes[i].id);
                    i = i + 1;
                    assert(lin@ =~= self.ids().take(i as int));
                }
                assert(lin@ =~= self.ids());
                self.processing_order = lin;
            },
        }
    }

    /// The invariant without the clause on the processing order.
    closed spec fn wf_except_order(&self) -> bool {
        &&& strictly_increasing(self.ids())
        &&& forall|i: int| 0 <= i < self.nodes.len() ==> (#[trigger] self.nodes[i]).id < self.next_id
        &&& forall|a: int, b: int|
            0 <= a < b < self.connections.len() ==> self.connections[a] != self.connections[b]
        &&& forall|k: int|
            0 <= k < self.connections.len() ==> self.ids().contains((#[trigger] self.connections[k]).from)
                && self.ids().contains(self.connections[k].to)
    }

    fn sort_current(&self) -> (res: Result<Vec<usize>, Vec<usize>>)
        requires
            self.wf_except_order(),
        ensures
            match (res, topo_sort(self.ids(), self.edges())) {
                (Ok(o), Ok(s)) => o@ == s,
                (Err(o), Err(s)) => o@ == s,
                _ => false,
            },
    {
        let ep = self.edge_positions();
        let mut ids: Vec<usize> = Vec::new();
        let mut i: usize = 0;
        while i < self.nodes.len()
            invariant
                i <= self.nodes.len(),
                ids@ == self.ids().take(i as int),
            decreases self.nodes.len() - i,
        {
            ids.push(self.nodes[i].id);
            i = i + 1;
            assert(ids@ =~= self.ids().take(i as int));
        }
        assert(ids@ =~= self.ids());
        sort_positions(&ids, &ep)
    }

    fn edge_positions(&self) -> (ep: Vec<(usize, usize)>)
        requires
            self.wf_except_order(),
        ensures
            forall|k: int| 0 <= k < ep.len() ==> (#[trigger] ep[k]).0 < self.nodes.len() && ep[k].1 < self.nodes.len(),
            edges_at(self.ids(), ep@) == self.edges(),
    {
        let mut ep: Vec<(usize, usize)> = Vec::new();
        let mut k: usize = 0;
        while k < self.connections.len()
            invariant
                self.wf_except_order(),
                k <= self.connections.len(),
                ep.len() == k,
                forall|t: int| 0 <= t < k ==> (#[trigger] ep[t]).0 < self.nodes.len() && ep[t].1 < self.nodes.len()
                    && self.nodes[ep[t].0 as int].id == self.connections[t].from
                    && self.nodes[ep[t].1 as int].id == self.connections[t].to,
            decreases self.connections.len() - k,
        {
            let c = self.connections[k];
            assert(self.ids().contains(self.connections[k as int].from));
            assert(self.ids().contains(self.connections[k as int].to));
            let p = match self.find_position(c.from) {
                Some(p) => p,
                None => {
                    assert(false);
                    0
                },
            };
            let q = match self.find_position(c.to) {
                Some(q) => q,
                None => {
                    assert(false);
                    0
                },
            };
            ep.push((p, q));
            k = k + 1;
        }
        proof {
            let ids = self.ids();
            assert forall|e: (usize, usize)| edges_at(ids, ep@).contains(e) <==> self.edges().contains(e) by {
                if edges_at(ids, ep@).contains(e) {
                    let t = choose|t: int| 0 <= t < ep@.len() && ids[ep@[t].0 as int] == e.0 && ids[ep@[t].1 as int] == e.1;
                    assert(ep[t].0 < self.nodes.len());
                    assert(self.connections[t].from == e.0 && self.connections[t].to == e.1);
                }
                if self.edges().contains(e) {
                    let t = choose|t: int| 0 <= t < self.connections.len() && self.connections[t].from == e.0 && self.connections[t].to == e.1;
                    assert(ep[t].0 < self.nodes.len());
                    assert(ids[ep@[t].0 as int] == e.0 && ids[ep@[t].1 as int] == e.1);
                }
            }
            assert(edges_at(ids, ep@) =~= self.edges());
        }
        ep
    }
}

} // verus!
