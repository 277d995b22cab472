//! Session documents: the saved form of an audio graph, its validation, and
//! the conversions between a session and a graph.
//!
//! Parameter values are carried as the bit patterns of their `f64` values;
//! the session logic never computes with them.

use vstd::prelude::*;
use crate::errors::{plugin_error_message, PluginError};
use crate::graph::{AudioGraph, AudioNode, Connection, PluginSource};
use crate::topology::{lemma_processing_order_relabel, same_shape};
use crate::text::{contains_parent_component, decimal, has_parent_component, is_absolute, push_decimal};

verus! {

/// Specification for how to instantiate a plugin.
#[derive(Debug, Clone)]
pub enum PluginSpec {
    /// Built-in processor (implemented in Rust), by name
    Builtin {
        name: String,
        /// Parameter values: (parameter id, bits of the `f64` value)
        parameters: Vec<(u32, u64)>,
    },
    /// VST3 plugin loaded from a bundle path
    Vst3 {
        path: String,
        /// Parameter values: (parameter id, bits of the `f64` value)
        parameters: Vec<(u32, u64)>,
    },
}

/// Errors that can occur during session operations.
#[derive(Debug, Clone, PartialEq, Eq)]
pub enum SessionError {
    /// I/O error reading or writing session file
    IoError(String),
    /// Serialization failed
    SerializationFailed(String),
    /// Deserialization failed
    DeserializationFailed(String),
    /// Session format version is not supported
    UnsupportedVersion(u32),
    /// Generic invalid data error
    InvalidData(String),
    /// Plugin failed to load during session reconstruction
    PluginLoadFailed { plugin_path: String, reason: String },
    /// Node not found in graph
    NodeNotFound { node_id: usize },
    /// Connection references non-existent nodes
    InvalidConnection { from: usize, to: usize },
    /// Parameter setting failed
    ParameterFailed { node_id: usize, param_id: u32, reason: String },
    /// Graph contains nodes with unknown plugin sources (can't be serialized)
    UnknownPluginSource { node_id: usize },
    /// Invalid plugin path (security validation failed)
    InvalidPath(String),
}

/// Message text of a [`SessionError`].
pub open spec fn session_error_message(e: SessionError) -> Seq<char> {
    match e {
        SessionError::IoError(m) => "I/O error: "@ + m@,
        SessionError::SerializationFailed(m) => "Serialization failed: "@ + m@,
        SessionError::DeserializationFailed(m) => "Deserialization failed: "@ + m@,
        SessionError::UnsupportedVersion(v) => "Unsupported session version: "@ + decimal(v as nat),
        SessionError::InvalidData(m) => "Invalid session data: "@ + m@,
        SessionError::PluginLoadFailed { plugin_path, reason } => "Plugin loading failed for "@ + plugin_path@
            + ": "@ + reason@,
        SessionError::NodeNotFound { node_id } => "Node "@ + decimal(node_id as nat) + " not found in session"@,
        SessionError::InvalidConnection { from, to } => "Invalid connection from node "@ + decimal(from as nat)
            + " to node "@ + decimal(to as nat),
        SessionError::ParameterFailed { node_id, param_id, reason } => "Failed to set parameter "@ + decimal(
            param_id as nat,
        ) + " on node "@ + decimal(node_id as nat) + ": "@ + reason@,
        SessionError::UnknownPluginSource { node_id } => "Node "@ + decimal(node_id as nat)
            + " has unknown plugin source and cannot be serialized"@,
        SessionError::InvalidPath(m) => "Invalid plugin path: "@ + m@,
    }
}

impl SessionError {
    /// The human-readable message of this error.
    pub fn message(&self) -> (s: String)
        ensures
            s@ == session_error_message(*self),
    {
        match self {
            SessionError::IoError(m) => {
                let mut s = String::from_str("I/O error: ");
                s.append(m.as_str());
                s
            },
            SessionError::SerializationFailed(m) => {
                let mut s = String::from_str("Serialization failed: ");
                s.append(m.as_str());
                s
            },
            SessionError::DeserializationFailed(m) => {
                let mut s = String::from_str("Deserialization failed: ");
                s.append(m.as_str());
                s
            },
            SessionError::UnsupportedVersion(v) => {
                let mut s = String::from_str("Unsupported session version: ");
                push_decimal(&mut s, *v as u64);
                s
            },
            SessionError::InvalidData(m) => {
                let mut s = String::from_str("Invalid session data: ");
                s.append(m.as_str());
                s
            },
            SessionError::PluginLoadFailed { plugin_path, reason } => {
                let mut s = String::from_str("Plugin loading failed for ");
                s.append(plugin_path.as_str());
                s.append(": ");
                s.append(reason.as_str());
                s
            },
            SessionError::NodeNotFound { node_id } => {
                let mut s = String::from_str("Node ");
                push_decimal(&mut s, *node_id as u64);
                s.append(" not found in session");
                s
            },
            SessionError::InvalidConnection { from, to } => {
                let mut s = String::from_str("Invalid connection from node ");
                push_decimal(&mut s, *from as u64);
                s.append(" to node ");
                push_decimal(&mut s, *to as u64);
                s
            },
            SessionError::ParameterFailed { node_id, param_id, reason } => {
                let mut s = String::from_str("Failed to set parameter ");
                push_decimal(&mut s, *param_id as u64);
                s.append(" on node ");
                push_decimal(&mut s, *node_id as u64);
                s.append(": ");
                s.append(reason.as_str());
                s
            },
            SessionError::UnknownPluginSource { node_id } => {
                let mut s = String::from_str("Node ");
                push_decimal(&mut s, *node_id as u64);
                s.append(" has unknown plugin source and cannot be serialized");
                s
            },
            SessionError::InvalidPath(m) => {
                let mut s = String::from_str("Invalid plugin path: ");
                s.append(m.as_str());
                s
            },
        }
    }
}

/// What validating a plugin specification yields.
pub open spec fn spec_validation(spec: PluginSpec) -> Result<(), Seq<char>> {
    match spec {
        PluginSpec::Builtin { name, .. } => if name@.len() == 0 {
            Err("Built-in processor name cannot be empty"@)
        } else {
            Ok(())
        },
        PluginSpec::Vst3 { path, .. } => if !is_absolute(path@) {
            Err("VST3 path must be absolute, got: "@ + path@)
        } else if has_parent_component(path@) {
            Err("VST3 path contains invalid components (.. or .): "@ + path@)
        } else {
            Ok(())
        },
    }
}

/// The error a failed validation produces: `InvalidData` for built-ins,
/// `InvalidPath` for VST3 paths, with the given message.
pub open spec fn validation_error_matches(spec: PluginSpec, e: SessionError, msg: Seq<char>) -> bool {
    match spec {
        PluginSpec::Builtin { .. } => e matches SessionError::InvalidData(m) && m@ == msg,
        PluginSpec::Vst3 { .. } => e matches SessionError::InvalidPath(m) && m@ == msg,
    }
}

impl PluginSpec {
    /// Validate the plugin specification: a built-in needs a non-empty
    /// name; a VST3 path must be absolute and hold no `..` component (in an
    /// absolute path `.` components are dropped when the path is read, so
    /// only `..` can remain).
    pub fn validate(&self) -> (res: Result<(), SessionError>)
        ensures
            match (res, spec_validation(*self)) {
                (Ok(()), Ok(())) => true,
                (Err(e), Err(m)) => validation_error_matches(*self, e, m),
                _ => false,
            },
    {
        proof {
            reveal_strlit("Built-in processor name cannot be empty");
        }
        match self {
            PluginSpec::Builtin { name, .. } => {
                if name.as_str().unicode_len() == 0 {
                    return Err(SessionError::InvalidData(String::from_str("Built-in processor name cannot be empty")));
                }
                Ok(())
            },
            PluginSpec::Vst3 { path, .. } => {
                let p = path.as_str();
                let n = p.unicode_len();
                if n == 0 || p.get_char(0) != '/' {
                    let mut m = String::from_str("VST3 path must be absolute, got: ");
                    m.append(p);
                    return Err(SessionError::InvalidPath(m));
                }
                if contains_parent_component(p) {
                    let mut m = String::from_str("VST3 path contains invalid components (.. or .): ");
                    m.append(p);
                    return Err(SessionError::InvalidPath(m));
                }
                Ok(())
            },
        }
    }
}

/// A node in the session graph.
#[derive(Debug, Clone)]
pub struct SessionNode {
    /// Unique node ID within this session
    pub id: usize,
    /// Plugin specification
    pub plugin: PluginSpec,
    /// Number of input channels
    pub inputs: usize,
    /// Number of output channels
    pub outputs: usize,
}

/// Connection between two nodes.
#[derive(Debug, Clone, Copy, PartialEq, Eq, Hash, Structural)]
pub struct SessionConnection {
    /// Source node ID
    pub from: usize,
    /// Destination node ID
    pub to: usize,
}

/// The complete audio graph structure.
#[derive(Debug, Clone)]
pub struct SessionGraph {
    /// All nodes in the graph
    pub nodes: Vec<SessionNode>,
    /// Connections between nodes
    pub connections: Vec<SessionConnection>,
}

/// Top-level session structure.
#[derive(Debug, Clone)]
pub struct Session {
    /// Format version for future compatibility
    pub version: u32,
    /// Human-readable session name
    pub name: String,
    /// Sample rate (Hz)
    pub sample_rate: u32,
    /// Processing block size (frames)
    pub block_size: usize,
    /// The audio graph
    pub graph: SessionGraph,
}

/// Index of the first node whose plugin specification does not validate,
/// or the number of nodes when all validate.
pub open spec fn first_invalid_node(nodes: Seq<SessionNode>) -> int
    decreases nodes.len(),
{
    if nodes.len() == 0 {
        0
    } else if spec_validation(nodes[0].plugin) is Err {
        0
    } else {
        1 + first_invalid_node(nodes.drop_first())
    }
}

/// The identifier of a plugin used in load error messages.
pub open spec fn plugin_label(spec: PluginSpec) -> Seq<char> {
    match spec {
        PluginSpec::Builtin { name, .. } => "builtin:"@ + name@,
        PluginSpec::Vst3 { path, .. } => path@,
    }
}

/// The graph-side source of a plugin specification.
pub open spec fn source_of_spec(spec: PluginSpec) -> PluginSource {
    match spec {
        PluginSpec::Builtin { name, .. } => PluginSource::Builtin { name },
        PluginSpec::Vst3 { path, .. } => PluginSource::Vst3 { path },
    }
}

/// What preparing the plugin of one session node came to: the plugin was
/// created, initialised at the session's rate and block size and given its
/// saved parameters, or one of these steps failed.
#[derive(Debug, Clone)]
pub enum NodeLoad {
    /// Plugin ready, with its channel counts
    Loaded { inputs: usize, outputs: usize },
    /// The plugin could not be created
    LoadFailed(String),
    /// The plugin refused initialisation
    InitFailed(PluginError),
    /// Restoring a saved parameter failed
    ParameterFailed { param_id: u32, reason: String },
}

/// The error a node's failed preparation produces.
pub open spec fn load_error_matches(node: SessionNode, load: NodeLoad, e: SessionError) -> bool {
    match load {
        NodeLoad::Loaded { .. } => false,
        NodeLoad::LoadFailed(r) => e matches SessionError::PluginLoadFailed { plugin_path, reason }
            && plugin_path@ == plugin_label(node.plugin) && reason@ == r@,
        NodeLoad::InitFailed(pe) => e matches SessionError::PluginLoadFailed { plugin_path, reason }
            && plugin_path@ == plugin_label(node.plugin) && reason@ == plugin_error_message(pe),
        NodeLoad::ParameterFailed { param_id, reason } => e matches SessionError::ParameterFailed {
            node_id,
            param_id: p,
            reason: r,
        } && node_id == node.id && p == param_id && r@ == reason@,
    }
}

/// Position of the last node carrying session id `sid` before `end`, or -1.
pub open spec fn last_with_id(nodes: Seq<SessionNode>, sid: usize, end: int) -> int
    decreases end,
{
    if end <= 0 {
        -1
    } else if nodes[end - 1].id == sid {
        end - 1
    } else {
        last_with_id(nodes, sid, end - 1)
    }
}

/// A session connection resolved to graph ids (node positions), when both
/// ends name a node.
pub open spec fn resolve_connection(nodes: Seq<SessionNode>, c: SessionConnection) -> Option<(usize, usize)> {
    let a = last_with_id(nodes, c.from, nodes.len() as int);
    let b = last_with_id(nodes, c.to, nodes.len() as int);
    if a >= 0 && b >= 0 {
        Some((a as usize, b as usize))
    } else {
        None
    }
}

/// The graph connections made from the first `k` session connections: each
/// one that resolves, in turn, unless the same connection was made before.
pub open spec fn made_connections(nodes: Seq<SessionNode>, conns: Seq<SessionConnection>, k: int) -> Seq<Connection>
    decreases k,
{
    if k <= 0 {
        seq![]
    } else {
        let prev = made_connections(nodes, conns, k - 1);
        match resolve_connection(nodes, conns[k - 1]) {
            Some((a, b)) => if prev.contains(Connection { from: a, to: b }) {
                prev
            } else {
                prev.push(Connection { from: a, to: b })
            },
            None => prev,
        }
    }
}

/// Node of a graph built from a session node.
pub open spec fn node_matches(gn: AudioNode, i: int, sn: SessionNode, load: NodeLoad) -> bool {
    &&& gn.spec_id() == i
    &&& gn.spec_source() == source_of_spec(sn.plugin)
    &&& load matches NodeLoad::Loaded { inputs, outputs }
    &&& gn.spec_inputs() == inputs
    &&& gn.spec_outputs() == outputs
}

/// `s` records the nodes (in id order), the connections (in the order they
/// were made), the sample rate and the block size of `graph`.
pub open spec fn records_graph(s: Session, graph: AudioGraph) -> bool {
    &&& s.sample_rate == graph.spec_sample_rate()
    &&& s.block_size == graph.spec_block_size()
    &&& s.graph.nodes@.len() == graph.node_list().len()
    &&& forall|i: int| 0 <= i < graph.node_list().len() ==> {
        let gn = #[trigger] graph.node_list()[i];
        let sn = s.graph.nodes@[i];
        &&& sn.id == gn.spec_id()
        &&& sn.inputs == gn.spec_inputs()
        &&& sn.outputs == gn.spec_outputs()
        &&& source_of_spec(sn.plugin) == gn.spec_source()
    }
    &&& s.graph.connections@.len() == graph.connection_list().len()
    &&& forall|k: int| 0 <= k < graph.connection_list().len() ==> (#[trigger] s.graph.connections@[k]).from
        == graph.connection_list()[k].from && s.graph.connections@[k].to == graph.connection_list()[k].to
}

impl Session {
    /// Create a new empty session (format version 1).
    pub fn new(name: &str, sample_rate: u32, block_size: usize) -> (s: Session)
        ensures
            s.version == 1,
            s.name@ == name@,
            s.sample_rate == sample_rate,
            s.block_size == block_size,
            s.graph.nodes@.len() == 0,
            s.graph.connections@.len() == 0,
    {
        Session {
            version: 1,
            name: String::from_str(name),
            sample_rate,
            block_size,
            graph: SessionGraph { nodes: Vec::new(), connections: Vec::new() },
        }
    }

    /// Check a freshly read session: the format version must be at most 1
    /// and every plugin specification must validate (the first failure is
    /// reported).
    pub fn validate(self) -> (res: Result<Session, SessionError>)
        ensures
            self.version > 1 ==> res == Err::<Session, SessionError>(SessionError::UnsupportedVersion(self.version)),
            self.version <= 1 && first_invalid_node(self.graph.nodes@) == self.graph.nodes@.len() ==> (res matches Ok(s) && s == self),
            self.version <= 1 && first_invalid_node(self.graph.nodes@) < self.graph.nodes@.len() ==> (res matches Err(e)
                && validation_error_matches(
                self.graph.nodes@[first_invalid_node(self.graph.nodes@)].plugin,
                e,
                spec_validation(self.graph.nodes@[first_invalid_node(self.graph.nodes@)].plugin)->Err_0,
            )),
    {
        if self.version > 1 {
            return Err(SessionError::UnsupportedVersion(self.version));
        }
        let mut i: usize = 0;
        while i < self.graph.nodes.len()
            invariant
                self.version <= 1,
                i <= self.graph.nodes@.len(),
                forall|j: int| 0 <= j < i ==> spec_validation(#[trigger] self.graph.nodes@[j].plugin) is Ok,
            decreases self.graph.nodes.len() - i,
        {
            match self.graph.nodes[i].plugin.validate() {
                Ok(()) => {},
                Err(e) => {
                    proof {
                        lemma_first_invalid_node(self.graph.nodes@, i as int);
                    }
                    return Err(e);
                },
            }
            i = i + 1;
        }
        proof {
            lemma_first_invalid_node(self.graph.nodes@, self.graph.nodes@.len() as int);
        }
        Ok(self)
    }

    /// Create a session from an audio graph.
    ///
    /// `parameters[i]` holds the parameter values read from the plugin of
    /// the `i`-th node (in id order). Fails on the first node whose plugin
    /// source is unknown.
    pub fn from_graph(graph: &AudioGraph, name: &str, parameters: &Vec<Vec<(u32, u64)>>) -> (res: Result<Session, SessionError>)
        requires
            parameters.len() == graph.node_list().len(),
        ensures
            match res {
                Ok(s) => {
                    &&& forall|i: int| 0 <= i < graph.node_list().len() ==> !(graph.node_list()[i].spec_source() is Unknown)
                    &&& s.version == 1
                    &&& s.name@ == name@
                    &&& records_graph(s, *graph)
                    &&& forall|i: int| 0 <= i < graph.node_list().len() ==> spec_parameters(
                        #[trigger] s.graph.nodes@[i].plugin,
                    ) == parameters@[i]@
                },
                Err(e) => exists|i: int| {
                    &&& 0 <= i < graph.node_list().len()
                    &&& graph.node_list()[i].spec_source() is Unknown
                    &&& forall|j: int| 0 <= j < i ==> !(graph.node_list()[j].spec_source() is Unknown)
                    &&& e == SessionError::UnknownPluginSource { node_id: graph.node_list()[i].spec_id() }
                },
            },
    {
        let gnodes = graph.nodes();
        let mut nodes: Vec<SessionNode> = Vec::new();
        let mut i: usize = 0;
        while i < gnodes.len()
            invariant
                gnodes@ == graph.node_list(),
                parameters.len() == gnodes.len(),
                i <= gnodes.len(),
                nodes.len() == i,
                forall|j: int| 0 <= j < i ==> !(gnodes@[j].spec_source() is Unknown),
                forall|j: int| 0 <= j < i ==> {
                    let gn = #[trigger] gnodes@[j];
                    let sn = nodes@[j];
                    &&& sn.id == gn.spec_id()
                    &&& sn.inputs == gn.spec_inputs()
                    &&& sn.outputs == gn.spec_outputs()
                    &&& source_of_spec(sn.plugin) == gn.spec_source()
                    &&& spec_parameters(sn.plugin) == parameters@[j]@
                },
            decreases gnodes.len() - i,
        {
            let gn = &gnodes[i];
            let params = copy_parameters(&parameters[i]);
            let plugin = match gn.source() {
                PluginSource::Builtin { name } => PluginSpec::Builtin { name: name.clone(), parameters: params },
                PluginSource::Vst3 { path } => PluginSpec::Vst3 { path: path.clone(), parameters: params },
                PluginSource::Unknown => {
                    return Err(SessionError::UnknownPluginSource { node_id: gn.id() });
                },
            };
            nodes.push(SessionNode { id: gn.id(), plugin, inputs: gn.inputs(), outputs: gn.outputs() });
            i = i + 1;
        }
        let gconns = graph.connections();
        let mut connections: Vec<SessionConnection> = Vec::new();
        let mut k: usize = 0;
        while k < gconns.len()
            invariant
                gconns@ == graph.connection_list(),
                k <= gconns.len(),
                connections.len() == k,
                forall|t: int| 0 <= t < k ==> (#[trigger] connections@[t]).from == gconns@[t].from && connections@[t].to == gconns@[t].to,
            decreases gconns.len() - k,
        {
            connections.push(SessionConnection { from: gconns[k].from, to: gconns[k].to });
            k = k + 1;
        }
        let session = Session {
            version: 1,
            name: String::from_str(name),
            sample_rate: graph.sample_rate(),
            block_size: graph.block_size(),
            graph: SessionGraph { nodes, connections },
        };
        proof {
            assert forall|i: int| 0 <= i < graph.node_list().len() implies spec_parameters(
                #[trigger] session.graph.nodes@[i].plugin,
            ) == parameters@[i]@ by {
                assert(gnodes@[i] == graph.node_list()[i]);
            }
            assert(records_graph(session, *graph));
        }
        Ok(session)
    }
}

/// Index of the first node whose preparation failed, or the number of
/// nodes when all were prepared.
pub open spec fn first_failed_load(loads: Seq<NodeLoad>) -> int
    decreases loads.len(),
{
    if loads.len() == 0 {
        0
    } else if !(loads[0] is Loaded) {
        0
    } else {
        1 + first_failed_load(loads.drop_first())
    }
}

/// Index of the first connection that names a missing node, or the number
/// of connections when all resolve.
pub open spec fn first_unresolved(nodes: Seq<SessionNode>, conns: Seq<SessionConnection>) -> int
    decreases conns.len(),
{
    if conns.len() == 0 {
        0
    } else if resolve_connection(nodes, conns[0]) is None {
        0
    } else {
        1 + first_unresolved(nodes, conns.drop_first())
    }
}

pub proof fn lemma_first_failed_load(loads: Seq<NodeLoad>, i: int)
    requires
        0 <= i <= loads.len(),
        forall|j: int| 0 <= j < i ==> #[trigger] loads[j] is Loaded,
        i < loads.len() ==> !(loads[i] is Loaded),
    ensures
        first_failed_load(loads) == i,
    decreases loads.len(),
{
    if loads.len() > 0 && i > 0 {
        assert forall|j: int| 0 <= j < i - 1 implies #[trigger] loads.drop_first()[j] is Loaded by {
            assert(loads.drop_first()[j] == loads[j + 1]);
        }
        if i < loads.len() {
            assert(loads.drop_first()[i - 1] == loads[i]);
        }
        lemma_first_failed_load(loads.drop_first(), i - 1);
    }
}

pub proof fn lemma_first_unresolved(nodes: Seq<SessionNode>, conns: Seq<SessionConnection>, i: int)
    requires
        0 <= i <= conns.len(),
        forall|j: int| 0 <= j < i ==> resolve_connection(nodes, #[trigger] conns[j]) is Some,
        i < conns.len() ==> resolve_connection(nodes, conns[i]) is None,
    ensures
        first_unresolved(nodes, conns) == i,
    decreases conns.len(),
{
    if conns.len() > 0 && i > 0 {
        assert forall|j: int| 0 <= j < i - 1 implies resolve_connection(nodes, #[trigger] conns.drop_first()[j]) is Some by {
            assert(conns.drop_first()[j] == conns[j + 1]);
        }
        if i < conns.len() {
            assert(conns.drop_first()[i - 1] == conns[i]);
        }
        lemma_first_unresolved(nodes, conns.drop_first(), i - 1);
    }
}

/// Position of the last node carrying session id `sid`.
fn find_last_with_id(nodes: &Vec<SessionNode>, sid: usize) -> (r: Option<usize>)
    ensures
        match r {
            Some(p) => p == last_with_id(nodes@, sid, nodes@.len() as int) && p < nodes.len(),
            None => last_with_id(nodes@, sid, nodes@.len() as int) == -1,
        },
{
    let mut e = nodes.len();
    while e > 0 && nodes[e - 1].id != sid
        invariant
            e <= nodes.len(),
            last_with_id(nodes@, sid, nodes@.len() as int) == last_with_id(nodes@, sid, e as int),
        decreases e,
    {
        e = e - 1;
    }
    if e == 0 {
        None
    } else {
        Some(e - 1)
    }
}

/// The identifier of a plugin used in load error messages.
fn plugin_label_exec(spec: &PluginSpec) -> (r: String)
    ensures
        r@ == plugin_label(*spec),
{
    match spec {
        PluginSpec::Builtin { name, .. } => {
            let mut s = String::from_str("builtin:");
            s.append(name.as_str());
            s
        },
        PluginSpec::Vst3 { path, .. } => path.clone(),
    }
}

fn source_of_spec_exec(spec: &PluginSpec) -> (r: PluginSource)
    ensures
        r == source_of_spec(*spec),
{
    match spec {
        PluginSpec::Builtin { name, .. } => PluginSource::Builtin { name: name.clone() },
        PluginSpec::Vst3 { path, .. } => PluginSource::Vst3 { path: path.clone() },
    }
}

/// What rebuilding the graph of `s` comes to, given what preparing the
/// plugin of each node came to: the first failed node, or else the first
/// connection naming a missing node, is reported; otherwise the graph holds
/// the `i`-th session node under id `i` and the resolved connections.
pub open spec fn rebuild_outcome(s: Session, loads: Seq<NodeLoad>, res: Result<AudioGraph, SessionError>) -> bool {
    let nodes = s.graph.nodes@;
    let conns = s.graph.connections@;
    let f = first_failed_load(loads);
    match res {
        Ok(g) => {
            &&& f == nodes.len()
            &&& first_unresolved(nodes, conns) == conns.len()
            &&& g.wf()
            &&& g.spec_sample_rate() == s.sample_rate
            &&& g.spec_block_size() == s.block_size
            &&& g.node_list().len() == nodes.len()
            &&& g.spec_next_id() == nodes.len()
            &&& forall|i: int| 0 <= i < nodes.len() ==> node_matches(#[trigger] g.node_list()[i], i, nodes[i], loads[i])
            &&& forall|e: (usize, usize)| g.edges().contains(e) <==> exists|k: int| 0 <= k < conns.len() && resolve_connection(nodes, #[trigger] conns[k]) == Some(e)
            &&& g.connection_list() == made_connections(nodes, conns, conns.len() as int)
        },
        Err(e) => if f < nodes.len() {
            load_error_matches(nodes[f], loads[f], e)
        } else {
            let c = first_unresolved(nodes, conns);
            &&& c < conns.len()
            &&& e == SessionError::InvalidConnection { from: conns[c].from, to: conns[c].to }
        },
    }
}

impl Session {
    /// Rebuild the audio graph of this session.
    ///
    /// `loads[i]` is what preparing the plugin of the `i`-th session node
    /// came to (created, initialised at the session's sample rate and block
    /// size, parameters restored). Nodes are added in session order, so the
    /// `i`-th node receives graph id `i`; the first failed node aborts the
    /// rebuild. Connections are then made, each end resolved to the last
    /// node carrying that session id; the first connection naming a missing
    /// node aborts the rebuild.
    pub fn to_graph(&self, loads: &Vec<NodeLoad>) -> (res: Result<AudioGraph, SessionError>)
        requires
            loads.len() == self.graph.nodes@.len(),
        ensures
            rebuild_outcome(*self, loads@, res),
    {
        let ghost nodes = self.graph.nodes@;
        let ghost conns = self.graph.connections@;
        let mut graph = AudioGraph::with_config(self.sample_rate, self.block_size);
        let mut i: usize = 0;
        while i < self.graph.nodes.len()
            invariant
                nodes == self.graph.nodes@,
                loads.len() == nodes.len(),
                i <= nodes.len(),
                graph.wf(),
                graph.spec_next_id() == i,
                graph.spec_sample_rate() == self.sample_rate,
                graph.spec_block_size() == self.block_size,
                graph.node_list().len() == i,
                graph.connection_list().len() == 0,
                forall|j: int| 0 <= j < i ==> #[trigger] loads@[j] is Loaded,
                forall|j: int| 0 <= j < i ==> node_matches(#[trigger] graph.node_list()[j], j, nodes[j], loads@[j]),
            decreases nodes.len() - i,
        {
            let sn = &self.graph.nodes[i];
            let source = source_of_spec_exec(&sn.plugin);
            let ghost before = graph.node_list();
            match &loads[i] {
                NodeLoad::Loaded { inputs, outputs } => {
                    let added = graph.add_node(source, Ok((*inputs, *outputs)));
                    proof {
                        assert forall|j: int| 0 <= j < i + 1 implies node_matches(#[trigger] graph.node_list()[j], j, nodes[j], loads@[j]) by {
                            if j < i {
                                assert(graph.node_list()[j] == graph.node_list().drop_last()[j]);
                            }
                        }
                    }
                },
                NodeLoad::LoadFailed(reason) => {
                    proof {
                        lemma_first_failed_load(loads@, i as int);
                    }
                    return Err(SessionError::PluginLoadFailed { plugin_path: plugin_label_exec(&sn.plugin), reason: reason.clone() });
                },
                NodeLoad::InitFailed(e) => {
                    proof {
                        lemma_first_failed_load(loads@, i as int);
                    }
                    let _ = graph.add_node(source, Err(e.clone()));
                    return Err(SessionError::PluginLoadFailed { plugin_path: plugin_label_exec(&sn.plugin), reason: e.message() });
                },
                NodeLoad::ParameterFailed { param_id, reason } => {
                    proof {
                        lemma_first_failed_load(loads@, i as int);
                    }
                    return Err(SessionError::ParameterFailed { node_id: sn.id, param_id: *param_id, reason: reason.clone() });
                },
            }
            i = i + 1;
        }
        proof {
            lemma_first_failed_load(loads@, nodes.len() as int);
        }
        let mut k: usize = 0;
        while k < self.graph.connections.len()
            invariant
                nodes == self.graph.nodes@,
                conns == self.graph.connections@,
                loads.len() == nodes.len(),
                k <= conns.len(),
                first_failed_load(loads@) == nodes.len(),
                graph.wf(),
                graph.spec_next_id() == nodes.len(),
                graph.spec_sample_rate() == self.sample_rate,
                graph.spec_block_size() == self.block_size,
                graph.node_list().len() == nodes.len(),
                forall|j: int| 0 <= j < nodes.len() ==> node_matches(#[trigger] graph.node_list()[j], j, nodes[j], loads@[j]),
                forall|j: int| 0 <= j < k ==> resolve_connection(nodes, #[trigger] conns[j]) is Some,
                forall|e: (usize, usize)| graph.edges().contains(e) <==> exists|t: int| 0 <= t < k && resolve_connection(nodes, #[trigger] conns[t]) == Some(e),
                graph.connection_list() == made_connections(nodes, conns, k as int),
            decreases conns.len() - k,
        {
            let c = self.graph.connections[k];
            let a = find_last_with_id(&self.graph.nodes, c.from);
            let b = find_last_with_id(&self.graph.nodes, c.to);
            match (a, b) {
                (Some(a), Some(b)) => {
                    let ghost old_edges = graph.edges();
                    let ghost old_list = graph.connection_list();
                    proof {
                        let conn = Connection { from: a, to: b };
                        if old_list.contains(conn) {
                            let t = choose|t: int| 0 <= t < old_list.len() && old_list[t] == conn;
                            assert(old_edges.contains((a, b)));
                        }
                        if old_edges.contains((a, b)) {
                            let t = choose|t: int| 0 <= t < old_list.len() && old_list[t].from == a && old_list[t].to == b;
                            assert(old_list[t] == conn);
                        }
                    }
                    proof {
                        assert(graph.ids()[a as int] == a);
                        assert(graph.ids()[b as int] == b);
                    }
                    let r = graph.connect(a, b);
                    proof {
                        assert(resolve_connection(nodes, conns[k as int]) == Some((a, b)));
                        assert forall|e: (usize, usize)| graph.edges().contains(e) <==> exists|t: int| 0 <= t < k + 1 && resolve_connection(nodes, #[trigger] conns[t]) == Some(e) by {
                            if graph.edges().contains(e) && e != (a, b) {
                                assert(old_edges.contains(e));
                            }
                            if exists|t: int| 0 <= t < k + 1 && resolve_connection(nodes, #[trigger] conns[t]) == Some(e) {
                                let t = choose|t: int| 0 <= t < k + 1 && resolve_connection(nodes, #[trigger] conns[t]) == Some(e);
                                if t < k {
                                    assert(old_edges.contains(e));
                                }
                            }
                        }
                    }
                },
                _ => {
                    proof {
                        assert(resolve_connection(nodes, conns[k as int]) is None);
                        lemma_first_unresolved(nodes, conns, k as int);
                    }
                    return Err(SessionError::InvalidConnection { from: c.from, to: c.to });
                },
            }
            k = k + 1;
        }
        proof {
            lemma_first_unresolved(nodes, conns, conns.len() as int);
        }
        Ok(graph)
    }
}

/// A copy of a parameter list.
pub fn copy_parameters(v: &Vec<(u32, u64)>) -> (r: Vec<(u32, u64)>)
    ensures
        r@ == v@,
{
    let mut r: Vec<(u32, u64)> = Vec::new();
    let mut i: usize = 0;
    while i < v.len()
        invariant
            i <= v.len(),
            r@ == v@.take(i as int),
        decreases v.len() - i,
    {
        r.push(v[i]);
        i = i + 1;
        assert(r@ =~= v@.take(i as int));
    }
    assert(v@.take(v.len() as int) =~= v@);
    r
}

/// Parameter values saved with a plugin specification.
pub open spec fn spec_parameters(spec: PluginSpec) -> Seq<(u32, u64)> {
    match spec {
        PluginSpec::Builtin { parameters, .. } => parameters@,
        PluginSpec::Vst3 { parameters, .. } => parameters@,
    }
}

pub proof fn lemma_first_invalid_node(nodes: Seq<SessionNode>, i: int)
    requires
        0 <= i <= nodes.len(),
        forall|j: int| 0 <= j < i ==> spec_validation(#[trigger] nodes[j].plugin) is Ok,
        i < nodes.len() ==> spec_validation(nodes[i].plugin) is Err,
    ensures
        first_invalid_node(nodes) == i,
    decreases nodes.len(),
{
    if nodes.len() > 0 && i > 0 {
        assert forall|j: int| 0 <= j < i - 1 implies spec_validation(#[trigger] nodes.drop_first()[j].plugin) is Ok by {
            assert(nodes.drop_first()[j] == nodes[j + 1]);
        }
        if i < nodes.len() {
            assert(nodes.drop_first()[i - 1] == nodes[i]);
        }
        lemma_first_invalid_node(nodes.drop_first(), i - 1);
    }
}

/// With distinct session ids, a node's id leads back to its own position.
proof fn lemma_last_with_id_at(nodes: Seq<SessionNode>, a: int, end: int)
    requires
        0 <= a < end <= nodes.len(),
        forall|j: int| a < j < end ==> (#[trigger] nodes[j]).id != nodes[a].id,
    ensures
        last_with_id(nodes, nodes[a].id, end) == a,
    decreases end,
{
    if end - 1 != a {
        assert(nodes[end - 1].id != nodes[a].id);
        lemma_last_with_id_at(nodes, a, end - 1);
    }
}

/// A connection between ids, as a connection between their positions.
pub open spec fn to_positions(ids: Seq<usize>) -> spec_fn(Connection) -> Connection {
    |c: Connection| Connection { from: ids.index_of(c.from) as usize, to: ids.index_of(c.to) as usize }
}

/// Rebuilding makes the saved connections in order, each joining the
/// positions of its ends.
proof fn lemma_made_connections_saved(graph: AudioGraph, s: Session, k: int)
    requires
        graph.wf(),
        records_graph(s, graph),
        0 <= k <= s.graph.connections@.len(),
        forall|t: int| 0 <= t < s.graph.connections@.len() ==> resolve_connection(
            s.graph.nodes@,
            #[trigger] s.graph.connections@[t],
        ) == Some(
            (
                graph.ids().index_of(s.graph.connections@[t].from) as usize,
                graph.ids().index_of(s.graph.connections@[t].to) as usize,
            ),
        ),
    ensures
        made_connections(s.graph.nodes@, s.graph.connections@, k) == graph.connection_list().take(k).map_values(
            to_positions(graph.ids()),
        ),
    decreases k,
{
    let nodes = s.graph.nodes@;
    let conns = s.graph.connections@;
    let list = graph.connection_list();
    let f = to_positions(graph.ids());
    if k == 0 {
        assert(list.take(0).map_values(f) =~= Seq::<Connection>::empty());
    } else {
        lemma_made_connections_saved(graph, s, k - 1);
        graph.lemma_wf_facts();
        let prev = made_connections(nodes, conns, k - 1);
        let c = list[k - 1];
        assert(conns[k - 1].from == c.from && conns[k - 1].to == c.to);
        let mc = Connection { from: graph.ids().index_of(c.from) as usize, to: graph.ids().index_of(c.to) as usize };
        assert(f(c) == mc);
        if prev.contains(mc) {
            let t = choose|t: int| 0 <= t < prev.len() && prev[t] == mc;
            let d = list[t];
            assert(prev[t] == f(d));
            assert(graph.edges().contains((c.from, c.to)));
            assert(graph.edges().contains((d.from, d.to)));
            assert(graph.ids()[graph.ids().index_of(c.from)] == c.from);
            assert(graph.ids()[graph.ids().index_of(d.from)] == d.from);
            assert(graph.ids()[graph.ids().index_of(c.to)] == c.to);
            assert(graph.ids()[graph.ids().index_of(d.to)] == d.to);
            assert(d == c);
            assert(false);
        }
        assert(list.take(k).map_values(f) =~= list.take(k - 1).map_values(f).push(mc));
    }
}

/// Saving a well-formed graph and loading it back, with every plugin
/// prepared again with the channel counts it was saved with, succeeds and
/// gives the same nodes in the same order, renumbered from 0, joined by the
/// same connections made in the same order, and processed in the same order.
pub proof fn law_save_load_round_trip(
    graph: AudioGraph,
    s: Session,
    loads: Seq<NodeLoad>,
    res: Result<AudioGraph, SessionError>,
)
    requires
        graph.wf(),
        records_graph(s, graph),
        loads.len() == s.graph.nodes@.len(),
        forall|i: int| 0 <= i < loads.len() ==> #[trigger] loads[i] == (NodeLoad::Loaded {
            inputs: s.graph.nodes@[i].inputs,
            outputs: s.graph.nodes@[i].outputs,
        }),
        rebuild_outcome(s, loads, res),
    ensures
        res matches Ok(g) && {
            let n = graph.node_list().len();
            &&& g.node_list().len() == n
            &&& g.ids() == Seq::new(n, |i: int| i as usize)
            &&& forall|i: int| 0 <= i < n ==> {
                let a = #[trigger] g.node_list()[i];
                let b = graph.node_list()[i];
                &&& a.spec_source() == b.spec_source()
                &&& a.spec_inputs() == b.spec_inputs()
                &&& a.spec_outputs() == b.spec_outputs()
            }
            &&& forall|e: (usize, usize)| #[trigger] g.edges().contains(e) ==> e.0 < n && e.1 < n
            &&& forall|a: int, b: int|
                0 <= a < n && 0 <= b < n ==> (g.edges().contains((a as usize, b as usize)) <==> graph.edges().contains(
                    (graph.ids()[a], graph.ids()[b]),
                ))
            &&& g.connection_list() == graph.connection_list().map_values(to_positions(graph.ids()))
            &&& g.spec_processing_order().len() == graph.spec_processing_order().len()
            &&& forall|t: int| 0 <= t < g.spec_processing_order().len() ==> #[trigger] g.spec_processing_order()[t]
                == graph.ids().index_of(graph.spec_processing_order()[t])
        },
{
    let nodes = s.graph.nodes@;
    let conns = s.graph.connections@;
    let n = nodes.len();
    graph.lemma_wf_facts();
    // session ids are the graph's ids, hence distinct
    assert forall|i: int| 0 <= i < n implies (#[trigger] nodes[i]).id == graph.ids()[i] by {
        assert(graph.node_list()[i].spec_id() == nodes[i].id);
    }
    assert forall|a: int| 0 <= a < n implies last_with_id(nodes, #[trigger] nodes[a].id, n as int) == a by {
        assert forall|j: int| a < j < n implies (#[trigger] nodes[j]).id != nodes[a].id by {
            assert(graph.ids()[a] < graph.ids()[j]);
        }
        lemma_last_with_id_at(nodes, a, n as int);
    }
    // every connection names two nodes
    assert forall|k: int| 0 <= k < conns.len() implies resolve_connection(nodes, #[trigger] conns[k]) == Some(
        (graph.ids().index_of(conns[k].from) as usize, graph.ids().index_of(conns[k].to) as usize),
    ) by {
        let c = graph.connection_list()[k];
        assert(graph.edges().contains((c.from, c.to)));
        let a = graph.ids().index_of(c.from);
        let b = graph.ids().index_of(c.to);
        assert(nodes[a].id == c.from);
        assert(nodes[b].id == c.to);
    }
    assert forall|i: int| 0 <= i < loads.len() implies #[trigger] loads[i] is Loaded by {}
    lemma_first_failed_load(loads, n as int);
    lemma_first_unresolved(nodes, conns, conns.len() as int);
    let g = res->Ok_0;
    assert(g.ids() =~= Seq::new(n, |i: int| i as usize));
    assert forall|i: int| 0 <= i < n implies {
        let a = #[trigger] g.node_list()[i];
        let b = graph.node_list()[i];
        &&& a.spec_source() == b.spec_source()
        &&& a.spec_inputs() == b.spec_inputs()
        &&& a.spec_outputs() == b.spec_outputs()
    } by {
        assert(node_matches(g.node_list()[i], i, nodes[i], loads[i]));
    }
    assert forall|e: (usize, usize)| #[trigger] g.edges().contains(e) implies e.0 < n && e.1 < n by {
        let k = choose|k: int| 0 <= k < conns.len() && resolve_connection(nodes, #[trigger] conns[k]) == Some(e);
        let c = graph.connection_list()[k];
        assert(graph.edges().contains((c.from, c.to)));
    }
    assert forall|a: int, b: int| 0 <= a < n && 0 <= b < n implies (g.edges().contains((a as usize, b as usize))
        <==> graph.edges().contains((graph.ids()[a], graph.ids()[b]))) by {
        if g.edges().contains((a as usize, b as usize)) {
            let k = choose|k: int| 0 <= k < conns.len() && resolve_connection(nodes, #[trigger] conns[k]) == Some(
                (a as usize, b as usize),
            );
            let c = graph.connection_list()[k];
            assert(graph.edges().contains((c.from, c.to)));
            assert(graph.ids().index_of(c.from) == a);
            assert(graph.ids()[graph.ids().index_of(c.from)] == c.from);
            assert(graph.ids()[graph.ids().index_of(c.to)] == c.to);
        }
        if graph.edges().contains((graph.ids()[a], graph.ids()[b])) {
            let k = choose|k: int| 0 <= k < graph.connection_list().len() && graph.connection_list()[k].from == graph.ids()[a]
                && graph.connection_list()[k].to == graph.ids()[b];
            assert(resolve_connection(nodes, conns[k]) == Some((a as usize, b as usize))) by {
                assert(nodes[a].id == graph.ids()[a]);
                assert(nodes[b].id == graph.ids()[b]);
                assert(last_with_id(nodes, nodes[a].id, n as int) == a);
                assert(last_with_id(nodes, nodes[b].id, n as int) == b);
            }
        }
    }
    // the saved connections are made again, in order
    lemma_made_connections_saved(graph, s, conns.len() as int);
    assert(graph.connection_list().take(conns.len() as int) =~= graph.connection_list());
    // the rebuilt graph processes the same nodes in the same order
    let ids = graph.ids();
    let ids2 = g.ids();
    g.lemma_wf_facts();
    graph.law_processing_order();
    assert(same_shape(ids, graph.edges(), ids2, g.edges())) by {
        assert forall|i: int, j: int| 0 <= i < ids.len() && 0 <= j < ids.len() implies (graph.edges().contains(
            (ids[j], ids[i]),
        ) <==> g.edges().contains((ids2[j], ids2[i]))) by {
            assert(ids2[j] == j as usize && ids2[i] == i as usize);
        }
    }
    lemma_processing_order_relabel(ids, graph.edges(), ids2, g.edges());
    let order = graph.spec_processing_order();
    assert forall|t: int| 0 <= t < g.spec_processing_order().len() implies #[trigger] g.spec_processing_order()[t]
        == ids.index_of(order[t]) by {
        assert(order.contains(order[t]));
        assert(ids.contains(order[t]));
        let i = ids.index_of(order[t]);
        assert(0 <= i < n && ids[i] == order[t]);
        assert(ids2[i] == i as usize);
    }
}

} // verus!
