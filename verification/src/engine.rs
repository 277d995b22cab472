//! Control logic of the audio thread: how commands from the UI change the
//! engine state and the graph, which events are sent back, and how the
//! stream position advances.
//!
//! Sample values travel as the bit patterns of their `f32` values.

use vstd::prelude::*;
use crate::errors::PluginError;
use crate::graph::{avoids, AudioGraph, PluginSource};

verus! {

/// Commands sent from the UI thread to the audio thread.
#[derive(Debug, Clone)]
pub enum AudioCommand {
    /// Start audio processing
    Start,
    /// Stop audio processing
    Stop,
    /// Set a parameter value (`node_id`, `param_id`, bits of the `f32` value)
    SetParameter(usize, u32, u32),
    /// Add the plugin sent along on the plugin channel as a node
    AddNode,
    /// Remove a node from the graph
    RemoveNode(usize),
    /// Connect two nodes
    Connect { from: usize, to: usize },
    /// Disconnect two nodes
    Disconnect { from: usize, to: usize },
}

/// Events sent from the audio thread back to the UI thread.
#[derive(Debug, Clone)]
pub enum AudioEvent {
    /// Audio processing started
    Started,
    /// Audio processing stopped
    Stopped,
    /// Engine running at this device sample rate
    EngineInitialized { sample_rate: u32 },
    /// Error occurred
    Error(String),
    /// Peak level update (bits of the `f32` level)
    PeakLevel { channel: usize, level: u32 },
    /// Node was added to the graph under this id
    NodeAdded { node_id: usize },
    /// Node was removed from the graph
    NodeRemoved { node_id: usize },
    /// Peak values of one buffer at a stream position (bits of the `f32` peaks)
    WaveformSample { position: u64, left_peak: u32, right_peak: u32 },
}

/// What the host must do with the plugin that came with a command.
#[derive(Debug, Clone, Copy, PartialEq, Eq, Structural)]
pub enum PluginAction {
    /// Nothing
    Keep,
    /// Drop the received plugin (it was refused)
    Discard,
    /// Keep the received plugin as the node with this id
    Install(usize),
    /// Drop the plugin of the node with this id (the node was removed)
    Remove(usize),
}

/// Result of handling one command.
#[derive(Debug, Clone)]
pub struct CommandOutcome {
    /// Event to send to the UI, if any
    pub event: Option<AudioEvent>,
    /// What to do with plugins
    pub plugin: PluginAction,
}

/// The audio thread's control state: running flag, stream position and
/// graph topology.
pub struct EngineControl {
    running: bool,
    frame_position: u64,
    graph: AudioGraph,
}

/// Message sent when a node is added during playback.
pub open spec fn add_while_playing() -> Seq<char> {
    "Cannot add nodes while playing. Stop audio first."@
}

/// Message sent when a node is removed during playback.
pub open spec fn remove_while_playing() -> Seq<char> {
    "Cannot remove nodes while playing. Stop audio first."@
}

/// Message sent when connections are changed during playback.
pub open spec fn rewire_while_playing() -> Seq<char> {
    "Cannot modify connections while playing. Stop audio first."@
}

/// Whether an outcome sends exactly the error event with this message.
pub open spec fn sends_error(o: CommandOutcome, msg: Seq<char>) -> bool {
    o.event matches Some(AudioEvent::Error(m)) && m@ == msg
}

impl EngineControl {
    pub closed spec fn is_running_spec(&self) -> bool {
        self.running
    }

    pub closed spec fn position(&self) -> u64 {
        self.frame_position
    }

    pub closed spec fn graph_spec(&self) -> AudioGraph {
        self.graph
    }

    /// The graph invariant holds.
    pub closed spec fn wf(&self) -> bool {
        self.graph.wf()
    }

    /// Stopped, at position 0, with an empty graph of the given config.
    pub fn new(sample_rate: u32, block_size: usize) -> (c: EngineControl)
        ensures
            c.wf(),
            !c.is_running_spec(),
            c.position() == 0,
            c.graph_spec().ids().len() == 0,
            c.graph_spec().spec_next_id() == 0,
            c.graph_spec().spec_sample_rate() == sample_rate,
            c.graph_spec().spec_block_size() == block_size,
    {
        EngineControl { running: false, frame_position: 0, graph: AudioGraph::with_config(sample_rate, block_size) }
    }

    /// Whether audio is being processed.
    pub fn is_running(&self) -> (r: bool)
        ensures
            r == self.is_running_spec(),
    {
        self.running
    }

    /// The stream position, in frames.
    pub fn frame_position(&self) -> (r: u64)
        ensures
            r == self.position(),
    {
        self.frame_position
    }

    /// The graph topology.
    pub fn graph(&self) -> (r: &AudioGraph)
        ensures
            *r == self.graph_spec(),
    {
        &self.graph
    }

    /// Apply one command.
    ///
    /// `received` is, for `AddNode`, what became of the plugin taken from
    /// the plugin channel: `None` when none was waiting, otherwise its
    /// channel counts or its initialisation error. While running, graph
    /// changes are refused with an error event (a received plugin is
    /// dropped); while stopped they are applied.
    pub fn handle_command(&mut self, cmd: AudioCommand, received: Option<Result<(usize, usize), PluginError>>) -> (o: CommandOutcome)
        requires
            old(self).wf(),
            cmd is AddNode && received is Some && !old(self).is_running_spec() ==> old(self).graph_spec().spec_next_id()
                < usize::MAX,
        ensures
            final(self).wf(),
            final(self).position() == old(self).position(),
            match cmd {
                AudioCommand::Start => final(self).is_running_spec() && (o.event matches Some(AudioEvent::Started))
                    && o.plugin == PluginAction::Keep && final(self).graph_spec() == old(self).graph_spec(),
                AudioCommand::Stop => !final(self).is_running_spec() && (o.event matches Some(AudioEvent::Stopped))
                    && o.plugin == PluginAction::Keep && final(self).graph_spec() == old(self).graph_spec(),
                AudioCommand::SetParameter(_, _, _) => final(self).is_running_spec() == old(self).is_running_spec()
                    && o.event is None && o.plugin == PluginAction::Keep && final(self).graph_spec() == old(self).graph_spec(),
                AudioCommand::AddNode => {
                    &&& final(self).is_running_spec() == old(self).is_running_spec()
                    &&& if old(self).is_running_spec() {
                        &&& sends_error(o, add_while_playing())
                        &&& o.plugin == (if received is Some { PluginAction::Discard } else { PluginAction::Keep })
                        &&& final(self).graph_spec() == old(self).graph_spec()
                    } else {
                        match received {
                            None => o.event is None && o.plugin == PluginAction::Keep
                                && final(self).graph_spec() == old(self).graph_spec(),
                            Some(Ok((ins, outs))) => {
                                let id = old(self).graph_spec().spec_next_id();
                                &&& o.event == Some(AudioEvent::NodeAdded { node_id: id })
                                &&& o.plugin == PluginAction::Install(id)
                                &&& final(self).graph_spec().ids() == old(self).graph_spec().ids().push(id)
                                &&& final(self).graph_spec().node_list().drop_last() == old(self).graph_spec().node_list()
                                &&& final(self).graph_spec().node_list().last().spec_source() == PluginSource::Unknown
                                &&& final(self).graph_spec().node_list().last().spec_inputs() == ins
                                &&& final(self).graph_spec().node_list().last().spec_outputs() == outs
                                &&& final(self).graph_spec().edges() == old(self).graph_spec().edges()
                            },
                            Some(Err(_)) => {
                                &&& o.event is None
                                &&& o.plugin == PluginAction::Discard
                                &&& final(self).graph_spec().node_list() == old(self).graph_spec().node_list()
                                &&& final(self).graph_spec().edges() == old(self).graph_spec().edges()
                            },
                        }
                    }
                },
                AudioCommand::RemoveNode(id) => {
                    &&& final(self).is_running_spec() == old(self).is_running_spec()
                    &&& if old(self).is_running_spec() {
                        sends_error(o, remove_while_playing()) && o.plugin == PluginAction::Keep
                            && final(self).graph_spec() == old(self).graph_spec()
                    } else if old(self).graph_spec().ids().contains(id) {
                        &&& o.event == Some(AudioEvent::NodeRemoved { node_id: id })
                        &&& o.plugin == PluginAction::Remove(id)
                        &&& final(self).graph_spec().ids().to_set() == old(self).graph_spec().ids().to_set().remove(id)
                        &&& final(self).graph_spec().edges() == old(self).graph_spec().edges().filter(|e: (usize, usize)| e.0 != id && e.1 != id)
                        &&& final(self).graph_spec().node_list() == old(self).graph_spec().node_list().remove(
                            old(self).graph_spec().ids().index_of(id),
                        )
                        &&& final(self).graph_spec().connection_list() == old(self).graph_spec().connection_list().filter(avoids(id))
                        &&& final(self).graph_spec().spec_next_id() == old(self).graph_spec().spec_next_id()
                    } else {
                        &&& o.event is None
                        &&& o.plugin == PluginAction::Keep
                        &&& final(self).graph_spec() == old(self).graph_spec()
                    }
                },
                AudioCommand::Connect { from, to } => {
                    &&& final(self).is_running_spec() == old(self).is_running_spec()
                    &&& o.plugin == PluginAction::Keep
                    &&& if old(self).is_running_spec() {
                        sends_error(o, rewire_while_playing()) && final(self).graph_spec() == old(self).graph_spec()
                    } else {
                        &&& o.event is None
                        &&& final(self).graph_spec().node_list() == old(self).graph_spec().node_list()
                        &&& final(self).graph_spec().edges() == if old(self).graph_spec().ids().contains(from)
                            && old(self).graph_spec().ids().contains(to) {
                            old(self).graph_spec().edges().insert((from, to))
                        } else {
                            old(self).graph_spec().edges()
                        }
                    }
                },
                AudioCommand::Disconnect { from, to } => {
                    &&& final(self).is_running_spec() == old(self).is_running_spec()
                    &&& o.plugin == PluginAction::Keep
                    &&& if old(self).is_running_spec() {
                        sends_error(o, rewire_while_playing()) && final(self).graph_spec() == old(self).graph_spec()
                    } else {
                        &&& o.event is None
                        &&& final(self).graph_spec().node_list() == old(self).graph_spec().node_list()
                        &&& final(self).graph_spec().edges() == old(self).graph_spec().edges().remove((from, to))
                    }
                },
            },
    {
        match cmd {
            AudioCommand::Start => {
                self.running = true;
                CommandOutcome { event: Some(AudioEvent::Started), plugin: PluginAction::Keep }
            },
            AudioCommand::Stop => {
                self.running = false;
                CommandOutcome { event: Some(AudioEvent::Stopped), plugin: PluginAction::Keep }
            },
            AudioCommand::SetParameter(_, _, _) => CommandOutcome { event: None, plugin: PluginAction::Keep },
            AudioCommand::AddNode => {
                if self.running {
                    let plugin = if received.is_some() {
                        PluginAction::Discard
                    } else {
                        PluginAction::Keep
                    };
                    return CommandOutcome {
                        event: Some(AudioEvent::Error(String::from_str("Cannot add nodes while playing. Stop audio first."))),
                        plugin,
                    };
                }
                match received {
                    None => CommandOutcome { event: None, plugin: PluginAction::Keep },
                    Some(init) => {
                        let failed = init.is_err();
                        match self.graph.add_node(PluginSource::Unknown, init) {
                            Ok(id) => {
                                proof {
                                    assert(self.graph.ids() =~= old(self).graph.ids().push(id));
                                }
                                CommandOutcome { event: Some(AudioEvent::NodeAdded { node_id: id }), plugin: PluginAction::Install(id) }
                            },
                            Err(_) => CommandOutcome { event: None, plugin: PluginAction::Discard },
                        }
                    },
                }
            },
            AudioCommand::RemoveNode(node_id) => {
                if self.running {
                    return CommandOutcome {
                        event: Some(AudioEvent::Error(String::from_str("Cannot remove nodes while playing. Stop audio first."))),
                        plugin: PluginAction::Keep,
                    };
                }
                let ghost old_ids = self.graph.ids();
                let ghost old_nodes = self.graph.node_list();
                proof {
                    self.graph.lemma_wf_facts();
                }
                let removed = self.graph.remove_node(node_id);
                match removed {
                    Some(_) => {
                        proof {
                            let p = old_ids.index_of(node_id);
                            assert(old_ids[p] == node_id);
                            crate::graph::lemma_ids_of_remove(old_nodes, p);
                            lemma_remove_ids_set(old_ids, self.graph.ids(), node_id);
                        }
                        CommandOutcome { event: Some(AudioEvent::NodeRemoved { node_id }), plugin: PluginAction::Remove(node_id) }
                    },
                    None => CommandOutcome { event: None, plugin: PluginAction::Keep },
                }
            },
            AudioCommand::Connect { from, to } => {
                if self.running {
                    return CommandOutcome {
                        event: Some(AudioEvent::Error(String::from_str("Cannot modify connections while playing. Stop audio first."))),
                        plugin: PluginAction::Keep,
                    };
                }
                let _ = self.graph.connect(from, to);
                CommandOutcome { event: None, plugin: PluginAction::Keep }
            },
            AudioCommand::Disconnect { from, to } => {
                if self.running {
                    return CommandOutcome {
                        event: Some(AudioEvent::Error(String::from_str("Cannot modify connections while playing. Stop audio first."))),
                        plugin: PluginAction::Keep,
                    };
                }
                self.graph.disconnect(from, to);
                CommandOutcome { event: None, plugin: PluginAction::Keep }
            },
        }
    }

    /// Account for one output buffer of `data_len` interleaved samples over
    /// `channels` channels, of which at most `max_frames` frames are
    /// processed: returns the stream position of the buffer and the number
    /// of frames processed, and advances the position (wrapping) by that
    /// number. Nothing advances while stopped.
    pub fn advance(&mut self, data_len: usize, channels: usize, max_frames: usize) -> (r: (u64, usize))
        requires
            channels > 0,
        ensures
            r.0 == old(self).position(),
            r.1 == if old(self).is_running_spec() {
                let f = data_len / channels;
                if f < max_frames {
                    f
                } else {
                    max_frames
                }
            } else {
                0
            },
            final(self).position() == (old(self).position() + r.1) % 0x1_0000_0000_0000_0000,
            final(self).is_running_spec() == old(self).is_running_spec(),
            final(self).graph_spec() == old(self).graph_spec(),
            old(self).wf() ==> final(self).wf(),
    {
        let pos = self.frame_position;
        if !self.running {
            return (pos, 0);
        }
        let f = data_len / channels;
        let frames = if f < max_frames {
            f
        } else {
            max_frames
        };
        self.frame_position = self.frame_position.wrapping_add(frames as u64);
        (pos, frames)
    }
}

/// The sample rate the engine runs at: the device's own rate (a differing
/// requested rate is overridden to avoid resampling).
pub fn choose_sample_rate(requested: u32, device: u32) -> (r: u32)
    ensures
        r == device,
{
    if device != requested {
        device
    } else {
        requested
    }
}

/// The event that announces a started engine: it runs at the device's own
/// sample rate, whatever rate was requested.
pub fn engine_initialized(requested: u32, device: u32) -> (e: AudioEvent)
    ensures
        e == (AudioEvent::EngineInitialized { sample_rate: device }),
{
    AudioEvent::EngineInitialized { sample_rate: choose_sample_rate(requested, device) }
}

proof fn lemma_remove_ids_set(old_ids: Seq<usize>, new_ids: Seq<usize>, id: usize)
    requires
        old_ids.contains(id),
        new_ids == old_ids.remove(old_ids.index_of(id)),
        old_ids.no_duplicates(),
    ensures
        new_ids.to_set() == old_ids.to_set().remove(id),
{
    {
        let p = old_ids.index_of(id);
        assert(old_ids[p] == id);
        assert forall|x: usize| new_ids.to_set().contains(x) <==> old_ids.to_set().remove(id).contains(x) by {
            if new_ids.contains(x) {
                let i = choose|i: int| 0 <= i < new_ids.len() && new_ids[i] == x;
                if i < p {
                    assert(old_ids[i] == x);
                } else {
                    assert(old_ids[i + 1] == x);
                }
            }
            if old_ids.contains(x) && x != id {
                let i = choose|i: int| 0 <= i < old_ids.len() && old_ids[i] == x;
                if i < p {
                    assert(new_ids[i] == x);
                } else {
                    assert(i != p);
                    assert(new_ids[i - 1] == x);
                }
            }
        }
        assert(new_ids.to_set() =~= old_ids.to_set().remove(id));
    }
}

} // verus!
