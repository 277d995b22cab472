//! State of the 2D view: transport state, status line, the active sampler
//! node, and the history of opened files.

use vstd::prelude::*;
use crate::engine::AudioEvent;
use crate::text::{file_name, path_file_name, str_equals};

verus! {

/// Transport state shown by the 2D view.
#[derive(Debug, Clone, Copy, PartialEq, Eq, Structural)]
pub enum PlaybackState {
    Stopped,
    Playing,
}

/// Audio state resource.
#[derive(Debug, Clone)]
pub struct AudioState {
    pub playback: PlaybackState,
    pub status_message: String,
    /// Currently active sampler node ID (None if no sampler loaded)
    pub current_sampler_node: Option<usize>,
}

/// File path state resource.
#[derive(Debug, Clone)]
pub struct FilePathState {
    pub current_path: String,
    pub loaded_files: Vec<String>,
}

/// The name shown for a file: its file name, or `file` when it has none.
pub open spec fn display_name(path: Seq<char>) -> Seq<char> {
    match file_name(path, false) {
        Some(n) => n,
        None => "file"@,
    }
}

fn display_name_exec(path: &str) -> (r: String)
    requires
        path@.len() <= i64::MAX,
    ensures
        r@ == display_name(path@),
{
    match path_file_name(path) {
        Some(n) => n,
        None => String::from_str("file"),
    }
}

impl Default for AudioState {
    /// Stopped, empty status, no sampler.
    fn default() -> (s: AudioState)
        ensures
            s.playback == PlaybackState::Stopped,
            s.status_message@.len() == 0,
            s.current_sampler_node is None,
    {
        AudioState { playback: PlaybackState::Stopped, status_message: String::new(), current_sampler_node: None }
    }
}

impl AudioState {
    /// The play button's Start command was sent (or failed to be).
    pub fn play_sent(&mut self, result: Result<(), String>)
        ensures
            final(self).current_sampler_node == old(self).current_sampler_node,
            match result {
                Ok(()) => final(self).playback == PlaybackState::Playing && final(self).status_message@ == "Playing..."@,
                Err(e) => final(self).playback == old(self).playback && final(self).status_message@ == "Error: "@ + e@,
            },
    {
        match result {
            Ok(()) => {
                self.playback = PlaybackState::Playing;
                self.status_message = String::from_str("Playing...");
            },
            Err(e) => {
                let mut m = String::from_str("Error: ");
                m.append(e.as_str());
                self.status_message = m;
            },
        }
    }

    /// The stop button's Stop command was sent (or failed to be).
    pub fn stop_sent(&mut self, result: Result<(), String>)
        ensures
            final(self).current_sampler_node == old(self).current_sampler_node,
            match result {
                Ok(()) => final(self).playback == PlaybackState::Stopped && final(self).status_message@ == "Stopped"@,
                Err(e) => final(self).playback == old(self).playback && final(self).status_message@ == "Error: "@ + e@,
            },
    {
        match result {
            Ok(()) => {
                self.playback = PlaybackState::Stopped;
                self.status_message = String::from_str("Stopped");
            },
            Err(e) => {
                let mut m = String::from_str("Error: ");
                m.append(e.as_str());
                self.status_message = m;
            },
        }
    }

    /// The browse button opened the file dialog.
    pub fn browse_opened(&mut self)
        ensures
            final(self).playback == old(self).playback,
            final(self).current_sampler_node == old(self).current_sampler_node,
            final(self).status_message@ == "Opening file dialog..."@,
    {
        self.status_message = String::from_str("Opening file dialog...");
    }

    /// Apply an event from the audio thread.
    pub fn apply_event(&mut self, event: &AudioEvent)
        ensures
            match *event {
                AudioEvent::Started => final(self).playback == PlaybackState::Playing && final(self).status_message@
                    == "Status: Playing"@ && final(self).current_sampler_node == old(self).current_sampler_node,
                AudioEvent::Stopped => final(self).playback == PlaybackState::Stopped && final(self).status_message@
                    == "Status: Stopped"@ && final(self).current_sampler_node == old(self).current_sampler_node,
                AudioEvent::Error(m) => final(self).playback == old(self).playback && final(self).status_message@ == "Error: "@
                    + m@ && final(self).current_sampler_node == old(self).current_sampler_node,
                AudioEvent::NodeAdded { node_id } => final(self).playback == old(self).playback
                    && final(self).status_message == old(self).status_message && final(self).current_sampler_node == Some(node_id),
                _ => final(self).playback == old(self).playback && final(self).status_message == old(self).status_message
                    && final(self).current_sampler_node == old(self).current_sampler_node,
            },
    {
        match event {
            AudioEvent::Started => {
                self.playback = PlaybackState::Playing;
                self.status_message = String::from_str("Status: Playing");
            },
            AudioEvent::Stopped => {
                self.playback = PlaybackState::Stopped;
                self.status_message = String::from_str("Status: Stopped");
            },
            AudioEvent::Error(msg) => {
                let mut m = String::from_str("Error: ");
                m.append(msg.as_str());
                self.status_message = m;
            },
            AudioEvent::NodeAdded { node_id } => {
                self.current_sampler_node = Some(*node_id);
            },
            _ => {},
        }
    }

    /// A load of `path` started.
    pub fn load_started(&mut self, path: &str)
        requires
            path@.len() <= i64::MAX,
        ensures
            final(self).playback == old(self).playback,
            final(self).current_sampler_node == old(self).current_sampler_node,
            final(self).status_message@ == "Loading: "@ + display_name(path@) + "..."@,
    {
        let mut m = String::from_str("Loading: ");
        let name = display_name_exec(path);
        m.append(name.as_str());
        m.append("...");
        self.status_message = m;
    }

    /// Forget the active sampler before a new one is added; returns the
    /// node to remove, if any.
    pub fn take_sampler(&mut self) -> (old_node: Option<usize>)
        ensures
            old_node == old(self).current_sampler_node,
            final(self).current_sampler_node is None,
            final(self).playback == old(self).playback,
            final(self).status_message == old(self).status_message,
    {
        let old_node = self.current_sampler_node;
        self.current_sampler_node = None;
        old_node
    }

    /// The sampler for `path` was handed to the audio thread with its
    /// AddNode command, or the first of these sends failed.
    pub fn load_sent(&mut self, path: &str, result: Result<(), String>)
        requires
            path@.len() <= i64::MAX,
        ensures
            final(self).playback == old(self).playback,
            final(self).current_sampler_node == old(self).current_sampler_node,
            match result {
                Ok(()) => final(self).status_message@ == "Loaded: "@ + display_name(path@),
                Err(e) => final(self).status_message@ == "Error: "@ + e@,
            },
    {
        match result {
            Ok(()) => {
                let mut m = String::from_str("Loaded: ");
                let name = display_name_exec(path);
                m.append(name.as_str());
                self.status_message = m;
            },
            Err(e) => {
                let mut m = String::from_str("Error: ");
                m.append(e.as_str());
                self.status_message = m;
            },
        }
    }

    /// Loading a file failed.
    pub fn load_failed(&mut self, error: &str)
        ensures
            final(self).playback == old(self).playback,
            final(self).current_sampler_node == old(self).current_sampler_node,
            final(self).status_message@ == "Load error: "@ + error@,
    {
        let mut m = String::from_str("Load error: ");
        m.append(error);
        self.status_message = m;
    }
}

/// Index of the first occurrence of `x` in `files`, or -1.
pub open spec fn first_index(files: Seq<String>, x: Seq<char>) -> int
    decreases files.len(),
{
    if files.len() == 0 {
        -1
    } else {
        let r = first_index(files.drop_last(), x);
        if r >= 0 {
            r
        } else if files.last()@ == x {
            files.len() - 1
        } else {
            -1
        }
    }
}

proof fn lemma_first_index(files: Seq<String>, x: Seq<char>, i: int)
    requires
        0 <= i <= files.len(),
        forall|j: int| 0 <= j < i ==> (#[trigger] files[j])@ != x,
        i < files.len() ==> files[i]@ == x,
    ensures
        first_index(files, x) == if i < files.len() { i } else { -1 },
    decreases files.len(),
{
    if files.len() > 0 {
        if i < files.len() - 1 || i == files.len() {
            if i == files.len() {
                lemma_first_index(files.drop_last(), x, i - 1);
            } else {
                lemma_first_index(files.drop_last(), x, i);
            }
        } else {
            lemma_first_index(files.drop_last(), x, i);
        }
    }
}

fn find_first(files: &Vec<String>, x: &str) -> (r: Option<usize>)
    ensures
        match r {
            Some(i) => i as int == first_index(files@, x@) && i < files.len(),
            None => first_index(files@, x@) == -1,
        },
{
    let mut i: usize = 0;
    while i < files.len()
        invariant
            i <= files.len(),
            forall|j: int| 0 <= j < i ==> (#[trigger] files@[j])@ != x@,
        decreases files.len() - i,
    {
        if str_equals(files[i].as_str(), x) {
            proof {
                lemma_first_index(files@, x@, i as int);
            }
            return Some(i);
        }
        i = i + 1;
    }
    proof {
        lemma_first_index(files@, x@, files.len() as int);
    }
    None
}

impl Default for FilePathState {
    /// Nothing selected yet.
    fn default() -> (s: FilePathState)
        ensures
            s.current_path@ == "No file selected - click Browse to load a WAV file"@,
            s.loaded_files@.len() == 0,
    {
        FilePathState {
            current_path: String::from_str("No file selected - click Browse to load a WAV file"),
            loaded_files: Vec::new(),
        }
    }
}

impl FilePathState {
    /// A file was picked in the dialog: it becomes current and joins the
    /// history unless it is already there.
    pub fn select_file(&mut self, path: String)
        ensures
            final(self).current_path == path,
            first_index(old(self).loaded_files@, path@) >= 0 ==> final(self).loaded_files@ == old(self).loaded_files@,
            first_index(old(self).loaded_files@, path@) < 0 ==> final(self).loaded_files@ == old(self).loaded_files@.push(path),
    {
        match find_first(&self.loaded_files, path.as_str()) {
            Some(_) => {},
            None => {
                self.loaded_files.push(path.clone());
            },
        }
        self.current_path = path;
    }

    /// Step through the history: the file after (`forward`) or before the
    /// current one, wrapping around, becomes current and is returned for
    /// loading. Nothing happens when the history is empty or does not hold
    /// the current path.
    pub fn step(&mut self, forward: bool) -> (r: Option<String>)
        ensures
            final(self).loaded_files == old(self).loaded_files,
            ({
                let files = old(self).loaded_files@;
                let i = first_index(files, old(self).current_path@);
                if files.len() == 0 || i < 0 {
                    r is None && final(self).current_path == old(self).current_path
                } else {
                    let j = if forward {
                        (i + 1) % (files.len() as int)
                    } else if i == 0 {
                        files.len() - 1
                    } else {
                        i - 1
                    };
                    r == Some(files[j]) && final(self).current_path == files[j]
                }
            }),
    {
        if self.loaded_files.len() == 0 {
            return None;
        }
        match find_first(&self.loaded_files, self.current_path.as_str()) {
            None => None,
            Some(i) => {
                let n = self.loaded_files.len();
                let j = if forward {
                    (i + 1) % n
                } else if i == 0 {
                    n - 1
                } else {
                    i - 1
                };
                let path = self.loaded_files[j].clone();
                self.current_path = path.clone();
                Some(path)
            },
        }
    }
}

/// No two entries of the history name the same path.
pub open spec fn distinct_paths(files: Seq<String>) -> bool {
    forall|a: int, b: int| 0 <= a < b < files.len() ==> (#[trigger] files[a])@ != (#[trigger] files[b])@
}

/// `first_index` finds the path when it is present and reports -1 only
/// when it is absent.
proof fn lemma_first_index_found(files: Seq<String>, x: Seq<char>)
    ensures
        first_index(files, x) < 0 <==> forall|j: int| 0 <= j < files.len() ==> (#[trigger] files[j])@ != x,
        first_index(files, x) >= 0 ==> 0 <= first_index(files, x) < files.len() && files[first_index(files, x)]@ == x,
    decreases files.len(),
{
    if files.len() > 0 {
        lemma_first_index_found(files.drop_last(), x);
        assert forall|j: int| 0 <= j < files.len() - 1 implies files.drop_last()[j] == files[j] by {}
        if first_index(files.drop_last(), x) >= 0 {
            let r = first_index(files.drop_last(), x);
            assert(files[r]@ == x);
        }
    }
}

/// In a history without repeats, a path's entry is found at its own index.
proof fn lemma_first_index_distinct(files: Seq<String>, j: int)
    requires
        distinct_paths(files),
        0 <= j < files.len(),
    ensures
        first_index(files, files[j]@) == j,
{
    lemma_first_index(files, files[j]@, j);
}

/// Selecting files keeps the history free of repeated paths.
pub proof fn law_history_has_no_repeats(files: Seq<String>, path: String)
    requires
        distinct_paths(files),
    ensures
        distinct_paths(if first_index(files, path@) >= 0 { files } else { files.push(path) }),
{
    lemma_first_index_found(files, path@);
    if first_index(files, path@) < 0 {
        let after = files.push(path);
        assert forall|a: int, b: int| 0 <= a < b < after.len() implies (#[trigger] after[a])@ != (#[trigger] after[b])@ by {
            if b == files.len() {
                assert(after[a] == files[a]);
            } else {
                assert(after[a] == files[a] && after[b] == files[b]);
            }
        }
    }
}

/// In a history without repeats, stepping back after stepping forward (or
/// forward after back) returns to the file that was current.
pub proof fn law_step_back_undoes_step(files: Seq<String>, i: int)
    requires
        distinct_paths(files),
        0 <= i < files.len(),
    ensures
        ({
            let n = files.len() as int;
            let fwd = (i + 1) % n;
            let back = if i == 0 { n - 1 } else { i - 1 };
            &&& first_index(files, files[fwd]@) == fwd
            &&& (if fwd == 0 { n - 1 } else { fwd - 1 }) == i
            &&& first_index(files, files[back]@) == back
            &&& (back + 1) % n == i
        }),
{
    let n = files.len() as int;
    let fwd = (i + 1) % n;
    let back = if i == 0 { n - 1 } else { i - 1 };
    if i + 1 < n {
        vstd::arithmetic::div_mod::lemma_small_mod((i + 1) as nat, n as nat);
    } else {
        vstd::arithmetic::div_mod::lemma_mod_self_0(n);
    }
    if back + 1 < n {
        vstd::arithmetic::div_mod::lemma_small_mod((back + 1) as nat, n as nat);
    } else {
        vstd::arithmetic::div_mod::lemma_mod_self_0(n);
    }
    lemma_first_index_distinct(files, fwd);
    lemma_first_index_distinct(files, back);
}

} // verus!
