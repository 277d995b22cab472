//! Process-state codes shared between the host and a plugin subprocess.

use vstd::prelude::*;
use crate::errors::PluginError;
use crate::text::{decimal, push_decimal};

verus! {

/// Synchronisation state stored as a `u32` in shared memory.
#[derive(Debug, Clone, Copy, PartialEq, Eq, Structural)]
pub enum ProcessState {
    /// Waiting for work
    Idle,
    /// Main process has written buffers, plugin should process
    Process,
    /// Plugin has finished processing, main can read buffers
    Done,
    /// Plugin subprocess has crashed
    Crashed,
    /// Main process requests the audio thread to shut down
    Shutdown,
}

/// The numeric code under which a state is stored.
pub open spec fn state_code(s: ProcessState) -> u32 {
    match s {
        ProcessState::Idle => 0,
        ProcessState::Process => 1,
        ProcessState::Done => 2,
        ProcessState::Crashed => 3,
        ProcessState::Shutdown => 4,
    }
}

/// The state that a stored code denotes; unknown codes read as `Idle`.
pub open spec fn state_of_code(val: u32) -> ProcessState {
    if val == 1 {
        ProcessState::Process
    } else if val == 2 {
        ProcessState::Done
    } else if val == 3 {
        ProcessState::Crashed
    } else if val == 4 {
        ProcessState::Shutdown
    } else {
        ProcessState::Idle
    }
}

impl ProcessState {
    /// Decode a stored state; any code other than 0..=4 decodes as `Idle`.
    pub fn from_u32(val: u32) -> (s: ProcessState)
        ensures
            s == state_of_code(val),
    {
        match val {
            1 => ProcessState::Process,
            2 => ProcessState::Done,
            3 => ProcessState::Crashed,
            4 => ProcessState::Shutdown,
            _ => ProcessState::Idle,
        }
    }

    /// The code under which this state is stored in shared memory.
    pub fn to_u32(self) -> (code: u32)
        ensures
            code == state_code(self),
    {
        match self {
            ProcessState::Idle => 0,
            ProcessState::Process => 1,
            ProcessState::Done => 2,
            ProcessState::Crashed => 3,
            ProcessState::Shutdown => 4,
        }
    }
}

/// Storing a state and reading it back gives the same state.
pub proof fn law_state_code_round_trip(s: ProcessState)
    ensures
        state_of_code(state_code(s)) == s,
{
}

/// Every stored code decodes to a state whose own code is either the stored
/// code (for 0..=4) or 0 (for every other code).
pub proof fn law_code_decodes_canonically(val: u32)
    ensures
        val <= 4 ==> state_code(state_of_code(val)) == val,
        val > 4 ==> state_of_code(val) == ProcessState::Idle,
{
}

/// Maximum number of audio channels carried through shared memory.
pub const MAX_CHANNELS: usize = 2;

/// Maximum number of events per processing block.
pub const MAX_EVENTS: usize = 1024;

/// Maximum number of frames per processing block.
pub const MAX_FRAMES: usize = 8192;

/// Name of a state, as printed in diagnostics.
pub open spec fn state_name(s: ProcessState) -> Seq<char> {
    match s {
        ProcessState::Idle => "Idle"@,
        ProcessState::Process => "Process"@,
        ProcessState::Done => "Done"@,
        ProcessState::Crashed => "Crashed"@,
        ProcessState::Shutdown => "Shutdown"@,
    }
}

impl ProcessState {
    /// Name of the state, as printed in diagnostics.
    pub fn name(self) -> (r: &'static str)
        ensures
            r@ == state_name(self),
    {
        match self {
            ProcessState::Idle => "Idle",
            ProcessState::Process => "Process",
            ProcessState::Done => "Done",
            ProcessState::Crashed => "Crashed",
            ProcessState::Shutdown => "Shutdown",
        }
    }
}

/// What the plugin host's audio thread does next.
#[derive(Debug, Clone, Copy, PartialEq, Eq, Structural)]
pub enum HostStep {
    /// Shutdown was requested: leave the loop
    Exit,
    /// Nothing to do yet: wait again
    Retry,
    /// The block description is invalid: publish `Crashed` and leave
    Crash,
    /// Process a block of this many frames with this many events
    Process { frames: usize, events: usize },
}

/// How processing one block in the plugin host went.
#[derive(Debug, Clone, Copy, PartialEq, Eq, Structural)]
pub enum BlockOutcome {
    /// The plugin processed the block
    Processed,
    /// The plugin was busy with a control message (output is silence)
    Busy,
    /// The plugin's lock was poisoned
    Poisoned,
    /// The plugin reported a processing error
    Failed,
}

/// Decide the host's next step after waiting for the `Process` signal.
///
/// `signalled` tells whether the state reached `Process` before the wait
/// timed out, `state` is the state read after a timeout, and the counts are
/// the block description read from shared memory.
pub fn host_step(signalled: bool, state: ProcessState, frame_count: u32, event_count: u32) -> (step: HostStep)
    ensures
        !signalled ==> step == (if state == ProcessState::Shutdown { HostStep::Exit } else { HostStep::Retry }),
        signalled && (frame_count > MAX_FRAMES || event_count > MAX_EVENTS) ==> step == HostStep::Crash,
        signalled && frame_count <= MAX_FRAMES && event_count <= MAX_EVENTS ==> step == (HostStep::Process {
            frames: frame_count as usize,
            events: event_count as usize,
        }),
{
    if !signalled {
        return if state == ProcessState::Shutdown {
            HostStep::Exit
        } else {
            HostStep::Retry
        };
    }
    if frame_count as usize > MAX_FRAMES {
        return HostStep::Crash;
    }
    if event_count as usize > MAX_EVENTS {
        return HostStep::Crash;
    }
    HostStep::Process { frames: frame_count as usize, events: event_count as usize }
}

/// State the host publishes after a block, and whether it keeps running;
/// a busy plugin yields silence but still completes the block.
pub fn host_finish(outcome: BlockOutcome) -> (r: (ProcessState, bool))
    ensures
        outcome == BlockOutcome::Processed || outcome == BlockOutcome::Busy ==> r == (ProcessState::Done, true),
        outcome == BlockOutcome::Poisoned || outcome == BlockOutcome::Failed ==> r == (ProcessState::Crashed, false),
{
    match outcome {
        BlockOutcome::Processed | BlockOutcome::Busy => (ProcessState::Done, true),
        BlockOutcome::Poisoned | BlockOutcome::Failed => (ProcessState::Crashed, false),
    }
}

/// Outcome of one block on the main-process side.
///
/// `done` tells whether the subprocess reached `Done` before the timeout,
/// `state` is the state read afterwards and `alive` whether the subprocess
/// is still running.
pub fn block_result(done: bool, state: ProcessState, alive: bool) -> (res: Result<(), PluginError>)
    ensures
        !done && state == ProcessState::Crashed ==> (res matches Err(PluginError::ProcessingFailed(m)) && m@
            == "Subprocess crashed during processing"@),
        !done && state != ProcessState::Crashed && !alive ==> (res matches Err(PluginError::ProcessingFailed(m)) && m@
            == "Subprocess died during processing"@),
        !done && state != ProcessState::Crashed && alive ==> (res matches Err(PluginError::ProcessingFailed(m)) && m@
            == "Audio processing timeout"@),
        done && state != ProcessState::Done ==> (res matches Err(PluginError::ProcessingFailed(m)) && m@
            == "Unexpected state after processing: "@ + state_name(state)),
        done && state == ProcessState::Done ==> res is Ok,
{
    if !done {
        if state == ProcessState::Crashed {
            return Err(PluginError::ProcessingFailed(String::from_str("Subprocess crashed during processing")));
        }
        if !alive {
            return Err(PluginError::ProcessingFailed(String::from_str("Subprocess died during processing")));
        }
        return Err(PluginError::ProcessingFailed(String::from_str("Audio processing timeout")));
    }
    if state != ProcessState::Done {
        let mut m = String::from_str("Unexpected state after processing: ");
        m.append(state.name());
        return Err(PluginError::ProcessingFailed(m));
    }
    Ok(())
}

/// Checks made before a block is handed to the plugin subprocess: the
/// plugin must be initialised, the subprocess alive, and the block no longer
/// than the shared buffers.
pub fn check_process_request(initialized: bool, alive: bool, frames: usize) -> (res: Result<(), PluginError>)
    ensures
        !initialized ==> (res matches Err(PluginError::ProcessingFailed(m)) && m@ == "Plugin not initialized"@),
        initialized && !alive ==> (res matches Err(PluginError::ProcessingFailed(m)) && m@ == "Subprocess has crashed"@),
        initialized && alive && frames > MAX_FRAMES ==> (res matches Err(PluginError::ProcessingFailed(m)) && m@
            == "Frame count "@ + decimal(frames as nat) + " exceeds maximum buffer size 8192"@),
        initialized && alive && frames <= MAX_FRAMES ==> res is Ok,
{
    if !initialized {
        return Err(PluginError::ProcessingFailed(String::from_str("Plugin not initialized")));
    }
    if !alive {
        return Err(PluginError::ProcessingFailed(String::from_str("Subprocess has crashed")));
    }
    if frames > MAX_FRAMES {
        let mut m = String::from_str("Frame count ");
        push_decimal(&mut m, frames as u64);
        m.append(" exceeds maximum buffer size 8192");
        return Err(PluginError::ProcessingFailed(m));
    }
    Ok(())
}

} // verus!
