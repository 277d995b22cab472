//! State of the 3D view: file loading status and playback status.

use vstd::prelude::*;

verus! {

/// File loading status and the last error.
#[derive(Debug, Clone)]
pub struct FileLoadingState {
    pub is_loading: bool,
    pub error: Option<String>,
}

impl Default for FileLoadingState {
    /// Idle, no error.
    fn default() -> (s: FileLoadingState)
        ensures
            !s.is_loading,
            s.error is None,
    {
        FileLoadingState { is_loading: false, error: None }
    }
}

impl FileLoadingState {
    /// A load has started; any earlier error is cleared.
    pub fn start_loading(&mut self)
        ensures
            final(self).is_loading,
            final(self).error is None,
    {
        self.is_loading = true;
        self.error = None;
    }

    /// The load finished successfully.
    pub fn complete_successfully(&mut self)
        ensures
            !final(self).is_loading,
            final(self).error is None,
    {
        self.is_loading = false;
        self.error = None;
    }

    /// The load failed with this error.
    pub fn fail_with_error(&mut self, error: String)
        ensures
            !final(self).is_loading,
            final(self).error == Some(error),
    {
        self.is_loading = false;
        self.error = Some(error);
    }

    /// Dismiss the error.
    pub fn clear_error(&mut self)
        ensures
            final(self).is_loading == old(self).is_loading,
            final(self).error is None,
    {
        self.error = None;
    }
}

/// Transport status.
#[derive(Debug, Clone, Copy, PartialEq, Eq, Structural)]
pub enum PlaybackStatus {
    Stopped,
    Playing,
    Paused,
}

/// Commands for controlling playback.
#[derive(Debug, Clone, Copy, PartialEq, Eq, Structural)]
pub enum PlaybackCommand {
    Play,
    Pause,
    Stop,
    /// Play if stopped or paused, pause if playing
    Toggle,
    /// Jump to a position (bits of the `f32` seconds); the status is kept
    Seek(u32),
}

/// Status after a command.
pub open spec fn status_after(s: PlaybackStatus, c: PlaybackCommand) -> PlaybackStatus {
    match c {
        PlaybackCommand::Play => PlaybackStatus::Playing,
        PlaybackCommand::Pause => PlaybackStatus::Paused,
        PlaybackCommand::Stop => PlaybackStatus::Stopped,
        PlaybackCommand::Toggle => match s {
            PlaybackStatus::Playing => PlaybackStatus::Paused,
            _ => PlaybackStatus::Playing,
        },
        PlaybackCommand::Seek(_) => s,
    }
}

impl PlaybackStatus {
    /// The status after applying a command.
    pub fn apply(self, cmd: PlaybackCommand) -> (r: PlaybackStatus)
        ensures
            r == status_after(self, cmd),
            cmd is Seek ==> r == self,
    {
        match cmd {
            PlaybackCommand::Play => PlaybackStatus::Playing,
            PlaybackCommand::Pause => PlaybackStatus::Paused,
            PlaybackCommand::Stop => PlaybackStatus::Stopped,
            PlaybackCommand::Toggle => match self {
                PlaybackStatus::Playing => PlaybackStatus::Paused,
                _ => PlaybackStatus::Playing,
            },
            PlaybackCommand::Seek(_) => self,
        }
    }
}

/// Seeking only moves the position: whatever the status and the target
/// position, the status after a seek is the status before it.
pub proof fn law_seek_keeps_status(s: PlaybackStatus, position_bits: u32)
    ensures
        status_after(s, PlaybackCommand::Seek(position_bits)) == s,
{
}

/// Play, pause and stop set the status whatever it was; toggling switches
/// between playing and not playing.
pub proof fn law_transport_commands(s: PlaybackStatus)
    ensures
        status_after(s, PlaybackCommand::Play) == PlaybackStatus::Playing,
        status_after(s, PlaybackCommand::Pause) == PlaybackStatus::Paused,
        status_after(s, PlaybackCommand::Stop) == PlaybackStatus::Stopped,
        (status_after(s, PlaybackCommand::Toggle) == PlaybackStatus::Playing) <==> s != PlaybackStatus::Playing,
        status_after(s, PlaybackCommand::Toggle) != PlaybackStatus::Stopped,
{
}

/// Toggling twice from playing or paused returns to the same status; from
/// stopped it ends paused.
pub proof fn law_toggle_twice(s: PlaybackStatus)
    ensures
        s != PlaybackStatus::Stopped ==> status_after(status_after(s, PlaybackCommand::Toggle), PlaybackCommand::Toggle) == s,
        s == PlaybackStatus::Stopped ==> status_after(status_after(s, PlaybackCommand::Toggle), PlaybackCommand::Toggle)
            == PlaybackStatus::Paused,
{
}

} // verus!
