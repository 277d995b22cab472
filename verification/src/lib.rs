//! Verified core of the vvdaw audio workstation: the audio graph and its
//! processing order, sessions and their validation, the audio engine's
//! command handling, the built-in processors' parameters and buffer checks,
//! sample playback, the VST3 loader's decisions, the plugin subprocess
//! protocol's state codes, plugin state streams, parameter change queues,
//! WAV file checks and the user interface's state.

pub mod ipc;
pub mod heap;
pub mod topology;
pub mod adjacency;
pub mod text;
pub mod sample_rates;
pub mod block_sizes;
pub mod errors;
pub mod graph;
pub mod session;
pub mod stream;
pub mod param_changes;
pub mod loader;
pub mod engine;
pub mod config;
pub mod builtin;
pub mod ui3d;
pub mod ui2d;
pub mod wav;
pub mod clap_host;
pub mod sampler;
pub mod waveform;
