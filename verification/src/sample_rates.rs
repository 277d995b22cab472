//! Common sample rates, in Hz.

use vstd::prelude::*;

verus! {

/// 44.1 kHz sample rate (CD quality)
pub const SR_44100: u32 = 44100;

/// 48 kHz sample rate (professional audio standard)
pub const SR_48000: u32 = 48000;

/// 88.2 kHz sample rate (2x CD quality)
pub const SR_88200: u32 = 88200;

/// 96 kHz sample rate (high resolution audio)
pub const SR_96000: u32 = 96000;

} // verus!
