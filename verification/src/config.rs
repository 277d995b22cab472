//! Audio engine configuration.

use vstd::prelude::*;

verus! {

/// Audio configuration
#[derive(Debug, Clone, Copy)]
pub struct AudioConfig {
    pub sample_rate: u32,
    pub block_size: usize,
    pub input_channels: usize,
    pub output_channels: usize,
}

impl Default for AudioConfig {
    /// 48 kHz, 256-frame blocks, stereo in and out.
    fn default() -> (c: AudioConfig)
        ensures
            c.sample_rate == 48000,
            c.block_size == 256,
            c.input_channels == 2,
            c.output_channels == 2,
    {
        AudioConfig { sample_rate: 48000, block_size: 256, input_channels: 2, output_channels: 2 }
    }
}

} // verus!
