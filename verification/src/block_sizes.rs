//! Audio buffer block sizes, in frames.

use vstd::prelude::*;

verus! {

/// 64 frames per block (very low latency, ~1.3ms @ 48kHz)
pub const BLOCK_64: usize = 64;

/// 128 frames per block (low latency, ~2.7ms @ 48kHz)
pub const BLOCK_128: usize = 128;

/// 256 frames per block (balanced, ~5.3ms @ 48kHz)
pub const BLOCK_256: usize = 256;

/// 512 frames per block (higher latency, ~10.7ms @ 48kHz)
pub const BLOCK_512: usize = 512;

} // verus!
