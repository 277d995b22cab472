//! Sample playback: a loaded clip of interleaved stereo samples played in a
//! loop from a running frame position.
//!
//! The processor is generic over the sample type; it only moves samples and
//! never computes with them.

use vstd::prelude::*;
use crate::errors::{PluginError, PluginInfo};
use crate::text::{decimal, push_decimal};

verus! {

/// Sample playback processor (no inputs, stereo output, no parameters).
pub struct SamplerProcessor<T> {
    /// Interleaved stereo samples `[L, R, L, R, ...]`
    samples: Vec<T>,
    /// Playback position, in frames
    position: usize,
    /// Sample rate of the loaded audio
    audio_sample_rate: u32,
    /// Sample rate of the engine
    engine_sample_rate: u32,
    info: PluginInfo,
}

/// Message when the sampler gets the wrong number of outputs.
pub open spec fn sampler_outputs_message(got: nat) -> Seq<char> {
    "Sampler requires exactly 2 outputs (stereo), got "@ + decimal(got)
}

/// Message when an output buffer is too short.
pub open spec fn sampler_short_message(ch: nat, len: nat, frames: nat) -> Seq<char> {
    "Output channel "@ + decimal(ch) + " has "@ + decimal(len) + " samples, need at least "@ + decimal(frames)
}

/// Message for any parameter id.
pub open spec fn no_parameter_message(id: u32) -> Seq<char> {
    "Sampler has no parameter with id "@ + decimal(id as nat)
}

/// Frame `f` of a clip, channel `ch` (0 left, 1 right).
pub open spec fn clip_sample<T>(samples: Seq<T>, f: int, ch: int) -> T {
    samples[f * 2 + ch]
}

/// One output channel of `frames` frames played from `position`: the clip
/// loops; an empty clip plays `silence`.
pub open spec fn played<T>(samples: Seq<T>, position: int, frames: nat, ch: int, silence: T) -> Seq<T> {
    let fc = samples.len() / 2;
    Seq::new(
        frames,
        |i: int|
            if fc == 0 {
                silence
            } else {
                clip_sample(samples, (position + i) % (fc as int), ch)
            },
    )
}

fn no_parameter_error(id: u32) -> (e: PluginError)
    ensures
        e matches PluginError::InvalidParameter(m) && m@ == no_parameter_message(id),
{
    let mut m = String::from_str("Sampler has no parameter with id ");
    push_decimal(&mut m, id as u64);
    PluginError::InvalidParameter(m)
}

impl<T: Copy> SamplerProcessor<T> {
    pub closed spec fn sample_list(&self) -> Seq<T> {
        self.samples@
    }

    pub closed spec fn pos(&self) -> usize {
        self.position
    }

    pub closed spec fn audio_rate(&self) -> u32 {
        self.audio_sample_rate
    }

    pub closed spec fn engine_rate(&self) -> u32 {
        self.engine_sample_rate
    }

    pub closed spec fn plugin_info(&self) -> PluginInfo {
        self.info
    }

    /// A sampler for a clip recorded at `sample_rate`, at its start; the
    /// engine rate is 48 kHz until initialisation.
    pub fn new(samples: Vec<T>, sample_rate: u32) -> (s: SamplerProcessor<T>)
        ensures
            s.sample_list() == samples@,
            s.pos() == 0,
            s.audio_rate() == sample_rate,
            s.engine_rate() == 48000,
            s.plugin_info().name@ == "Sampler"@,
            s.plugin_info().vendor@ == "vvdaw"@,
            s.plugin_info().version@ == "1.0.0"@,
            s.plugin_info().unique_id@ == "vvdaw.builtin.sampler"@,
    {
        SamplerProcessor {
            samples,
            position: 0,
            audio_sample_rate: sample_rate,
            engine_sample_rate: 48000,
            info: PluginInfo {
                name: String::from_str("Sampler"),
                vendor: String::from_str("vvdaw"),
                version: String::from_str("1.0.0"),
                unique_id: String::from_str("vvdaw.builtin.sampler"),
            },
        }
    }

    /// Number of whole stereo frames in the clip.
    pub fn frame_count(&self) -> (n: usize)
        ensures
            n == self.sample_list().len() / 2,
    {
        self.samples.len() / 2
    }

    /// Plugin information.
    pub fn info(&self) -> (r: &PluginInfo)
        ensures
            *r == self.plugin_info(),
    {
        &self.info
    }

    /// Playback position, in frames.
    pub fn position(&self) -> (r: usize)
        ensures
            r == self.pos(),
    {
        self.position
    }

    /// Sample rate the clip was recorded at.
    pub fn audio_sample_rate(&self) -> (r: u32)
        ensures
            r == self.audio_rate(),
    {
        self.audio_sample_rate
    }

    /// Run at the engine's sample rate (no rate conversion is made: a clip
    /// recorded at another rate plays at the wrong speed).
    pub fn initialize(&mut self, sample_rate: u32, max_block_size: usize) -> (res: Result<(), PluginError>)
        ensures
            res is Ok,
            final(self).engine_rate() == sample_rate,
            final(self).sample_list() == old(self).sample_list(),
            final(self).pos() == old(self).pos(),
            final(self).audio_rate() == old(self).audio_rate(),
            final(self).plugin_info() == old(self).plugin_info(),
    {
        self.engine_sample_rate = sample_rate;
        Ok(())
    }

    /// No inputs.
    pub fn input_channels(&self) -> (n: usize)
        ensures
            n == 0,
    {
        0
    }

    /// Stereo out.
    pub fn output_channels(&self) -> (n: usize)
        ensures
            n == 2,
    {
        2
    }

    /// Check the outputs of a processing call: exactly 2, each holding at
    /// least `frames` samples (the first short one is reported).
    pub fn check_outputs(output_lens: &Vec<usize>, frames: usize) -> (res: Result<(), PluginError>)
        ensures
            output_lens@.len() != 2 ==> (res matches Err(PluginError::ProcessingFailed(m)) && m@
                == sampler_outputs_message(output_lens@.len())),
            output_lens@.len() == 2 && output_lens@[0] < frames ==> (res matches Err(PluginError::ProcessingFailed(m))
                && m@ == sampler_short_message(0, output_lens@[0] as nat, frames as nat)),
            output_lens@.len() == 2 && output_lens@[0] >= frames && output_lens@[1] < frames ==> (res matches Err(
                PluginError::ProcessingFailed(m),
            ) && m@ == sampler_short_message(1, output_lens@[1] as nat, frames as nat)),
            output_lens@.len() == 2 && output_lens@[0] >= frames && output_lens@[1] >= frames ==> res is Ok,
    {
        if output_lens.len() != 2 {
            let mut m = String::from_str("Sampler requires exactly 2 outputs (stereo), got ");
            push_decimal(&mut m, output_lens.len() as u64);
            return Err(PluginError::ProcessingFailed(m));
        }
        let mut ch: usize = 0;
        while ch < 2
            invariant
                ch <= 2,
                output_lens@.len() == 2,
                forall|j: int| 0 <= j < ch ==> output_lens@[j] >= frames,
            decreases 2 - ch,
        {
            if output_lens[ch] < frames {
                let mut m = String::from_str("Output channel ");
                push_decimal(&mut m, ch as u64);
                m.append(" has ");
                push_decimal(&mut m, output_lens[ch] as u64);
                m.append(" samples, need at least ");
                push_decimal(&mut m, frames as u64);
                return Err(PluginError::ProcessingFailed(m));
            }
            ch = ch + 1;
        }
        Ok(())
    }

    /// Play `frames` frames: returns the left and right channels and
    /// advances the position by `frames` (an empty clip plays `silence` and
    /// keeps its position).
    pub fn render(&mut self, frames: usize, silence: T) -> (out: (Vec<T>, Vec<T>))
        requires
            old(self).pos() + frames <= usize::MAX,
        ensures
            out.0@ == played(old(self).sample_list(), old(self).pos() as int, frames as nat, 0, silence),
            out.1@ == played(old(self).sample_list(), old(self).pos() as int, frames as nat, 1, silence),
            final(self).pos() == if old(self).sample_list().len() / 2 == 0 {
                old(self).pos() as int
            } else {
                old(self).pos() + frames
            },
            final(self).sample_list() == old(self).sample_list(),
            final(self).audio_rate() == old(self).audio_rate(),
            final(self).engine_rate() == old(self).engine_rate(),
            final(self).plugin_info() == old(self).plugin_info(),
    {
        let fc = self.samples.len() / 2;
        let mut left: Vec<T> = Vec::new();
        let mut right: Vec<T> = Vec::new();
        if fc == 0 {
            let mut i: usize = 0;
            while i < frames
                invariant
                    i <= frames,
                    fc == self.samples@.len() / 2,
                    fc == 0,
                    left@ == played(self.samples@, self.position as int, i as nat, 0, silence),
                    right@ == played(self.samples@, self.position as int, i as nat, 1, silence),
                decreases frames - i,
            {
                left.push(silence);
                right.push(silence);
                i = i + 1;
                assert(left@ =~= played(self.samples@, self.position as int, i as nat, 0, silence));
                assert(right@ =~= played(self.samples@, self.position as int, i as nat, 1, silence));
            }
            return (left, right);
        }
        let ghost start = self.position;
        let mut i: usize = 0;
        while i < frames
            invariant
                i <= frames,
                start == old(self).position,
                start + frames <= usize::MAX,
                self.samples@ == old(self).samples@,
                self.audio_sample_rate == old(self).audio_sample_rate,
                self.engine_sample_rate == old(self).engine_sample_rate,
                self.info == old(self).info,
                fc == self.samples@.len() / 2,
                fc > 0,
                self.position == start + i,
                left@ == played(self.samples@, start as int, i as nat, 0, silence),
                right@ == played(self.samples@, start as int, i as nat, 1, silence),
            decreases frames - i,
        {
            let frame_pos = self.position % fc;
            proof {
                vstd::arithmetic::div_mod::lemma_mod_pos_bound(self.position as int, fc as int);
                assert(frame_pos < fc);
                assert(fc * 2 <= self.samples@.len());
                assert(frame_pos * 2 + 1 < self.samples.len());
            }
            let sample_pos = frame_pos * 2;
            left.push(self.samples[sample_pos]);
            right.push(self.samples[sample_pos + 1]);
            self.position = self.position + 1;
            i = i + 1;
            assert(left@ =~= played(self.samples@, start as int, i as nat, 0, silence));
            assert(right@ =~= played(self.samples@, start as int, i as nat, 1, silence));
        }
        (left, right)
    }

    /// The sampler has no parameters: every id is refused.
    pub fn get_parameter(&self, id: u32) -> (res: Result<u32, PluginError>)
        ensures
            res matches Err(PluginError::InvalidParameter(m)) && m@ == no_parameter_message(id),
    {
        Err(no_parameter_error(id))
    }

    /// The sampler has no parameters: every id is refused.
    pub fn set_parameter(&mut self, id: u32, value_bits: u32) -> (res: Result<(), PluginError>)
        ensures
            res matches Err(PluginError::InvalidParameter(m)) && m@ == no_parameter_message(id),
            final(self).sample_list() == old(self).sample_list(),
            final(self).pos() == old(self).pos(),
            final(self).audio_rate() == old(self).audio_rate(),
            final(self).engine_rate() == old(self).engine_rate(),
            final(self).plugin_info() == old(self).plugin_info(),
    {
        Err(no_parameter_error(id))
    }

    /// Deactivation rewinds to the start of the clip.
    pub fn deactivate(&mut self)
        ensures
            final(self).pos() == 0,
            final(self).sample_list() == old(self).sample_list(),
            final(self).audio_rate() == old(self).audio_rate(),
            final(self).engine_rate() == old(self).engine_rate(),
            final(self).plugin_info() == old(self).plugin_info(),
    {
        self.position = 0;
    }
}

} // verus!
