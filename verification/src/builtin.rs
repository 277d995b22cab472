//! Built-in processors: their identity, parameter storage and the checks
//! they make on the buffers they are given.
//!
//! Parameter values are stored as the bit patterns of their `f32` values;
//! the sample arithmetic and the clamping of values to their ranges are
//! done by the host's audio code.

use vstd::prelude::*;
use crate::errors::{PluginError, PluginInfo};
use crate::text::{decimal, push_decimal, str_equals};

verus! {

/// Bits of the `f32` value 1.0 (unity gain).
pub const UNITY_BITS: u32 = 0x3F80_0000;

/// Bits of the `f32` value 0.0 (centre pan).
pub const ZERO_BITS: u32 = 0;

/// The kinds of built-in processor.
#[derive(Debug, Clone, Copy, PartialEq, Eq, Structural)]
pub enum BuiltinKind {
    Gain,
    Mixer,
    Pan,
}

/// Built-in processor named by a string, if any.
pub open spec fn builtin_named(name: Seq<char>) -> Option<BuiltinKind> {
    if name == "gain"@ {
        Some(BuiltinKind::Gain)
    } else if name == "mixer"@ {
        Some(BuiltinKind::Mixer)
    } else if name == "pan"@ {
        Some(BuiltinKind::Pan)
    } else {
        None
    }
}

/// Look up a built-in processor by name (`gain`, `mixer` or `pan`).
pub fn builtin_kind(name: &str) -> (k: Option<BuiltinKind>)
    ensures
        k == builtin_named(name@),
{
    if str_equals(name, "gain") {
        Some(BuiltinKind::Gain)
    } else if str_equals(name, "mixer") {
        Some(BuiltinKind::Mixer)
    } else if str_equals(name, "pan") {
        Some(BuiltinKind::Pan)
    } else {
        None
    }
}

/// Message for an unknown parameter id.
pub open spec fn unknown_parameter(id: u32) -> Seq<char> {
    "Unknown parameter ID: "@ + decimal(id as nat)
}

fn unknown_parameter_error(id: u32) -> (e: PluginError)
    ensures
        e matches PluginError::InvalidParameter(m) && m@ == unknown_parameter(id),
{
    let mut m = String::from_str("Unknown parameter ID: ");
    push_decimal(&mut m, id as u64);
    PluginError::InvalidParameter(m)
}

fn info_of(name: &str, unique_id: &str) -> (i: PluginInfo)
    ensures
        i.name@ == name@,
        i.vendor@ == "vvdaw"@,
        i.version@ == "1.0.0"@,
        i.unique_id@ == unique_id@,
{
    PluginInfo {
        name: String::from_str(name),
        vendor: String::from_str("vvdaw"),
        version: String::from_str("1.0.0"),
        unique_id: String::from_str(unique_id),
    }
}

/// Message when a processor gets the wrong number of channels.
pub open spec fn channel_count_message(processor: Seq<char>, what: Seq<char>, got: nat) -> Seq<char> {
    processor + " processor requires exactly "@ + what + ", got "@ + decimal(got)
}

fn channel_count_text(processor: &str, what: &str, got: usize) -> (m: String)
    ensures
        m@ == channel_count_message(processor@, what@, got as nat),
{
    let mut m = String::from_str(processor);
    m.append(" processor requires exactly ");
    m.append(what);
    m.append(", got ");
    push_decimal(&mut m, got as u64);
    m
}

/// Message when a channel buffer is too short.
pub open spec fn short_buffer_message(direction: Seq<char>, ch: nat, len: nat, frames: nat) -> Seq<char> {
    direction + " channel "@ + decimal(ch) + " has "@ + decimal(len) + " samples, need at least "@ + decimal(frames)
}

/// Index of the first buffer shorter than `frames`, or the number of
/// buffers when none is.
pub open spec fn first_short(lens: Seq<usize>, frames: usize) -> int
    decreases lens.len(),
{
    if lens.len() == 0 {
        0
    } else if lens[0] < frames {
        0
    } else {
        1 + first_short(lens.drop_first(), frames)
    }
}

proof fn lemma_first_short(lens: Seq<usize>, frames: usize, i: int)
    requires
        0 <= i <= lens.len(),
        forall|j: int| 0 <= j < i ==> #[trigger] lens[j] >= frames,
        i < lens.len() ==> lens[i] < frames,
    ensures
        first_short(lens, frames) == i,
    decreases lens.len(),
{
    if lens.len() > 0 && i > 0 {
        assert forall|j: int| 0 <= j < i - 1 implies #[trigger] lens.drop_first()[j] >= frames by {
            assert(lens.drop_first()[j] == lens[j + 1]);
        }
        if i < lens.len() {
            assert(lens.drop_first()[i - 1] == lens[i]);
        }
        lemma_first_short(lens.drop_first(), frames, i - 1);
    }
}

fn short_buffer_error(direction: &str, ch: usize, len: usize, frames: usize) -> (e: PluginError)
    ensures
        e matches PluginError::ProcessingFailed(m) && m@ == short_buffer_message(direction@, ch as nat, len as nat, frames as nat),
{
    let mut m = String::from_str(direction);
    m.append(" channel ");
    push_decimal(&mut m, ch as u64);
    m.append(" has ");
    push_decimal(&mut m, len as u64);
    m.append(" samples, need at least ");
    push_decimal(&mut m, frames as u64);
    PluginError::ProcessingFailed(m)
}

/// Check that every buffer holds at least `frames` samples; reports the
/// first short one.
fn check_lengths(direction: &str, lens: &Vec<usize>, frames: usize) -> (res: Result<(), PluginError>)
    ensures
        first_short(lens@, frames) <= lens@.len(),
        first_short(lens@, frames) == lens@.len() ==> res is Ok,
        first_short(lens@, frames) < lens@.len() ==> (res matches Err(PluginError::ProcessingFailed(m)) && m@
            == short_buffer_message(
            direction@,
            first_short(lens@, frames) as nat,
            lens@[first_short(lens@, frames)] as nat,
            frames as nat,
        )),
{
    let mut i: usize = 0;
    while i < lens.len()
        invariant
            i <= lens.len(),
            forall|j: int| 0 <= j < i ==> #[trigger] lens@[j] >= frames,
        decreases lens.len() - i,
    {
        if lens[i] < frames {
            proof {
                lemma_first_short(lens@, frames, i as int);
            }
            return Err(short_buffer_error(direction, i, lens[i], frames));
        }
        i = i + 1;
    }
    proof {
        lemma_first_short(lens@, frames, lens.len() as int);
    }
    Ok(())
}

/// What checking a processor's buffers yields: the channel counts must be
/// exactly as required, then every input and every output buffer must hold
/// at least `frames` samples (inputs are checked first).
pub open spec fn buffers_ok(
    processor: Seq<char>,
    want_in: nat,
    in_what: Seq<char>,
    want_out: nat,
    out_what: Seq<char>,
    input_lens: Seq<usize>,
    output_lens: Seq<usize>,
    frames: usize,
    res: Result<(), PluginError>,
) -> bool {
    if input_lens.len() != want_in {
        res matches Err(PluginError::ProcessingFailed(m)) && m@ == channel_count_message(processor, in_what, input_lens.len())
    } else if output_lens.len() != want_out {
        res matches Err(PluginError::ProcessingFailed(m)) && m@ == channel_count_message(processor, out_what, output_lens.len())
    } else if first_short(input_lens, frames) < input_lens.len() {
        res matches Err(PluginError::ProcessingFailed(m)) && m@ == short_buffer_message(
            "Input"@,
            first_short(input_lens, frames) as nat,
            input_lens[first_short(input_lens, frames)] as nat,
            frames as nat,
        )
    } else if first_short(output_lens, frames) < output_lens.len() {
        res matches Err(PluginError::ProcessingFailed(m)) && m@ == short_buffer_message(
            "Output"@,
            first_short(output_lens, frames) as nat,
            output_lens[first_short(output_lens, frames)] as nat,
            frames as nat,
        )
    } else {
        res is Ok
    }
}

fn check_buffers(
    processor: &str,
    want_in: usize,
    in_what: &str,
    want_out: usize,
    out_what: &str,
    input_lens: &Vec<usize>,
    output_lens: &Vec<usize>,
    frames: usize,
) -> (res: Result<(), PluginError>)
    ensures
        buffers_ok(processor@, want_in as nat, in_what@, want_out as nat, out_what@, input_lens@, output_lens@, frames, res),
{
    if input_lens.len() != want_in {
        return Err(PluginError::ProcessingFailed(channel_count_text(processor, in_what, input_lens.len())));
    }
    if output_lens.len() != want_out {
        return Err(PluginError::ProcessingFailed(channel_count_text(processor, out_what, output_lens.len())));
    }
    match check_lengths("Input", input_lens, frames) {
        Ok(()) => check_lengths("Output", output_lens, frames),
        Err(e) => Err(e),
    }
}

/// Simple gain/volume processor (gain 0.0 to 2.0, default 1.0).
pub struct GainProcessor {
    gain: u32,
    sample_rate: u32,
    info: PluginInfo,
}

/// Two-input stereo mixer with per-input gains and a master gain.
pub struct MixerProcessor {
    input1_gain: u32,
    input2_gain: u32,
    master_gain: u32,
    sample_rate: u32,
    info: PluginInfo,
}

/// Constant-power stereo pan (-1.0 full left to 1.0 full right).
pub struct PanProcessor {
    pan: u32,
    sample_rate: u32,
    info: PluginInfo,
}

impl Default for GainProcessor {
    /// Unity gain at 48 kHz.
    fn default() -> (p: GainProcessor)
        ensures
            p.gain_bits() == UNITY_BITS,
            p.rate() == 48000,
            p.plugin_info().name@ == "Gain"@,
            p.plugin_info().vendor@ == "vvdaw"@,
            p.plugin_info().version@ == "1.0.0"@,
            p.plugin_info().unique_id@ == "vvdaw.builtin.gain"@,
    {
        GainProcessor { gain: UNITY_BITS, sample_rate: 48000, info: info_of("Gain", "vvdaw.builtin.gain") }
    }
}

impl GainProcessor {
    pub closed spec fn gain_bits(&self) -> u32 {
        self.gain
    }

    pub closed spec fn rate(&self) -> u32 {
        self.sample_rate
    }

    pub closed spec fn plugin_info(&self) -> PluginInfo {
        self.info
    }

    /// Plugin information.
    pub fn info(&self) -> (r: &PluginInfo)
        ensures
            *r == self.plugin_info(),
    {
        &self.info
    }

    /// Initialise at a sample rate (any block size is accepted).
    pub fn initialize(&mut self, sample_rate: u32, max_block_size: usize) -> (res: Result<(), PluginError>)
        ensures
            res is Ok,
            final(self).rate() == sample_rate,
            final(self).gain_bits() == old(self).gain_bits(),
            final(self).plugin_info() == old(self).plugin_info(),
    {
        self.sample_rate = sample_rate;
        Ok(())
    }

    /// Store a parameter value (already clamped to its range): id 0 is the
    /// gain; other ids are refused.
    pub fn set_parameter(&mut self, id: u32, value_bits: u32) -> (res: Result<(), PluginError>)
        ensures
            id == 0 ==> res is Ok && final(self).gain_bits() == value_bits,
            id != 0 ==> (res matches Err(PluginError::InvalidParameter(m)) && m@ == unknown_parameter(id))
                && final(self).gain_bits() == old(self).gain_bits(),
            final(self).rate() == old(self).rate(),
            final(self).plugin_info() == old(self).plugin_info(),
    {
        if id == 0 {
            self.gain = value_bits;
            Ok(())
        } else {
            Err(unknown_parameter_error(id))
        }
    }

    /// Read a parameter value: id 0 is the gain; other ids are refused.
    pub fn get_parameter(&self, id: u32) -> (res: Result<u32, PluginError>)
        ensures
            id == 0 ==> res == Ok::<u32, PluginError>(self.gain_bits()),
            id != 0 ==> (res matches Err(PluginError::InvalidParameter(m)) && m@ == unknown_parameter(id)),
    {
        if id == 0 {
            Ok(self.gain)
        } else {
            Err(unknown_parameter_error(id))
        }
    }

    /// Stereo in.
    pub fn input_channels(&self) -> (n: usize)
        ensures
            n == 2,
    {
        2
    }

    /// Stereo out.
    pub fn output_channels(&self) -> (n: usize)
        ensures
            n == 2,
    {
        2
    }

    /// Check the buffers of a processing call: 2 inputs, 2 outputs, each
    /// holding at least `frames` samples.
    pub fn check_buffers(input_lens: &Vec<usize>, output_lens: &Vec<usize>, frames: usize) -> (res: Result<(), PluginError>)
        ensures
            buffers_ok("Gain"@, 2, "2 inputs (stereo)"@, 2, "2 outputs (stereo)"@, input_lens@, output_lens@, frames, res),
    {
        check_buffers("Gain", 2, "2 inputs (stereo)", 2, "2 outputs (stereo)", input_lens, output_lens, frames)
    }
}

impl Default for MixerProcessor {
    /// Unity gains at 48 kHz.
    fn default() -> (p: MixerProcessor)
        ensures
            p.input1_bits() == UNITY_BITS,
            p.input2_bits() == UNITY_BITS,
            p.master_bits() == UNITY_BITS,
            p.rate() == 48000,
            p.plugin_info().name@ == "Mixer"@,
            p.plugin_info().vendor@ == "vvdaw"@,
            p.plugin_info().version@ == "1.0.0"@,
            p.plugin_info().unique_id@ == "vvdaw.builtin.mixer"@,
    {
        MixerProcessor {
            input1_gain: UNITY_BITS,
            input2_gain: UNITY_BITS,
            master_gain: UNITY_BITS,
            sample_rate: 48000,
            info: info_of("Mixer", "vvdaw.builtin.mixer"),
        }
    }
}

impl MixerProcessor {
    pub closed spec fn input1_bits(&self) -> u32 {
        self.input1_gain
    }

    pub closed spec fn input2_bits(&self) -> u32 {
        self.input2_gain
    }

    pub closed spec fn master_bits(&self) -> u32 {
        self.master_gain
    }

    pub closed spec fn rate(&self) -> u32 {
        self.sample_rate
    }

    pub closed spec fn plugin_info(&self) -> PluginInfo {
        self.info
    }

    /// Plugin information.
    pub fn info(&self) -> (r: &PluginInfo)
        ensures
            *r == self.plugin_info(),
    {
        &self.info
    }

    /// Initialise at a sample rate (any block size is accepted).
    pub fn initialize(&mut self, sample_rate: u32, max_block_size: usize) -> (res: Result<(), PluginError>)
        ensures
            res is Ok,
            final(self).rate() == sample_rate,
            final(self).input1_bits() == old(self).input1_bits(),
            final(self).input2_bits() == old(self).input2_bits(),
            final(self).master_bits() == old(self).master_bits(),
            final(self).plugin_info() == old(self).plugin_info(),
    {
        self.sample_rate = sample_rate;
        Ok(())
    }

    /// Store a parameter value (already clamped to its range): 0 is the
    /// input 1 gain, 1 the input 2 gain, 2 the master gain; other ids are
    /// refused.
    pub fn set_parameter(&mut self, id: u32, value_bits: u32) -> (res: Result<(), PluginError>)
        ensures
            id <= 2 ==> res is Ok,
            id > 2 ==> (res matches Err(PluginError::InvalidParameter(m)) && m@ == unknown_parameter(id)),
            final(self).input1_bits() == if id == 0 { value_bits } else { old(self).input1_bits() },
            final(self).input2_bits() == if id == 1 { value_bits } else { old(self).input2_bits() },
            final(self).master_bits() == if id == 2 { value_bits } else { old(self).master_bits() },
            final(self).rate() == old(self).rate(),
            final(self).plugin_info() == old(self).plugin_info(),
    {
        if id == 0 {
            self.input1_gain = value_bits;
            Ok(())
        } else if id == 1 {
            self.input2_gain = value_bits;
            Ok(())
        } else if id == 2 {
            self.master_gain = value_bits;
            Ok(())
        } else {
            Err(unknown_parameter_error(id))
        }
    }

    /// Read a parameter value; ids above 2 are refused.
    pub fn get_parameter(&self, id: u32) -> (res: Result<u32, PluginError>)
        ensures
            id == 0 ==> res == Ok::<u32, PluginError>(self.input1_bits()),
            id == 1 ==> res == Ok::<u32, PluginError>(self.input2_bits()),
            id == 2 ==> res == Ok::<u32, PluginError>(self.master_bits()),
            id > 2 ==> (res matches Err(PluginError::InvalidParameter(m)) && m@ == unknown_parameter(id)),
    {
        if id == 0 {
            Ok(self.input1_gain)
        } else if id == 1 {
            Ok(self.input2_gain)
        } else if id == 2 {
            Ok(self.master_gain)
        } else {
            Err(unknown_parameter_error(id))
        }
    }

    /// Two stereo inputs.
    pub fn input_channels(&self) -> (n: usize)
        ensures
            n == 4,
    {
        4
    }

    /// One stereo output.
    pub fn output_channels(&self) -> (n: usize)
        ensures
            n == 2,
    {
        2
    }

    /// Check the buffers of a processing call: 4 inputs, 2 outputs, each
    /// holding at least `frames` samples.
    pub fn check_buffers(input_lens: &Vec<usize>, output_lens: &Vec<usize>, frames: usize) -> (res: Result<(), PluginError>)
        ensures
            buffers_ok("Mixer"@, 4, "4 inputs (2 stereo)"@, 2, "2 outputs (1 stereo)"@, input_lens@, output_lens@, frames, res),
    {
        check_buffers("Mixer", 4, "4 inputs (2 stereo)", 2, "2 outputs (1 stereo)", input_lens, output_lens, frames)
    }
}

impl Default for PanProcessor {
    /// Centre pan at 48 kHz.
    fn default() -> (p: PanProcessor)
        ensures
            p.pan_bits() == ZERO_BITS,
            p.rate() == 48000,
            p.plugin_info().name@ == "Pan"@,
            p.plugin_info().vendor@ == "vvdaw"@,
            p.plugin_info().version@ == "1.0.0"@,
            p.plugin_info().unique_id@ == "vvdaw.builtin.pan"@,
    {
        PanProcessor { pan: ZERO_BITS, sample_rate: 48000, info: info_of("Pan", "vvdaw.builtin.pan") }
    }
}

impl PanProcessor {
    pub closed spec fn pan_bits(&self) -> u32 {
        self.pan
    }

    pub closed spec fn rate(&self) -> u32 {
        self.sample_rate
    }

    pub closed spec fn plugin_info(&self) -> PluginInfo {
        self.info
    }

    /// Plugin information.
    pub fn info(&self) -> (r: &PluginInfo)
        ensures
            *r == self.plugin_info(),
    {
        &self.info
    }

    /// Initialise at a sample rate (any block size is accepted).
    pub fn initialize(&mut self, sample_rate: u32, max_block_size: usize) -> (res: Result<(), PluginError>)
        ensures
            res is Ok,
            final(self).rate() == sample_rate,
            final(self).pan_bits() == old(self).pan_bits(),
            final(self).plugin_info() == old(self).plugin_info(),
    {
        self.sample_rate = sample_rate;
        Ok(())
    }

    /// Store a parameter value (already clamped to its range): id 0 is the
    /// pan position; other ids are refused.
    pub fn set_parameter(&mut self, id: u32, value_bits: u32) -> (res: Result<(), PluginError>)
        ensures
            id == 0 ==> res is Ok && final(self).pan_bits() == value_bits,
            id != 0 ==> (res matches Err(PluginError::InvalidParameter(m)) && m@ == unknown_parameter(id))
                && final(self).pan_bits() == old(self).pan_bits(),
            final(self).rate() == old(self).rate(),
            final(self).plugin_info() == old(self).plugin_info(),
    {
        if id == 0 {
            self.pan = value_bits;
            Ok(())
        } else {
            Err(unknown_parameter_error(id))
        }
    }

    /// Read a parameter value: id 0 is the pan position; other ids are refused.
    pub fn get_parameter(&self, id: u32) -> (res: Result<u32, PluginError>)
        ensures
            id == 0 ==> res == Ok::<u32, PluginError>(self.pan_bits()),
            id != 0 ==> (res matches Err(PluginError::InvalidParameter(m)) && m@ == unknown_parameter(id)),
    {
        if id == 0 {
            Ok(self.pan)
        } else {
            Err(unknown_parameter_error(id))
        }
    }

    /// Stereo in.
    pub fn input_channels(&self) -> (n: usize)
        ensures
            n == 2,
    {
        2
    }

    /// Stereo out.
    pub fn output_channels(&self) -> (n: usize)
        ensures
            n == 2,
    {
        2
    }

    /// Check the channel counts of a processing call: 2 inputs and 2
    /// outputs (the pan processor does not check buffer lengths).
    pub fn check_channels(inputs: usize, outputs: usize) -> (res: Result<(), PluginError>)
        ensures
            inputs != 2 ==> (res matches Err(PluginError::ProcessingFailed(m)) && m@ == channel_count_message("Pan"@, "2 inputs (stereo)"@, inputs as nat)),
            inputs == 2 && outputs != 2 ==> (res matches Err(PluginError::ProcessingFailed(m)) && m@ == channel_count_message("Pan"@, "2 outputs (stereo)"@, outputs as nat)),
            inputs == 2 && outputs == 2 ==> res is Ok,
    {
        if inputs != 2 {
            return Err(PluginError::ProcessingFailed(channel_count_text("Pan", "2 inputs (stereo)", inputs)));
        }
        if outputs != 2 {
            return Err(PluginError::ProcessingFailed(channel_count_text("Pan", "2 outputs (stereo)", outputs)));
        }
        Ok(())
    }
}

} // verus!
