//! Waveform data shown by the 3D view: the loaded clip and a bounded history
//! of the peak levels reported by the audio thread.
//!
//! Generic over the sample type; samples and peaks are only moved, never
//! computed with.

use std::collections::VecDeque;
use vstd::prelude::*;

verus! {

/// Loaded audio and streamed peak levels.
pub struct WaveformData<T> {
    /// Interleaved stereo samples `[L, R, L, R, ...]` (empty if none loaded)
    pub samples: Vec<T>,
    /// Sample rate of the loaded audio
    pub sample_rate: u32,
    /// Peak values `(left, right)` of the most recent audio buffers, oldest first
    pub streaming_peaks: VecDeque<(T, T)>,
    /// Playback position (frame number) last reported by the audio thread
    pub current_position: u64,
    /// Largest number of peaks kept
    pub max_streaming_samples: usize,
    /// Whether the display must be rebuilt
    pub needs_mesh_update: bool,
}

/// The peak history after one more peak: appended, and the oldest dropped
/// when the history then holds more than `max` peaks.
pub open spec fn after_push<T>(peaks: Seq<(T, T)>, peak: (T, T), max: usize) -> Seq<(T, T)> {
    let s = peaks.push(peak);
    if s.len() > max {
        s.drop_first()
    } else {
        s
    }
}

/// Samples at positions `offset`, `offset + 2`, ... (one channel of
/// interleaved stereo).
pub open spec fn every_other<T>(s: Seq<T>, offset: int) -> Seq<T> {
    Seq::new(((s.len() - offset + 1) / 2) as nat, |i: int| s[2 * i + offset])
}

impl<T> Default for WaveformData<T> {
    /// Nothing loaded, no history, and a history bound of 0.
    fn default() -> (w: WaveformData<T>)
        ensures
            w.samples@.len() == 0,
            w.sample_rate == 0,
            w.streaming_peaks@.len() == 0,
            w.current_position == 0,
            w.max_streaming_samples == 0,
            !w.needs_mesh_update,
    {
        WaveformData {
            samples: Vec::new(),
            sample_rate: 0,
            streaming_peaks: VecDeque::new(),
            current_position: 0,
            max_streaming_samples: 0,
            needs_mesh_update: false,
        }
    }
}

impl<T: Copy> WaveformData<T> {
    /// Waveform data for a loaded clip: no history yet (room for 9000
    /// peaks), display to be rebuilt.
    pub fn new(samples: Vec<T>, sample_rate: u32) -> (w: WaveformData<T>)
        ensures
            w.samples@ == samples@,
            w.sample_rate == sample_rate,
            w.streaming_peaks@.len() == 0,
            w.current_position == 0,
            w.max_streaming_samples == 9000,
            w.needs_mesh_update,
    {
        WaveformData {
            samples,
            sample_rate,
            streaming_peaks: VecDeque::new(),
            current_position: 0,
            max_streaming_samples: 9000,
            needs_mesh_update: true,
        }
    }

    /// Record the peaks of one audio buffer at a stream position.
    pub fn push_streaming_peak(&mut self, position: u64, left_peak: T, right_peak: T)
        ensures
            final(self).current_position == position,
            final(self).streaming_peaks@ == after_push(
                old(self).streaming_peaks@,
                (left_peak, right_peak),
                old(self).max_streaming_samples,
            ),
            final(self).samples@ == old(self).samples@,
            final(self).sample_rate == old(self).sample_rate,
            final(self).max_streaming_samples == old(self).max_streaming_samples,
            final(self).needs_mesh_update == old(self).needs_mesh_update,
    {
        self.current_position = position;
        self.streaming_peaks.push_back((left_peak, right_peak));
        if self.streaming_peaks.len() > self.max_streaming_samples {
            self.streaming_peaks.pop_front();
        }
    }

    /// Forget the history (when new audio is loaded).
    pub fn clear_streaming(&mut self)
        ensures
            final(self).streaming_peaks@.len() == 0,
            final(self).current_position == 0,
            final(self).samples@ == old(self).samples@,
            final(self).sample_rate == old(self).sample_rate,
            final(self).max_streaming_samples == old(self).max_streaming_samples,
            final(self).needs_mesh_update == old(self).needs_mesh_update,
    {
        self.streaming_peaks.clear();
        self.current_position = 0;
    }

    /// Left peaks of the history, oldest first.
    pub fn streaming_left_channel(&self) -> (r: Vec<T>)
        ensures
            r@ == Seq::new(self.streaming_peaks@.len(), |i: int| self.streaming_peaks@[i].0),
    {
        let mut r: Vec<T> = Vec::new();
        let mut i: usize = 0;
        while i < self.streaming_peaks.len()
            invariant
                i <= self.streaming_peaks@.len(),
                r@ == Seq::new(i as nat, |k: int| self.streaming_peaks@[k].0),
            decreases self.streaming_peaks@.len() - i,
        {
            r.push(self.streaming_peaks[i].0);
            i = i + 1;
            assert(r@ =~= Seq::new(i as nat, |k: int| self.streaming_peaks@[k].0));
        }
        r
    }

    /// Right peaks of the history, oldest first.
    pub fn streaming_right_channel(&self) -> (r: Vec<T>)
        ensures
            r@ == Seq::new(self.streaming_peaks@.len(), |i: int| self.streaming_peaks@[i].1),
    {
        let mut r: Vec<T> = Vec::new();
        let mut i: usize = 0;
        while i < self.streaming_peaks.len()
            invariant
                i <= self.streaming_peaks@.len(),
                r@ == Seq::new(i as nat, |k: int| self.streaming_peaks@[k].1),
            decreases self.streaming_peaks@.len() - i,
        {
            r.push(self.streaming_peaks[i].1);
            i = i + 1;
            assert(r@ =~= Seq::new(i as nat, |k: int| self.streaming_peaks@[k].1));
        }
        r
    }

    /// Number of whole stereo frames loaded.
    pub fn frame_count(&self) -> (n: usize)
        ensures
            n == self.samples@.len() / 2,
    {
        self.samples.len() / 2
    }

    /// Whether any audio is loaded.
    pub fn is_loaded(&self) -> (b: bool)
        ensures
            b == (self.samples@.len() > 0),
    {
        self.samples.len() > 0
    }

    /// One channel of the loaded audio: every other sample from `offset`.
    fn channel(&self, offset: usize) -> (r: Vec<T>)
        requires
            offset <= 1,
        ensures
            r@ == every_other(self.samples@, offset as int),
    {
        let n = self.samples.len();
        let count: usize = if n <= offset {
            0
        } else {
            (n - offset) / 2 + (n - offset) % 2
        };
        assert(count == every_other(self.samples@, offset as int).len());
        let mut r: Vec<T> = Vec::new();
        let mut k: usize = 0;
        while k < count
            invariant
                offset <= 1,
                n == self.samples@.len(),
                k <= count,
                count == every_other(self.samples@, offset as int).len(),
                r@ == Seq::new(k as nat, |i: int| self.samples@[2 * i + offset]),
            decreases count - k,
        {
            assert(2 * k + offset < n);
            r.push(self.samples[2 * k + offset]);
            k = k + 1;
            assert(r@ =~= Seq::new(k as nat, |i: int| self.samples@[2 * i + offset]));
        }
        assert(r@ =~= every_other(self.samples@, offset as int));
        r
    }

    /// Left samples of the loaded audio (de-interleaved).
    pub fn left_channel(&self) -> (r: Vec<T>)
        ensures
            r@ == every_other(self.samples@, 0),
    {
        self.channel(0)
    }

    /// Right samples of the loaded audio (de-interleaved).
    pub fn right_channel(&self) -> (r: Vec<T>)
        ensures
            r@ == every_other(self.samples@, 1),
    {
        self.channel(1)
    }
}

/// A history holding at most `max` peaks keeps that bound after a push, and
/// holds the newest peaks: the new peak last, preceded by the newest of the
/// earlier ones.
pub proof fn law_peak_history_bounded<T>(peaks: Seq<(T, T)>, peak: (T, T), max: usize)
    requires
        peaks.len() <= max,
    ensures
        after_push(peaks, peak, max).len() <= max,
        after_push(peaks, peak, max).len() > 0 ==> after_push(peaks, peak, max).last() == peak,
        after_push(peaks, peak, max) == peaks.push(peak).subrange(
            peaks.len() + 1 - after_push(peaks, peak, max).len(),
            peaks.len() + 1 as int,
        ),
{
    let s = peaks.push(peak);
    if s.len() > max {
        assert(s.drop_first() =~= s.subrange(1, s.len() as int));
    } else {
        assert(s =~= s.subrange(0, s.len() as int));
    }
}

} // verus!
