//! Decisions made when a WAV file is opened: which files are accepted and
//! how their channels are laid out as interleaved stereo.

use vstd::prelude::*;
use crate::text::{extension, path_extension, push_decimal, str_equals, decimal};

verus! {

/// Largest accepted file, in bytes (500 MiB).
pub const MAX_FILE_SIZE: u64 = 524_288_000;

/// Interleaved stereo from interleaved samples of `channels` channels: a
/// mono sample is used for both sides, stereo is kept, and of more
/// channels the first two of every frame are kept.
pub open spec fn stereo_of<T>(raw: Seq<T>, channels: nat) -> Seq<T> {
    if channels == 1 {
        Seq::new(2 * raw.len(), |i: int| raw[i / 2])
    } else if channels == 2 {
        raw
    } else {
        let frames = (raw.len() + channels - 1) / channels as int;
        Seq::new((2 * frames) as nat, |i: int| raw[(i / 2) * channels + i % 2])
    }
}

/// Lay out samples as interleaved stereo.
///
/// Requires at least one channel, and (beyond stereo) that a trailing
/// partial frame holds at least two samples.
pub fn to_interleaved_stereo<T: Copy>(raw: &Vec<T>, channels: usize) -> (out: Vec<T>)
    requires
        channels > 0,
        channels > 2 ==> raw@.len() % (channels as nat) != 1,
        channels == 1 ==> 2 * raw@.len() <= usize::MAX,
    ensures
        out@ == stereo_of(raw@, channels as nat),
{
    let n = raw.len();
    if channels == 1 {
        let mut out: Vec<T> = Vec::new();
        let mut i: usize = 0;
        while i < n
            invariant
                i <= n,
                n == raw@.len(),
                2 * n <= usize::MAX,
                out@.len() == 2 * i,
                forall|k: int| 0 <= k < 2 * i ==> out@[k] == raw@[k / 2],
            decreases n - i,
        {
            out.push(raw[i]);
            out.push(raw[i]);
            i = i + 1;
        }
        proof {
            assert(out@ =~= stereo_of(raw@, 1));
        }
        return out;
    }
    if channels == 2 {
        let mut out: Vec<T> = Vec::new();
        let mut i: usize = 0;
        while i < n
            invariant
                i <= n,
                n == raw@.len(),
                out@ == raw@.take(i as int),
            decreases n - i,
        {
            out.push(raw[i]);
            i = i + 1;
            assert(out@ =~= raw@.take(i as int));
        }
        assert(raw@.take(n as int) =~= raw@);
        return out;
    }
    assert(n / channels < usize::MAX) by (nonlinear_arith)
        requires
            channels > 2,
            n <= usize::MAX,
    {
    }
    let frames = n / channels + if n % channels == 0 { 0 } else { 1 };
    let mut out: Vec<T> = Vec::new();
    let mut f: usize = 0;
    proof {
        assert(frames == (n + channels - 1) / channels as int) by (nonlinear_arith)
            requires
                channels > 2,
                frames == n / channels + if n % channels == 0 { 0int } else { 1int },
        {
        }
        assert(frames * channels <= n + channels) by (nonlinear_arith)
            requires
                channels > 0,
                frames == n / channels + if n % channels == 0 { 0int } else { 1int },
        {
        }
    }
    while f < frames
        invariant
            channels > 2,
            n == raw@.len(),
            n % channels != 1,
            frames == n / channels + if n % channels == 0 { 0int } else { 1int },
            f <= frames,
            out@.len() == 2 * f,
            forall|k: int| 0 <= k < 2 * f ==> out@[k] == raw@[(k / 2) * channels + k % 2],
        decreases frames - f,
    {
        proof {
            assert(f * channels + 1 < n) by (nonlinear_arith)
                requires
                    channels > 2,
                    f < frames,
                    frames == n / channels + if n % channels == 0 { 0int } else { 1int },
                    n % channels != 1,
            {
            }
        }
        let base = f * channels;
        out.push(raw[base]);
        out.push(raw[base + 1]);
        proof {
            assert forall|k: int| 0 <= k < 2 * (f + 1) implies out@[k] == raw@[(k / 2) * channels + k % 2] by {
                if k >= 2 * f {
                    assert(k / 2 == f);
                }
            }
        }
        f = f + 1;
    }
    proof {
        assert(frames == (n + channels - 1) / channels as int) by (nonlinear_arith)
            requires
                channels > 2,
                frames == n / channels + if n % channels == 0 { 0int } else { 1int },
        {
        }
        assert(out@ =~= stereo_of(raw@, channels as nat));
    }
    out
}

/// How the channels of a file are laid out as interleaved stereo: a mono
/// sample goes to both sides of its frame; stereo samples pass through
/// unchanged; of more channels, every input frame (the last one possibly
/// partial) gives exactly one stereo frame made of its first two samples.
pub proof fn law_stereo_layout<T>(raw: Seq<T>, channels: nat)
    requires
        channels > 0,
    ensures
        channels == 1 ==> stereo_of(raw, channels).len() == 2 * raw.len() && forall|i: int|
            0 <= i < raw.len() ==> stereo_of(raw, channels)[2 * i] == raw[i] && stereo_of(raw, channels)[2 * i + 1]
                == raw[i],
        channels == 2 ==> stereo_of(raw, channels) == raw,
        channels > 2 ==> stereo_of(raw, channels).len() == 2 * ((raw.len() + channels - 1) / (channels as int)),
        channels > 2 ==> forall|f: int, c: int|
            0 <= f < (raw.len() + channels - 1) / (channels as int) && 0 <= c < 2 ==> #[trigger] stereo_of(
                raw,
                channels,
            )[2 * f + c] == raw[f * channels + c],
{
    let out = stereo_of(raw, channels);
    if channels == 1 {
        assert forall|i: int| 0 <= i < raw.len() implies out[2 * i] == raw[i] && out[2 * i + 1] == raw[i] by {
            assert((2 * i) / 2 == i);
            assert((2 * i + 1) / 2 == i);
        }
    }
    if channels > 2 {
        let frames = (raw.len() + channels - 1) / (channels as int);
        assert(frames >= 0) by (nonlinear_arith)
            requires
                channels > 2,
                frames == (raw.len() + channels - 1) / (channels as int),
        {
        }
        assert forall|f: int, c: int| 0 <= f < frames && 0 <= c < 2 implies #[trigger] out[2 * f + c] == raw[f
            * channels + c] by {
            let i = 2 * f + c;
            assert(i / 2 == f);
            assert(i % 2 == c);
            assert(0 <= i < 2 * frames);
        }
    }
}

/// What the extension check on a resolved path reports.
pub open spec fn extension_check(path: Seq<char>) -> Result<(), Seq<char>> {
    match extension(path) {
        Some(e) => if e == "wav"@ {
            Ok(())
        } else {
            Err("Invalid file extension: expected .wav, got ."@ + e)
        },
        None => Err("File must have .wav extension"@),
    }
}

/// Check that a resolved path names a `.wav` file (exact, lower case).
pub fn check_wav_extension(path: &str) -> (res: Result<(), String>)
    requires
        path@.len() <= i64::MAX,
    ensures
        match (res, extension_check(path@)) {
            (Ok(()), Ok(())) => true,
            (Err(m), Err(s)) => m@ == s,
            _ => false,
        },
{
    match path_extension(path) {
        Some(e) => {
            if str_equals(e.as_str(), "wav") {
                Ok(())
            } else {
                let mut m = String::from_str("Invalid file extension: expected .wav, got .");
                m.append(e.as_str());
                Err(m)
            }
        },
        None => Err(String::from_str("File must have .wav extension")),
    }
}

/// Check a sample bit depth against the largest supported one.
pub fn check_bit_depth(bits: u16, max_bits: u16) -> (res: Result<(), String>)
    ensures
        1 <= bits <= max_bits ==> res is Ok,
        !(1 <= bits <= max_bits) ==> (res matches Err(m) && m@ == "Unsupported bit depth: "@ + decimal(bits as nat)
            + " bits (supported: 1-"@ + decimal(max_bits as nat) + ")"@),
{
    if bits == 0 || bits > max_bits {
        let mut m = String::from_str("Unsupported bit depth: ");
        push_decimal(&mut m, bits as u64);
        m.append(" bits (supported: 1-");
        push_decimal(&mut m, max_bits as u64);
        m.append(")");
        Err(m)
    } else {
        Ok(())
    }
}

/// Whether a file of `len` bytes is small enough to load.
pub fn file_size_ok(len: u64) -> (ok: bool)
    ensures
        ok == (len <= MAX_FILE_SIZE),
{
    len <= MAX_FILE_SIZE
}

/// Message for a path that does not exist.
pub fn not_found_message(path: &str) -> (m: String)
    ensures
        m@ == "File not found: "@ + path@,
{
    let mut m = String::from_str("File not found: ");
    m.append(path);
    m
}

/// Message for a resolved path that is not a regular file.
pub fn not_a_file_message(path: &str) -> (m: String)
    ensures
        m@ == "Path is not a file: "@ + path@,
{
    let mut m = String::from_str("Path is not a file: ");
    m.append(path);
    m
}

/// What the checks made before a WAV file is read decide: the path must
/// exist (`exists`), resolve to a canonical path (`resolved`: the canonical
/// path and whether it names a regular file, or the resolution error), name
/// a regular file, and carry the `.wav` extension. Returns the canonical
/// path to read, or the message of the first failed check.
pub fn check_wav_path(path: &str, exists: bool, resolved: Result<(String, bool), String>) -> (res: Result<String, String>)
    requires
        resolved matches Ok((c, _)) ==> c@.len() <= i64::MAX,
    ensures
        !exists ==> (res matches Err(m) && m@ == "File not found: "@ + path@),
        exists ==> match resolved {
            Err(e) => res matches Err(m) && m@ == "Failed to resolve path: "@ + e@,
            Ok((c, is_file)) => if !is_file {
                res matches Err(m) && m@ == "Path is not a file: "@ + c@
            } else {
                match extension_check(c@) {
                    Ok(()) => res matches Ok(p) && p@ == c@,
                    Err(msg) => res matches Err(m) && m@ == msg,
                }
            },
        },
{
    if !exists {
        return Err(not_found_message(path));
    }
    match resolved {
        Err(e) => {
            let mut m = String::from_str("Failed to resolve path: ");
            m.append(e.as_str());
            Err(m)
        },
        Ok((c, is_file)) => {
            if !is_file {
                return Err(not_a_file_message(c.as_str()));
            }
            match check_wav_extension(c.as_str()) {
                Ok(()) => Ok(c),
                Err(m) => Err(m),
            }
        },
    }
}

} // verus!
