//! Memory-backed byte stream used to carry plugin state between a plugin's
//! component and its edit controller (the data behind an `IBStream`).

use vstd::prelude::*;

verus! {

/// Seek from the start of the stream.
pub const SEEK_SET: i32 = 0;

/// Seek from the current position.
pub const SEEK_CUR: i32 = 1;

/// Seek from the end of the stream.
pub const SEEK_END: i32 = 2;

/// A growable byte buffer with a read/write position.
pub struct MemoryStream {
    data: Vec<u8>,
    position: usize,
}

/// Contents after writing `bytes` at `pos`: the buffer grows (zero-filled)
/// to cover the written range, which then holds `bytes`.
pub open spec fn written(data: Seq<u8>, pos: int, bytes: Seq<u8>) -> Seq<u8> {
    let end = pos + bytes.len();
    let len = if end > data.len() {
        end
    } else {
        data.len() as int
    };
    Seq::new(
        len as nat,
        |i: int|
            if pos <= i < end {
                bytes[i - pos]
            } else if i < data.len() {
                data[i]
            } else {
                0u8
            },
    )
}

/// Number of bytes a read of `requested` bytes at `pos` delivers.
pub open spec fn read_count(len: int, pos: int, requested: int) -> int {
    let wanted = if requested < 0 {
        0
    } else {
        requested
    };
    let available = if pos < len {
        len - pos
    } else {
        0
    };
    if wanted < available {
        wanted
    } else {
        available
    }
}

/// Position a seek moves to, before conversion to `usize`; `None` for an
/// unknown mode.
pub open spec fn seek_target(len: int, position: int, pos: int, mode: i32) -> Option<int> {
    let t = if mode == SEEK_SET {
        pos
    } else if mode == SEEK_CUR {
        position + pos
    } else {
        len + pos
    };
    if mode == SEEK_SET || mode == SEEK_CUR || mode == SEEK_END {
        Some(
            if t < 0 {
                0
            } else {
                t
            },
        )
    } else {
        None
    }
}

impl MemoryStream {
    /// The stream contents.
    pub closed spec fn contents(&self) -> Seq<u8> {
        self.data@
    }

    /// The current read/write position.
    pub closed spec fn pos(&self) -> usize {
        self.position
    }

    /// Create a new empty memory stream.
    pub fn new() -> (s: MemoryStream)
        ensures
            s.contents() == Seq::<u8>::empty(),
            s.pos() == 0,
    {
        MemoryStream { data: Vec::new(), position: 0 }
    }

    /// Create an empty memory stream with room for `capacity` bytes.
    pub fn with_capacity(capacity: usize) -> (s: MemoryStream)
        ensures
            s.contents() == Seq::<u8>::empty(),
            s.pos() == 0,
    {
        MemoryStream { data: Vec::with_capacity(capacity), position: 0 }
    }

    /// Get the stream data.
    pub fn data(&self) -> (r: &[u8])
        ensures
            r@ == self.contents(),
    {
        self.data.as_slice()
    }

    /// Get the current position.
    pub fn position(&self) -> (r: usize)
        ensures
            r == self.pos(),
    {
        self.position
    }

    /// Reset position to start.
    pub fn rewind(&mut self)
        ensures
            final(self).pos() == 0,
            final(self).contents() == old(self).contents(),
    {
        self.position = 0;
    }

    /// Read up to `num_bytes` bytes (none for a negative count) from the
    /// current position; returns the bytes read and advances past them.
    pub fn read(&mut self, num_bytes: i32) -> (out: Vec<u8>)
        ensures
            out@.len() == read_count(old(self).contents().len() as int, old(self).pos() as int, num_bytes as int),
            forall|i: int| 0 <= i < out@.len() ==> out@[i] == old(self).contents()[old(self).pos() + i],
            final(self).pos() == old(self).pos() + out@.len(),
            final(self).contents() == old(self).contents(),
    {
        let pos = self.position;
        let len = self.data.len();
        let to_read: usize = if num_bytes < 0 {
            0
        } else {
            num_bytes as usize
        };
        let available: usize = if pos < len {
            len - pos
        } else {
            0
        };
        let actual = if to_read < available {
            to_read
        } else {
            available
        };
        let mut out: Vec<u8> = Vec::new();
        if actual == 0 {
            return out;
        }
        let mut i: usize = 0;
        while i < actual
            invariant
                i <= actual,
                len == self.data.len(),
                pos + actual <= len,
                out@ == self.data@.subrange(pos as int, pos + i),
            decreases actual - i,
        {
            out.push(self.data[pos + i]);
            i = i + 1;
            assert(out@ =~= self.data@.subrange(pos as int, pos + i));
        }
        self.position = pos + actual;
        out
    }

    /// Write `bytes` at the current position, growing the stream (with zero
    /// bytes) as needed; returns the number of bytes written and advances
    /// past them.
    pub fn write(&mut self, bytes: &[u8]) -> (n: usize)
        requires
            old(self).pos() + bytes@.len() <= usize::MAX,
        ensures
            n == bytes@.len(),
            final(self).contents() == written(old(self).contents(), old(self).pos() as int, bytes@),
            final(self).pos() == old(self).pos() + bytes@.len(),
    {
        let ghost old_data = self.data@;
        let pos = self.position;
        let end = pos + bytes.len();
        let newlen: usize = if end > self.data.len() {
            end
        } else {
            self.data.len()
        };
        while self.data.len() < end
            invariant
                old_data.len() <= self.data.len() <= newlen,
                newlen == (if end > old_data.len() { end } else { old_data.len() as usize }),
                forall|i: int| 0 <= i < old_data.len() ==> self.data@[i] == old_data[i],
                forall|i: int| old_data.len() <= i < self.data.len() ==> self.data@[i] == 0u8,
            decreases end - self.data.len(),
        {
            self.data.push(0u8);
        }
        let mut i: usize = 0;
        while i < bytes.len()
            invariant
                i <= bytes@.len(),
                end == pos + bytes@.len(),
                end <= newlen,
                self.data.len() == newlen,
                newlen == (if end > old_data.len() { end } else { old_data.len() as usize }),
                forall|k: int| pos <= k < pos + i ==> self.data@[k] == bytes@[k - pos],
                forall|k: int| 0 <= k < self.data.len() && !(pos <= k < pos + i) ==> self.data@[k] == (if k < old_data.len() { old_data[k] } else { 0u8 }),
            decreases bytes@.len() - i,
        {
            self.data.set(pos + i, bytes[i]);
            i = i + 1;
        }
        proof {
            assert(self.data@ =~= written(old_data, pos as int, bytes@));
        }
        self.position = end;
        bytes.len()
    }

    /// Move the position: from the start (`SEEK_SET`), from the current
    /// position (`SEEK_CUR`) or from the end (`SEEK_END`); a target before the
    /// start moves to the start. Returns the new position, or `None` (and
    /// leaves the position alone) for an unknown mode.
    pub fn seek(&mut self, pos: i64, mode: i32) -> (r: Option<i64>)
        requires
            mode == SEEK_CUR ==> old(self).pos() <= i64::MAX && i64::MIN <= old(self).pos() + pos <= i64::MAX,
            mode == SEEK_END ==> old(self).contents().len() <= i64::MAX && i64::MIN <= old(self).contents().len() + pos <= i64::MAX,
        ensures
            final(self).contents() == old(self).contents(),
            match seek_target(old(self).contents().len() as int, old(self).pos() as int, pos as int, mode) {
                Some(t) => final(self).pos() == (t as i64) as usize && r == Some((final(self).pos()) as i64),
                None => final(self).pos() == old(self).pos() && r is None,
            },
    {
        let target: i64 = if mode == SEEK_SET {
            pos
        } else if mode == SEEK_CUR {
            self.position as i64 + pos
        } else if mode == SEEK_END {
            self.data.len() as i64 + pos
        } else {
            return None;
        };
        let clamped: i64 = if target < 0 {
            0
        } else {
            target
        };
        self.position = clamped as usize;
        Some(self.position as i64)
    }

    /// The current position as reported to the plugin.
    pub fn tell(&self) -> (r: i64)
        ensures
            r == self.pos() as i64,
    {
        self.position as i64
    }
}

/// Reading back the range just written yields the written bytes.
pub proof fn law_read_back_written(data: Seq<u8>, pos: int, bytes: Seq<u8>)
    requires
        0 <= pos,
    ensures
        ({
            let d = written(data, pos, bytes);
            &&& read_count(d.len() as int, pos, bytes.len() as int) == bytes.len()
            &&& d.subrange(pos, pos + bytes.len()) == bytes
        }),
{
    let d = written(data, pos, bytes);
    assert(d.subrange(pos, pos + bytes.len()) =~= bytes);
}

/// Writing leaves the bytes outside the written range as they were (bytes
/// past the old end read as zero).
pub proof fn law_write_preserves_others(data: Seq<u8>, pos: int, bytes: Seq<u8>, i: int)
    requires
        0 <= pos,
        0 <= i < written(data, pos, bytes).len(),
        !(pos <= i < pos + bytes.len()),
    ensures
        written(data, pos, bytes)[i] == if i < data.len() {
            data[i]
        } else {
            0u8
        },
{
}

} // verus!
