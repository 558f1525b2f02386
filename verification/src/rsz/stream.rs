use super::{agrees, lift, Error, Failure, Outcome};
use vstd::bytes::*;
use vstd::prelude::*;
use vstd::slice::slice_subrange;

verus! {

/// The state of a [`SliceStream`]: the bytes it reads, its position in them, and the offset of
/// its first byte in the first slice it was made from.
pub struct StreamView {
    pub data: Seq<u8>,
    pub position: int,
    pub global_offset: int,
}

/// An RSZ data stream over an in-memory slice of bytes.
pub struct SliceStream<'a> {
    /// The slice containing the RSZ document.
    data: &'a [u8],
    /// The current position in the stream.
    position: usize,
    /// The stream's cumulative offset relative to the first slice it was made from.
    global_offset: usize,
}

impl<'a> View for SliceStream<'a> {
    type V = StreamView;

    closed spec fn view(&self) -> StreamView {
        StreamView {
            data: self.data@,
            position: self.position as int,
            global_offset: self.global_offset as int,
        }
    }
}

/// Reading `n` bytes at position `p` of `d`, for a section whose type is named `name`.
pub open spec fn spec_take(d: Seq<u8>, p: int, n: int, name: &'static str) -> Outcome<Seq<u8>> {
    if p > d.len() {
        Outcome::Panic
    } else if d.len() - p < n {
        Outcome::Fail(Error::InvalidSection { section: name, length: n as usize }, p)
    } else {
        Outcome::Done(d.subrange(p, p + n), p + n)
    }
}

/// Moving to position `target` of `d`.
pub open spec fn spec_seek(d: Seq<u8>, target: usize) -> Outcome<()> {
    if target > d.len() {
        Outcome::Fail(
            Error::UnexpectedEof { position: target, length: d.len() as usize },
            target as int,
        )
    } else {
        Outcome::Done((), target as int)
    }
}

/// Moving from position `p` of `d` to the next multiple of `alignment`.
pub open spec fn spec_align(d: Seq<u8>, p: int, alignment: int) -> Outcome<()> {
    if alignment == 0 {
        Outcome::Panic
    } else if p % alignment == 0 {
        Outcome::Done((), p)
    } else {
        let end = p + (alignment - p % alignment);
        if end > usize::MAX {
            Outcome::Panic
        } else if end > d.len() {
            Outcome::Fail(Error::UnexpectedEof { position: end as usize, length: d.len() as usize }, end)
        } else {
            Outcome::Done((), end)
        }
    }
}

pub open spec fn spec_read_u8(d: Seq<u8>, p: int, name: &'static str) -> Outcome<u8> {
    map_bytes(spec_take(d, p, 1, name), |s: Seq<u8>| s[0])
}

pub open spec fn spec_read_u16(d: Seq<u8>, p: int, name: &'static str) -> Outcome<u16> {
    map_bytes(spec_take(d, p, 2, name), |s: Seq<u8>| spec_u16_from_le_bytes(s))
}

pub open spec fn spec_read_u32(d: Seq<u8>, p: int, name: &'static str) -> Outcome<u32> {
    map_bytes(spec_take(d, p, 4, name), |s: Seq<u8>| spec_u32_from_le_bytes(s))
}

pub open spec fn spec_read_u64(d: Seq<u8>, p: int, name: &'static str) -> Outcome<u64> {
    map_bytes(spec_take(d, p, 8, name), |s: Seq<u8>| spec_u64_from_le_bytes(s))
}

/// A read of raw bytes whose successful result is decoded by `f`.
pub open spec fn map_bytes<B>(o: Outcome<Seq<u8>>, f: spec_fn(Seq<u8>) -> B) -> Outcome<B> {
    super::map_done(o, f)
}

impl<'a> SliceStream<'a> {
    /// Returns true when the position lies past the end of the data.
    pub fn eof(&self) -> (r: bool)
        ensures
            r == (self@.position > self@.data.len()),
    {
        self.position > self.data.len()
    }

    /// The number of bytes the stream reads.
    pub fn len(&self) -> (r: usize)
        ensures
            r == self@.data.len(),
    {
        self.data.len()
    }

    /// Creates a new stream that starts at the current position of this stream.
    pub fn as_relative(&self) -> (r: Self)
        requires
            self@.position <= self@.data.len(),
            self@.global_offset + self@.position <= usize::MAX,
        ensures
            r@ == (StreamView {
                data: self@.data.skip(self@.position),
                position: 0,
                global_offset: self@.global_offset + self@.position,
            }),
    {
        let global_position = self.position_absolute();
        SliceStream {
            data: slice_subrange(self.data, self.position, self.data.len()),
            position: 0,
            global_offset: global_position,
        }
    }

    /// Returns the current position of the stream.
    pub fn position(&self) -> (r: usize)
        ensures
            r == self@.position,
    {
        self.position
    }

    /// Returns the offset of the stream's first byte in the first slice it was made from.
    pub fn global_offset(&self) -> (r: usize)
        ensures
            r == self@.global_offset,
    {
        self.global_offset
    }

    /// Returns the absolute position of the stream, relevant to the start of the file.
    pub fn position_absolute(&self) -> (r: usize)
        requires
            self@.global_offset + self@.position <= usize::MAX,
        ensures
            r == self@.global_offset + self@.position,
    {
        self.global_offset + self.position
    }

    /// Seeks to a specific position within the stream. The position is taken even where it lies
    /// past the end of the data, in which case an error is returned.
    pub fn seek(&mut self, position: usize) -> (r: Result<(), Error>)
        ensures
            final(self)@.data == old(self)@.data,
            final(self)@.global_offset == old(self)@.global_offset,
            agrees(spec_seek(old(self)@.data, position), lift(r), final(self)@.position),
    {
        self.position = position;
        if self.eof() {
            Err(Error::UnexpectedEof { position, length: self.data.len() })
        } else {
            Ok(())
        }
    }

    /// Skips the next `len` bytes.
    pub fn skip(&mut self, len: usize) -> (r: Result<(), Error>)
        requires
            old(self)@.position + len <= usize::MAX,
        ensures
            final(self)@.data == old(self)@.data,
            final(self)@.global_offset == old(self)@.global_offset,
            agrees(
                spec_seek(old(self)@.data, (old(self)@.position + len) as usize),
                lift(r),
                final(self)@.position,
            ),
    {
        self.seek(self.position + len)
    }

    /// Attempts to align the stream to a byte width.
    pub fn align(&mut self, alignment: usize) -> (r: Result<(), Failure>)
        ensures
            final(self)@.data == old(self)@.data,
            final(self)@.global_offset == old(self)@.global_offset,
            agrees(
                spec_align(old(self)@.data, old(self)@.position, alignment as int),
                r,
                final(self)@.position,
            ),
    {
        if alignment == 0 {
            return Err(Failure::Panic);
        }
        let delta = self.position % alignment;
        if delta != 0 {
            let step = alignment - delta;
            if self.position > usize::MAX - step {
                return Err(Failure::Panic);
            }
            self.position = self.position + step;
            if self.eof() {
                return Err(
                    Failure::Error(
                        Error::UnexpectedEof { position: self.position, length: self.data.len() },
                    ),
                );
            }
        }
        Ok(())
    }

    /// Reads the next `n` bytes, for a section whose type is named `section`.
    pub fn take(&mut self, n: usize, section: &'static str) -> (r: Result<&'a [u8], Failure>)
        ensures
            final(self)@.data == old(self)@.data,
            final(self)@.global_offset == old(self)@.global_offset,
            agrees(
                spec_take(old(self)@.data, old(self)@.position, n as int, section),
                r,
                final(self)@.position,
            ),
            r matches Ok(b) ==> b@.len() == n,
    {
        if self.position > self.data.len() {
            return Err(Failure::Panic);
        }
        if self.data.len() - self.position < n {
            return Err(Failure::Error(Error::InvalidSection { section, length: n }));
        }
        let bytes = slice_subrange(self.data, self.position, self.position + n);
        let r = self.skip(n);
        proof {
            assert(r is Ok);
        }
        Ok(bytes)
    }

    /// Reads one byte, for a section whose type is named `section`.
    pub fn next_u8(&mut self, section: &'static str) -> (r: Result<u8, Failure>)
        ensures
            final(self)@.data == old(self)@.data,
            final(self)@.global_offset == old(self)@.global_offset,
            agrees(spec_read_u8(old(self)@.data, old(self)@.position, section), r, final(self)@.position),
    {
        match self.take(1, section) {
            Ok(b) => Ok(b[0]),
            Err(e) => Err(e),
        }
    }

    /// Reads a little-endian 16-bit integer, for a section whose type is named `section`.
    pub fn next_u16(&mut self, section: &'static str) -> (r: Result<u16, Failure>)
        ensures
            final(self)@.data == old(self)@.data,
            final(self)@.global_offset == old(self)@.global_offset,
            agrees(spec_read_u16(old(self)@.data, old(self)@.position, section), r, final(self)@.position),
    {
        match self.take(2, section) {
            Ok(b) => Ok(u16_from_le_bytes(b)),
            Err(e) => Err(e),
        }
    }

    /// Reads a little-endian 32-bit integer, for a section whose type is named `section`.
    pub fn next_u32(&mut self, section: &'static str) -> (r: Result<u32, Failure>)
        ensures
            final(self)@.data == old(self)@.data,
            final(self)@.global_offset == old(self)@.global_offset,
            agrees(spec_read_u32(old(self)@.data, old(self)@.position, section), r, final(self)@.position),
    {
        match self.take(4, section) {
            Ok(b) => Ok(u32_from_le_bytes(b)),
            Err(e) => Err(e),
        }
    }

    /// Reads a little-endian 64-bit integer, for a section whose type is named `section`.
    pub fn next_u64(&mut self, section: &'static str) -> (r: Result<u64, Failure>)
        ensures
            final(self)@.data == old(self)@.data,
            final(self)@.global_offset == old(self)@.global_offset,
            agrees(spec_read_u64(old(self)@.data, old(self)@.position, section), r, final(self)@.position),
    {
        match self.take(8, section) {
            Ok(b) => Ok(u64_from_le_bytes(b)),
            Err(e) => Err(e),
        }
    }
}

impl<'a> From<&'a [u8]> for SliceStream<'a> {
    fn from(value: &'a [u8]) -> (r: Self)
        ensures
            r@ == (StreamView { data: value@, position: 0, global_offset: 0 }),
    {
        SliceStream { data: value, position: 0, global_offset: 0 }
    }
}

impl<'a> vstd::std_specs::convert::FromSpecImpl<&'a [u8]> for SliceStream<'a> {
    open spec fn obeys_from_spec() -> bool {
        true
    }

    closed spec fn from_spec(v: &'a [u8]) -> Self {
        SliceStream { data: v, position: 0, global_offset: 0 }
    }
}

} // verus!
