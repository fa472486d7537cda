//! A seekable byte stream held in memory.
//!
//! The stream is a sequence of bytes and a position in it. Reads take bytes
//! from the position on; writes replace the bytes at the position and extend
//! the stream where they run past its end.

use vstd::prelude::*;
use vstd::slice::{slice_subrange, slice_to_vec};

verus! {

/// What a stream is, as a mathematical value.
pub struct StreamView {
    /// The whole content.
    pub bytes: Seq<u8>,
    /// The offset of the next read or write, between 0 and `bytes.len()`.
    pub pos: int,
}

impl StreamView {
    /// The bytes from the position to the end.
    pub open spec fn remaining(self) -> Seq<u8> {
        self.bytes.subrange(self.pos, self.bytes.len() as int)
    }

    /// The stream after `n` more bytes have been read.
    pub open spec fn advance(self, n: int) -> StreamView {
        StreamView { bytes: self.bytes, pos: self.pos + n }
    }

    /// The stream after `buf` has been written at the position.
    pub open spec fn write(self, buf: Seq<u8>) -> StreamView {
        StreamView { bytes: overwrite(self.bytes, self.pos, buf), pos: self.pos + buf.len() }
    }
}

/// What a stream holds after `buf` is written at `pos`: the bytes before
/// `pos`, then `buf`, then whatever of the old content lies beyond `buf`.
pub open spec fn overwrite(bytes: Seq<u8>, pos: int, buf: Seq<u8>) -> Seq<u8>
    recommends
        0 <= pos <= bytes.len(),
{
    let end = pos + buf.len();
    if end < bytes.len() {
        bytes.subrange(0, pos) + buf + bytes.subrange(end, bytes.len() as int)
    } else {
        bytes.subrange(0, pos) + buf
    }
}

/// Writing `buf` and then one more byte is writing `buf.push(byte)`.
proof fn lemma_overwrite_push(bytes: Seq<u8>, pos: int, buf: Seq<u8>, byte: u8)
    requires
        0 <= pos <= bytes.len(),
    ensures
        overwrite(bytes, pos, buf).len() >= pos + buf.len(),
        pos + buf.len() < overwrite(bytes, pos, buf).len() ==> overwrite(bytes, pos, buf.push(byte))
            == overwrite(bytes, pos, buf).update(pos + buf.len(), byte),
        pos + buf.len() == overwrite(bytes, pos, buf).len() ==> overwrite(
            bytes,
            pos,
            buf.push(byte),
        ) == overwrite(bytes, pos, buf).push(byte),
{
}

/// Two writes in a row are one write of both buffers.
pub proof fn lemma_write_twice(stream: StreamView, first: Seq<u8>, second: Seq<u8>)
    requires
        0 <= stream.pos <= stream.bytes.len(),
    ensures
        stream.write(first).write(second) == stream.write(first + second),
{
    assert(stream.write(first).write(second).bytes =~= stream.write(first + second).bytes);
}

/// A sequence of bytes with a read/write position inside it.
pub struct ByteStream {
    data: Vec<u8>,
    pos: usize,
}

impl View for ByteStream {
    type V = StreamView;

    closed spec fn view(&self) -> StreamView {
        StreamView { bytes: self.data@, pos: self.pos as int }
    }
}

impl ByteStream {
    /// The position lies inside the content or at its end.
    pub open spec fn wf(&self) -> bool {
        0 <= self@.pos <= self@.bytes.len()
    }

    /// A stream over `data`, positioned at its start.
    pub fn new(data: Vec<u8>) -> (s: Self)
        ensures
            s.wf(),
            s@.bytes == data@,
            s@.pos == 0,
    {
        ByteStream { data, pos: 0 }
    }

    /// Gives up the stream for its content.
    pub fn into_bytes(self) -> (data: Vec<u8>)
        ensures
            data@ == self@.bytes,
    {
        self.data
    }

    /// The number of bytes in the stream.
    pub fn len(&self) -> (n: usize)
        ensures
            n == self@.bytes.len(),
    {
        self.data.len()
    }

    /// The offset of the next read or write.
    pub fn position(&self) -> (p: usize)
        ensures
            p == self@.pos,
    {
        self.pos
    }

    /// Moves the position to the start.
    pub fn rewind(&mut self)
        ensures
            final(self).wf(),
            final(self)@.bytes == old(self)@.bytes,
            final(self)@.pos == 0,
    {
        self.pos = 0;
    }

    /// Moves the position to the end.
    pub fn seek_to_end(&mut self)
        ensures
            final(self).wf(),
            final(self)@.bytes == old(self)@.bytes,
            final(self)@.pos == old(self)@.bytes.len(),
    {
        self.pos = self.data.len();
    }

    /// Cuts the stream off at the position.
    pub fn truncate(&mut self)
        requires
            old(self).wf(),
        ensures
            final(self).wf(),
            final(self)@.bytes == old(self)@.bytes.subrange(0, old(self)@.pos),
            final(self)@.pos == old(self)@.pos,
    {
        self.data.truncate(self.pos);
    }

    /// Reads exactly `n` bytes. Where fewer than `n` are left, nothing is
    /// read and the position stays.
    pub fn read_exact(&mut self, n: usize) -> (r: Option<Vec<u8>>)
        requires
            old(self).wf(),
        ensures
            final(self).wf(),
            final(self)@.bytes == old(self)@.bytes,
            match r {
                Some(buf) => {
                    &&& n <= old(self)@.remaining().len()
                    &&& buf@ == old(self)@.remaining().subrange(0, n as int)
                    &&& final(self)@.pos == old(self)@.pos + n
                },
                None => {
                    &&& n > old(self)@.remaining().len()
                    &&& final(self)@.pos == old(self)@.pos
                },
            },
    {
        if n > self.data.len() - self.pos {
            return None;
        }
        let end: usize = self.pos + n;
        let buf = slice_to_vec(slice_subrange(self.data.as_slice(), self.pos, end));
        self.pos = end;
        Some(buf)
    }

    /// Writes all of `buf` at the position: it replaces what is there and
    /// lengthens the stream where it runs past the end.
    pub fn write_all(&mut self, buf: &[u8])
        requires
            old(self).wf(),
        ensures
            final(self).wf(),
            final(self)@ == old(self)@.write(buf@),
    {
        let ghost start = old(self)@;
        let mut i: usize = 0;
        while i < buf.len()
            invariant
                i <= buf@.len(),
                0 <= start.pos <= start.bytes.len(),
                self.pos == start.pos + i,
                self.pos <= self.data@.len(),
                self.data@ == overwrite(start.bytes, start.pos, buf@.subrange(0, i as int)),
            decreases buf@.len() - i,
        {
            let byte = buf[i];
            proof {
                lemma_overwrite_push(start.bytes, start.pos, buf@.subrange(0, i as int), byte);
            }
            if self.pos < self.data.len() {
                self.data[self.pos] = byte;
            } else {
                self.data.push(byte);
            }
            assert(self.pos < self.data.len());
            self.pos = self.pos + 1;
            i = i + 1;
        }
        assert(buf@.subrange(0, i as int) =~= buf@);
    }
}

} // verus!
