//! A byte stream held in memory, read front to back with an explicit
//! position.

use crate::error::Error;
use vstd::prelude::*;
use vstd::slice::{slice_subrange, slice_to_vec};

verus! {

/// Bytes with a read position. The position may lie past the end, in which
/// case nothing remains to be read.
pub struct ByteReader {
    data: Vec<u8>,
    pos: u64,
}

impl ByteReader {
    /// All bytes of the stream, whatever the position.
    pub closed spec fn bytes(&self) -> Seq<u8> {
        self.data@
    }

    /// Offset of the next byte to read, counted from the start.
    pub closed spec fn pos(&self) -> nat {
        self.pos as nat
    }

    /// The bytes from the position to the end.
    pub open spec fn remaining(&self) -> Seq<u8> {
        if self.pos() >= self.bytes().len() {
            Seq::empty()
        } else {
            self.bytes().skip(self.pos() as int)
        }
    }

    /// A reader over `data`, positioned at its first byte.
    pub fn new(data: Vec<u8>) -> (r: Self)
        ensures
            r.bytes() == data@,
            r.pos() == 0,
    {
        ByteReader { data, pos: 0 }
    }

    /// Offset of the next byte to read.
    pub fn position(&self) -> (p: u64)
        ensures
            p as nat == self.pos(),
    {
        self.pos
    }

    /// Number of bytes in the stream.
    pub fn len(&self) -> (n: usize)
        ensures
            n as nat == self.bytes().len(),
    {
        self.data.len()
    }

    /// Moves the position to `pos` bytes from the start. Any offset is
    /// accepted; one past the end leaves nothing to read.
    pub fn set_position(&mut self, pos: u64)
        ensures
            final(self).bytes() == old(self).bytes(),
            final(self).pos() == pos as nat,
    {
        self.pos = pos;
    }

    /// Number of bytes from the position to the end.
    pub fn available(&self) -> (n: usize)
        ensures
            n as nat == self.remaining().len(),
    {
        let len = self.data.len();
        if self.pos >= len as u64 {
            0
        } else {
            len - self.pos as usize
        }
    }

    /// Takes the next `n` bytes and advances past them. When fewer than `n`
    /// remain nothing is handed out and the position moves to the end.
    pub fn read_exact(&mut self, n: usize) -> (r: Result<Vec<u8>, Error>)
        ensures
            final(self).bytes() == old(self).bytes(),
            old(self).remaining().len() >= n ==> r is Ok && r->Ok_0@ == old(self).remaining().take(
                n as int,
            ) && final(self).pos() == old(self).pos() + n,
            old(self).remaining().len() < n ==> r == Err::<Vec<u8>, Error>(Error::UnexpectedEof)
                && final(self).pos() == old(self).bytes().len(),
            r is Ok ==> final(self).remaining() == old(self).remaining().skip(n as int),
    {
        let avail = self.available();
        if avail < n {
            self.pos = self.data.len() as u64;
            return Err(Error::UnexpectedEof);
        }
        if n == 0 {
            assert(old(self).remaining().take(0) =~= Seq::<u8>::empty());
            assert(old(self).remaining().skip(0) =~= old(self).remaining());
            return Ok(Vec::new());
        }
        let len = self.data.len();
        assert(self.pos < len && len - self.pos >= n) by {
            if self.pos() >= self.bytes().len() {
                assert(self.remaining().len() == 0);
            }
        }
        let start = self.pos as usize;
        let out = slice_to_vec(slice_subrange(self.data.as_slice(), start, start + n));
        self.pos = self.pos + n as u64;
        proof {
            assert(out@ =~= old(self).remaining().take(n as int));
            assert(final(self).remaining() =~= old(self).remaining().skip(n as int));
        }
        Ok(out)
    }
}

} // verus!
