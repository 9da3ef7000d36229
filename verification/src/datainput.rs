//! Big-endian reader over an in-memory byte stream.

use vstd::prelude::*;

use crate::error::NbtError;
use crate::model::de2;
use crate::model::de4;
use crate::model::de8;
use crate::model::i16_from_u16;
use crate::model::i16_of_u16;
use crate::model::i32_from_u32;
use crate::model::i32_of_u32;
use crate::model::i64_from_u64;
use crate::model::i64_of_u64;
use crate::model::i8_from_u8;
use crate::model::i8_of_u8;
use crate::model::parse_text;
use crate::model::seq_i8;

verus! {

/// Reads big-endian encoded values from an in-memory byte stream.
///
/// Every read consumes all the bytes of the requested value or none:
/// a read that would run past the end of the stream fails with
/// [`NbtError::ShortRead`] and leaves the reader where it was.
pub struct DataInput {
    buf: Vec<u8>,
    pos: usize,
}

impl DataInput {
    /// The whole underlying stream.
    pub closed spec fn data(&self) -> Seq<u8> {
        self.buf@
    }

    /// How many bytes have been consumed so far.
    pub closed spec fn position(&self) -> int {
        self.pos as int
    }

    /// The suffix of the stream that starts at byte `at`.
    pub open spec fn data_from(&self, at: int) -> Seq<u8> {
        self.data().subrange(at, self.data().len() as int)
    }

    /// The bytes not yet consumed.
    pub open spec fn rest(&self) -> Seq<u8> {
        self.data_from(self.position())
    }

    /// The reader never stands past the end of its stream.
    pub open spec fn wf(&self) -> bool {
        0 <= self.position() <= self.data().len()
    }

    /// Creates a new reader over the given bytes.
    pub fn new(r: Vec<u8>) -> (input: DataInput)
        ensures
            input.wf(),
            input.data() == r@,
            input.position() == 0,
    {
        DataInput { buf: r, pos: 0 }
    }

    /// Returns the byte stream associated with this [`DataInput`].
    pub fn into_inner(self) -> (r: Vec<u8>)
        ensures
            r@ == self.data(),
    {
        self.buf
    }

    /// How many bytes are left to read.
    pub fn remaining(&self) -> (r: usize)
        requires
            self.wf(),
        ensures
            r == self.rest().len(),
    {
        self.buf.len() - self.pos
    }

    /// The 16-bit value big-endian at `at`, without consuming it.
    fn get2(&self, at: usize) -> (r: u16)
        requires
            at + 2 <= self.data().len(),
        ensures
            r == de2(self.data_from(at as int)),
    {
        let len = self.buf.len();
        assert(at + 2 <= len);
        let b0 = self.buf[at];
        let b1 = self.buf[at + 1];
        assert(self.data_from(at as int)[0] == b0);
        assert(self.data_from(at as int)[1] == b1);
        (b0 as u16) * 0x100 + (b1 as u16)
    }

    /// The 32-bit value big-endian at `at`, without consuming it.
    fn get4(&self, at: usize) -> (r: u32)
        requires
            at + 4 <= self.data().len(),
        ensures
            r == de4(self.data_from(at as int)),
    {
        let len = self.buf.len();
        assert(at + 4 <= len);
        let hi = self.get2(at);
        let lo = self.get2(at + 2);
        proof {
            let s = self.data_from(at as int);
            assert(s.take(2)[0] == s[0]);
            assert(s.take(2)[1] == s[1]);
            assert(s.subrange(2, 4)[0] == self.data_from(at + 2)[0]);
            assert(s.subrange(2, 4)[1] == self.data_from(at + 2)[1]);
        }
        (hi as u32) * 0x1_0000 + (lo as u32)
    }

    /// The 64-bit value big-endian at `at`, without consuming it.
    fn get8(&self, at: usize) -> (r: u64)
        requires
            at + 8 <= self.data().len(),
        ensures
            r == de8(self.data_from(at as int)),
    {
        let len = self.buf.len();
        assert(at + 8 <= len);
        let hi = self.get4(at);
        let lo = self.get4(at + 4);
        proof {
            let s = self.data_from(at as int);
            assert(s.take(4) =~= self.data_from(at as int).subrange(0, 4));
            assert(de4(s.take(4)) == de4(s)) by {
                assert(s.take(4).take(2) =~= s.take(2));
                assert(s.take(4).subrange(2, 4) =~= s.subrange(2, 4));
            }
            assert(s.subrange(4, 8).take(2) =~= self.data_from(at + 4).take(2));
            assert(s.subrange(4, 8).subrange(2, 4) =~= self.data_from(at + 4).subrange(2, 4));
            assert(s.subrange(4, 8)[0] == self.data_from(at + 4)[0]);
            assert(s.subrange(4, 8)[1] == self.data_from(at + 4)[1]);
            assert(de4(s.subrange(4, 8)) == de4(self.data_from(at + 4)));
        }
        (hi as u64) * 0x1_0000_0000 + (lo as u64)
    }

    /// Read a single byte from the stream.
    pub fn read_byte(&mut self) -> (r: Result<i8, NbtError>)
        requires
            old(self).wf(),
        ensures
            final(self).wf(),
            final(self).data() == old(self).data(),
            match r {
                Ok(b) => {
                    &&& old(self).rest().len() >= 1
                    &&& b == i8_of_u8(old(self).rest()[0])
                    &&& final(self).position() == old(self).position() + 1
                },
                Err(e) => {
                    &&& e == NbtError::ShortRead
                    &&& old(self).rest().len() < 1
                    &&& *final(self) == *old(self)
                },
            },
    {
        if self.buf.len() - self.pos < 1 {
            return Err(NbtError::ShortRead);
        }
        let b = self.buf[self.pos];
        assert(self.rest()[0] == b);
        self.pos = self.pos + 1;
        Ok(i8_from_u8(b))
    }

    /// Read a big-endian 16-bit value from the stream.
    pub fn read_short(&mut self) -> (r: Result<i16, NbtError>)
        requires
            old(self).wf(),
        ensures
            final(self).wf(),
            final(self).data() == old(self).data(),
            match r {
                Ok(x) => {
                    &&& old(self).rest().len() >= 2
                    &&& x == i16_of_u16(de2(old(self).rest()))
                    &&& final(self).position() == old(self).position() + 2
                },
                Err(e) => {
                    &&& e == NbtError::ShortRead
                    &&& old(self).rest().len() < 2
                    &&& *final(self) == *old(self)
                },
            },
    {
        if self.buf.len() - self.pos < 2 {
            return Err(NbtError::ShortRead);
        }
        let u = self.get2(self.pos);
        self.pos = self.pos + 2;
        Ok(i16_from_u16(u))
    }

    /// Read a big-endian 32-bit value from the stream.
    pub fn read_int(&mut self) -> (r: Result<i32, NbtError>)
        requires
            old(self).wf(),
        ensures
            final(self).wf(),
            final(self).data() == old(self).data(),
            match r {
                Ok(x) => {
                    &&& old(self).rest().len() >= 4
                    &&& x == i32_of_u32(de4(old(self).rest()))
                    &&& final(self).position() == old(self).position() + 4
                },
                Err(e) => {
                    &&& e == NbtError::ShortRead
                    &&& old(self).rest().len() < 4
                    &&& *final(self) == *old(self)
                },
            },
    {
        if self.buf.len() - self.pos < 4 {
            return Err(NbtError::ShortRead);
        }
        let u = self.get4(self.pos);
        self.pos = self.pos + 4;
        Ok(i32_from_u32(u))
    }

    /// Read a big-endian 64-bit value from the stream.
    pub fn read_long(&mut self) -> (r: Result<i64, NbtError>)
        requires
            old(self).wf(),
        ensures
            final(self).wf(),
            final(self).data() == old(self).data(),
            match r {
                Ok(x) => {
                    &&& old(self).rest().len() >= 8
                    &&& x == i64_of_u64(de8(old(self).rest()))
                    &&& final(self).position() == old(self).position() + 8
                },
                Err(e) => {
                    &&& e == NbtError::ShortRead
                    &&& old(self).rest().len() < 8
                    &&& *final(self) == *old(self)
                },
            },
    {
        if self.buf.len() - self.pos < 8 {
            return Err(NbtError::ShortRead);
        }
        let u = self.get8(self.pos);
        self.pos = self.pos + 8;
        Ok(i64_from_u64(u))
    }

    /// Read exactly `count` bytes from the stream, as signed bytes.
    pub fn read_bytes(&mut self, count: usize) -> (r: Result<Vec<i8>, NbtError>)
        requires
            old(self).wf(),
        ensures
            final(self).wf(),
            final(self).data() == old(self).data(),
            match r {
                Ok(v) => {
                    &&& old(self).rest().len() >= count
                    &&& v@ == seq_i8(old(self).rest().take(count as int))
                    &&& final(self).position() == old(self).position() + count
                },
                Err(e) => {
                    &&& e == NbtError::ShortRead
                    &&& old(self).rest().len() < count
                    &&& *final(self) == *old(self)
                },
            },
    {
        if self.buf.len() - self.pos < count {
            return Err(NbtError::ShortRead);
        }
        assert(self.data().len() <= usize::MAX) by {
            assert(self.data().len() == self.buf.len());
        }
        let mut v: Vec<i8> = Vec::new();
        let mut i: usize = 0;
        while i < count
            invariant
                self.wf(),
                i <= count,
                self.data().len() <= usize::MAX,
                count <= self.data().len() - self.position(),
                v@.len() == i,
                forall|j: int| 0 <= j < i ==> v@[j] == i8_of_u8(self.data()[self.position() + j]),
            decreases count - i,
        {
            v.push(i8_from_u8(self.buf[self.pos + i]));
            i = i + 1;
        }
        proof {
            assert(v@ =~= seq_i8(self.rest().take(count as int)));
        }
        self.pos = self.pos + count;
        Ok(v)
    }

    /// Read one length-prefixed text value: a signed 16-bit byte count,
    /// then that many raw bytes.  A negative count is rejected as a short
    /// read, since no stream can satisfy it.
    pub fn read_utf(&mut self) -> (r: Result<Vec<u8>, NbtError>)
        requires
            old(self).wf(),
        ensures
            final(self).wf(),
            final(self).data() == old(self).data(),
            match r {
                Ok(v) => {
                    &&& parse_text(old(self).rest()) == Some(
                        (v@, final(self).position() - old(self).position()),
                    )
                    &&& final(self).position() == old(self).position() + 2 + v@.len()
                },
                Err(e) => {
                    &&& e == NbtError::ShortRead
                    &&& parse_text(old(self).rest()) is None
                    &&& *final(self) == *old(self)
                },
            },
    {
        if self.buf.len() - self.pos < 2 {
            return Err(NbtError::ShortRead);
        }
        let u = self.get2(self.pos);
        let n_signed = i16_from_u16(u);
        if n_signed < 0 {
            return Err(NbtError::ShortRead);
        }
        let n = n_signed as usize;
        if self.buf.len() - self.pos - 2 < n {
            return Err(NbtError::ShortRead);
        }
        assert(self.data().len() <= usize::MAX) by {
            assert(self.data().len() == self.buf.len());
        }
        let mut v: Vec<u8> = Vec::new();
        let mut i: usize = 0;
        while i < n
            invariant
                self.wf(),
                i <= n,
                self.data().len() <= usize::MAX,
                n <= self.data().len() - self.position() - 2,
                v@.len() == i,
                forall|j: int| 0 <= j < i ==> v@[j] == self.data()[self.position() + 2 + j],
            decreases n - i,
        {
            v.push(self.buf[self.pos + 2 + i]);
            i = i + 1;
        }
        proof {
            assert(v@ =~= self.rest().subrange(2, 2 + n as int));
        }
        self.pos = self.pos + 2 + n;
        Ok(v)
    }
}

} // verus!
