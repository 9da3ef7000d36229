//! Big-endian writer over an in-memory byte stream.

use vstd::prelude::*;

use crate::error::NbtError;
use crate::model::be2;
use crate::model::be4;
use crate::model::be8;
use crate::model::seq_u8;
use crate::model::text_frame;
use crate::model::u16_from_i16;
use crate::model::u16_of_i16;
use crate::model::u32_from_i32;
use crate::model::u32_of_i32;
use crate::model::u64_from_i64;
use crate::model::u64_of_i64;
use crate::model::u8_from_i8;
use crate::model::u8_of_i8;

verus! {

/// Writes big-endian encoded values to an in-memory byte stream.
///
/// All writes append to the end of the stream; bytes once written are
/// never revisited.
pub struct DataOutput {
    buf: Vec<u8>,
}

impl DataOutput {
    /// The bytes written so far.
    pub closed spec fn data(&self) -> Seq<u8> {
        self.buf@
    }

    /// Creates a new writer that appends to the given bytes.
    pub fn new(w: Vec<u8>) -> (out: DataOutput)
        ensures
            out.data() == w@,
    {
        DataOutput { buf: w }
    }

    /// Returns the byte stream associated with this [`DataOutput`].
    pub fn into_inner(self) -> (r: Vec<u8>)
        ensures
            r@ == self.data(),
    {
        self.buf
    }

    /// Append the two big-endian bytes of a 16-bit value.
    fn put2(&mut self, x: u16)
        ensures
            final(self).data() == old(self).data() + be2(x),
    {
        self.buf.push((x / 0x100) as u8);
        self.buf.push((x % 0x100) as u8);
        assert(final(self).data() =~= old(self).data() + be2(x));
    }

    /// Append the four big-endian bytes of a 32-bit value.
    fn put4(&mut self, x: u32)
        ensures
            final(self).data() == old(self).data() + be4(x),
    {
        self.put2((x / 0x1_0000) as u16);
        self.put2((x % 0x1_0000) as u16);
        assert(final(self).data() =~= old(self).data() + be4(x));
    }

    /// Append the eight big-endian bytes of a 64-bit value.
    fn put8(&mut self, x: u64)
        ensures
            final(self).data() == old(self).data() + be8(x),
    {
        self.put4((x / 0x1_0000_0000) as u32);
        self.put4((x % 0x1_0000_0000) as u32);
        assert(final(self).data() =~= old(self).data() + be8(x));
    }

    /// Write a single byte to the stream.
    pub fn write_byte(&mut self, x: i8)
        ensures
            final(self).data() == old(self).data() + seq![u8_of_i8(x)],
    {
        self.buf.push(u8_from_i8(x));
        assert(final(self).data() =~= old(self).data() + seq![u8_of_i8(x)]);
    }

    /// Write a 16-bit value big-endian to the stream.
    pub fn write_short(&mut self, x: i16)
        ensures
            final(self).data() == old(self).data() + be2(u16_of_i16(x)),
    {
        let u = u16_from_i16(x);
        self.put2(u);
    }

    /// Write a 32-bit value big-endian to the stream.
    pub fn write_int(&mut self, x: i32)
        ensures
            final(self).data() == old(self).data() + be4(u32_of_i32(x)),
    {
        let u = u32_from_i32(x);
        self.put4(u);
    }

    /// Write a 64-bit value big-endian to the stream.
    pub fn write_long(&mut self, x: i64)
        ensures
            final(self).data() == old(self).data() + be8(u64_of_i64(x)),
    {
        let u = u64_from_i64(x);
        self.put8(u);
    }

    /// Write all the signed bytes in `buf` to the stream.
    pub fn write_bytes(&mut self, buf: &Vec<i8>)
        ensures
            final(self).data() == old(self).data() + seq_u8(buf@),
    {
        let mut i: usize = 0;
        while i < buf.len()
            invariant
                i <= buf.len(),
                self.data().len() == old(self).data().len() + i,
                self.data() == old(self).data() + seq_u8(buf@).take(i as int),
            decreases buf.len() - i,
        {
            self.buf.push(u8_from_i8(buf[i]));
            assert(self.data() =~= old(self).data() + seq_u8(buf@).take(i + 1));
            i = i + 1;
        }
        assert(seq_u8(buf@).take(buf@.len() as int) =~= seq_u8(buf@));
    }

    /// Write one length-prefixed text value: a signed 16-bit byte count,
    /// then that many raw bytes.  A text longer than the prefix can count
    /// is rejected whole, with nothing written.
    pub fn write_utf(&mut self, s: &Vec<u8>) -> (r: Result<(), NbtError>)
        ensures
            match r {
                Ok(()) => {
                    &&& s@.len() <= 0x7fff
                    &&& final(self).data() == old(self).data() + text_frame(s@)
                },
                Err(e) => {
                    &&& e == NbtError::TextTooLong
                    &&& s@.len() > 0x7fff
                    &&& final(self).data() == old(self).data()
                },
            },
    {
        let n = s.len();
        if n > 0x7fff {
            return Err(NbtError::TextTooLong);
        }
        self.put2(n as u16);
        let ghost mid = self.data();
        let mut i: usize = 0;
        while i < n
            invariant
                i <= n,
                n == s@.len(),
                self.data() == mid + s@.take(i as int),
            decreases n - i,
        {
            self.buf.push(s[i]);
            assert(self.data() =~= mid + s@.take(i + 1));
            i = i + 1;
        }
        proof {
            assert(s@.take(n as int) =~= s@);
            assert((s@.len() % 0x1_0000) as u16 == n as u16);
            assert(mid + s@ =~= old(self).data() + text_frame(s@));
        }
        Ok(())
    }
}

} // verus!
