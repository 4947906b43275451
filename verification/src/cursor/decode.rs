//! Fixed-width decoding at the position.

use crate::byte_order::{
    be_value, decode_be, decode_le, le_value, lemma_be_value_bound, lemma_le_value_bound,
    lemma_pow256_widths, pow256, twos_complement,
};
use crate::cursor::{CursorError, Cursored};
use crate::signed::{
    i128_from_pattern, i16_from_pattern, i32_from_pattern, i64_from_pattern, i8_from_pattern,
};
use vstd::prelude::*;
use vstd::slice::slice_subrange;

verus! {

impl Cursored {
    /// Consumes `width` bytes and reads them as one number, the first byte
    /// being the most significant.
    ///
    /// With fewer than `width` bytes left nothing is consumed.
    fn take_be(&mut self, width: usize) -> (r: Result<u128, CursorError>)
        requires
            width <= 16,
        ensures
            match r {
                Ok(n) => width <= old(self)@.remaining() && n == be_value(
                    old(self)@.next(width as nat),
                ) && n < pow256(width as nat) && final(self)@ == old(self)@.moved(width as int),
                Err(e) => old(self)@.remaining() < width && e == CursorError::BufferExhausted
                    && final(self)@ == old(self)@,
            },
            final(self)@.wf(),
    {
        proof {
            use_type_invariant(&*self);
        }
        if width > self.buf.len() - self.pos {
            return Err(CursorError::BufferExhausted);
        }
        let start: usize = self.pos;
        let run = slice_subrange(self.buf.as_slice(), start, start + width);
        let n = decode_be(run);
        proof {
            lemma_be_value_bound(run@);
        }
        self.pos = start + width;
        Ok(n)
    }

    /// Consumes `width` bytes and reads them as one number, the first byte
    /// being the least significant.
    ///
    /// With fewer than `width` bytes left nothing is consumed.
    fn take_le(&mut self, width: usize) -> (r: Result<u128, CursorError>)
        requires
            width <= 16,
        ensures
            match r {
                Ok(n) => width <= old(self)@.remaining() && n == le_value(
                    old(self)@.next(width as nat),
                ) && n < pow256(width as nat) && final(self)@ == old(self)@.moved(width as int),
                Err(e) => old(self)@.remaining() < width && e == CursorError::BufferExhausted
                    && final(self)@ == old(self)@,
            },
            final(self)@.wf(),
    {
        proof {
            use_type_invariant(&*self);
        }
        if width > self.buf.len() - self.pos {
            return Err(CursorError::BufferExhausted);
        }
        let start: usize = self.pos;
        let run = slice_subrange(self.buf.as_slice(), start, start + width);
        let n = decode_le(run);
        proof {
            lemma_le_value_bound(run@);
        }
        self.pos = start + width;
        Ok(n)
    }

    /// Decodes one byte as an unsigned integer.
    ///
    /// At the end of the buffer the read is rejected and the cursor stays as
    /// it was.
    pub fn read_u8(&mut self) -> (r: Result<u8, CursorError>)
        ensures
            match r {
                Ok(v) => 1 <= old(self)@.remaining() && v == old(self)@.bytes[old(
                    self,
                )@.position as int] && final(self)@ == old(self)@.moved(1),
                Err(e) => old(self)@.remaining() < 1 && e == CursorError::BufferExhausted
                    && final(self)@ == old(self)@,
            },
            final(self)@.wf(),
    {
        proof {
            use_type_invariant(&*self);
        }
        if self.pos >= self.buf.len() {
            return Err(CursorError::BufferExhausted);
        }
        let v: u8 = self.buf[self.pos];
        self.pos = self.pos + 1;
        Ok(v)
    }

    /// Decodes one byte as a signed integer in two's complement.
    ///
    /// At the end of the buffer the read is rejected and the cursor stays as
    /// it was.
    pub fn read_i8(&mut self) -> (r: Result<i8, CursorError>)
        ensures
            match r {
                Ok(v) => 1 <= old(self)@.remaining() && v == twos_complement(
                    old(self)@.bytes[old(self)@.position as int] as nat,
                    1,
                ) && final(self)@ == old(self)@.moved(1),
                Err(e) => old(self)@.remaining() < 1 && e == CursorError::BufferExhausted
                    && final(self)@ == old(self)@,
            },
            final(self)@.wf(),
    {
        match self.read_u8() {
            Ok(u) => Ok(i8_from_pattern(u)),
            Err(e) => Err(e),
        }
    }

    /// Decodes an unsigned 16-bit integer, most significant byte first.
    ///
    /// With fewer than 2 bytes left the read is rejected and the cursor
    /// stays as it was.
    pub fn read_u16(&mut self) -> (r: Result<u16, CursorError>)
        ensures
            match r {
                Ok(v) => 2 <= old(self)@.remaining() && v == be_value(old(self)@.next(2))
                    && final(self)@ == old(self)@.moved(2),
                Err(e) => old(self)@.remaining() < 2 && e == CursorError::BufferExhausted
                    && final(self)@ == old(self)@,
            },
            final(self)@.wf(),
    {
        match self.take_be(2) {
            Ok(n) => {
                proof {
                    lemma_pow256_widths();
                }
                Ok(n as u16)
            },
            Err(e) => Err(e),
        }
    }

    /// Decodes an unsigned 16-bit integer, least significant byte first.
    ///
    /// With fewer than 2 bytes left the read is rejected and the cursor
    /// stays as it was.
    pub fn read_u16_le(&mut self) -> (r: Result<u16, CursorError>)
        ensures
            match r {
                Ok(v) => 2 <= old(self)@.remaining() && v == le_value(old(self)@.next(2))
                    && final(self)@ == old(self)@.moved(2),
                Err(e) => old(self)@.remaining() < 2 && e == CursorError::BufferExhausted
                    && final(self)@ == old(self)@,
            },
            final(self)@.wf(),
    {
        match self.take_le(2) {
            Ok(n) => {
                proof {
                    lemma_pow256_widths();
                }
                Ok(n as u16)
            },
            Err(e) => Err(e),
        }
    }

    /// Decodes a signed 16-bit integer in two's complement, most
    /// significant byte first.
    ///
    /// With fewer than 2 bytes left the read is rejected and the cursor
    /// stays as it was.
    pub fn read_i16(&mut self) -> (r: Result<i16, CursorError>)
        ensures
            match r {
                Ok(v) => 2 <= old(self)@.remaining() && v == twos_complement(
                    be_value(old(self)@.next(2)),
                    2,
                ) && final(self)@ == old(self)@.moved(2),
                Err(e) => old(self)@.remaining() < 2 && e == CursorError::BufferExhausted
                    && final(self)@ == old(self)@,
            },
            final(self)@.wf(),
    {
        match self.read_u16() {
            Ok(u) => Ok(i16_from_pattern(u)),
            Err(e) => Err(e),
        }
    }

    /// Decodes a signed 16-bit integer in two's complement, least
    /// significant byte first.
    ///
    /// With fewer than 2 bytes left the read is rejected and the cursor
    /// stays as it was.
    pub fn read_i16_le(&mut self) -> (r: Result<i16, CursorError>)
        ensures
            match r {
                Ok(v) => 2 <= old(self)@.remaining() && v == twos_complement(
                    le_value(old(self)@.next(2)),
                    2,
                ) && final(self)@ == old(self)@.moved(2),
                Err(e) => old(self)@.remaining() < 2 && e == CursorError::BufferExhausted
                    && final(self)@ == old(self)@,
            },
            final(self)@.wf(),
    {
        match self.read_u16_le() {
            Ok(u) => Ok(i16_from_pattern(u)),
            Err(e) => Err(e),
        }
    }

    /// Decodes an unsigned 32-bit integer, most significant byte first.
    ///
    /// With fewer than 4 bytes left the read is rejected and the cursor
    /// stays as it was.
    pub fn read_u32(&mut self) -> (r: Result<u32, CursorError>)
        ensures
            match r {
                Ok(v) => 4 <= old(self)@.remaining() && v == be_value(old(self)@.next(4))
                    && final(self)@ == old(self)@.moved(4),
                Err(e) => old(self)@.remaining() < 4 && e == CursorError::BufferExhausted
                    && final(self)@ == old(self)@,
            },
            final(self)@.wf(),
    {
        match self.take_be(4) {
            Ok(n) => {
                proof {
                    lemma_pow256_widths();
                }
                Ok(n as u32)
            },
            Err(e) => Err(e),
        }
    }

    /// Decodes an unsigned 32-bit integer, least significant byte first.
    ///
    /// With fewer than 4 bytes left the read is rejected and the cursor
    /// stays as it was.
    pub fn read_u32_le(&mut self) -> (r: Result<u32, CursorError>)
        ensures
            match r {
                Ok(v) => 4 <= old(self)@.remaining() && v == le_value(old(self)@.next(4))
                    && final(self)@ == old(self)@.moved(4),
                Err(e) => old(self)@.remaining() < 4 && e == CursorError::BufferExhausted
                    && final(self)@ == old(self)@,
            },
            final(self)@.wf(),
    {
        match self.take_le(4) {
            Ok(n) => {
                proof {
                    lemma_pow256_widths();
                }
                Ok(n as u32)
            },
            Err(e) => Err(e),
        }
    }

    /// Decodes a signed 32-bit integer in two's complement, most
    /// significant byte first.
    ///
    /// With fewer than 4 bytes left the read is rejected and the cursor
    /// stays as it was.
    pub fn read_i32(&mut self) -> (r: Result<i32, CursorError>)
        ensures
            match r {
                Ok(v) => 4 <= old(self)@.remaining() && v == twos_complement(
                    be_value(old(self)@.next(4)),
                    4,
                ) && final(self)@ == old(self)@.moved(4),
                Err(e) => old(self)@.remaining() < 4 && e == CursorError::BufferExhausted
                    && final(self)@ == old(self)@,
            },
            final(self)@.wf(),
    {
        match self.read_u32() {
            Ok(u) => Ok(i32_from_pattern(u)),
            Err(e) => Err(e),
        }
    }

    /// Decodes a signed 32-bit integer in two's complement, least
    /// significant byte first.
    ///
    /// With fewer than 4 bytes left the read is rejected and the cursor
    /// stays as it was.
    pub fn read_i32_le(&mut self) -> (r: Result<i32, CursorError>)
        ensures
            match r {
                Ok(v) => 4 <= old(self)@.remaining() && v == twos_complement(
                    le_value(old(self)@.next(4)),
                    4,
                ) && final(self)@ == old(self)@.moved(4),
                Err(e) => old(self)@.remaining() < 4 && e == CursorError::BufferExhausted
                    && final(self)@ == old(self)@,
            },
            final(self)@.wf(),
    {
        match self.read_u32_le() {
            Ok(u) => Ok(i32_from_pattern(u)),
            Err(e) => Err(e),
        }
    }

    /// Decodes an unsigned 64-bit integer, most significant byte first.
    ///
    /// With fewer than 8 bytes left the read is rejected and the cursor
    /// stays as it was.
    pub fn read_u64(&mut self) -> (r: Result<u64, CursorError>)
        ensures
            match r {
                Ok(v) => 8 <= old(self)@.remaining() && v == be_value(old(self)@.next(8))
                    && final(self)@ == old(self)@.moved(8),
                Err(e) => old(self)@.remaining() < 8 && e == CursorError::BufferExhausted
                    && final(self)@ == old(self)@,
            },
            final(self)@.wf(),
    {
        match self.take_be(8) {
            Ok(n) => {
                proof {
                    lemma_pow256_widths();
                }
                Ok(n as u64)
            },
            Err(e) => Err(e),
        }
    }

    /// Decodes an unsigned 64-bit integer, least significant byte first.
    ///
    /// With fewer than 8 bytes left the read is rejected and the cursor
    /// stays as it was.
    pub fn read_u64_le(&mut self) -> (r: Result<u64, CursorError>)
        ensures
            match r {
                Ok(v) => 8 <= old(self)@.remaining() && v == le_value(old(self)@.next(8))
                    && final(self)@ == old(self)@.moved(8),
                Err(e) => old(self)@.remaining() < 8 && e == CursorError::BufferExhausted
                    && final(self)@ == old(self)@,
            },
            final(self)@.wf(),
    {
        match self.take_le(8) {
            Ok(n) => {
                proof {
                    lemma_pow256_widths();
                }
                Ok(n as u64)
            },
            Err(e) => Err(e),
        }
    }

    /// Decodes a signed 64-bit integer in two's complement, most
    /// significant byte first.
    ///
    /// With fewer than 8 bytes left the read is rejected and the cursor
    /// stays as it was.
    pub fn read_i64(&mut self) -> (r: Result<i64, CursorError>)
        ensures
            match r {
                Ok(v) => 8 <= old(self)@.remaining() && v == twos_complement(
                    be_value(old(self)@.next(8)),
                    8,
                ) && final(self)@ == old(self)@.moved(8),
                Err(e) => old(self)@.remaining() < 8 && e == CursorError::BufferExhausted
                    && final(self)@ == old(self)@,
            },
            final(self)@.wf(),
    {
        match self.read_u64() {
            Ok(u) => Ok(i64_from_pattern(u)),
            Err(e) => Err(e),
        }
    }

    /// Decodes a signed 64-bit integer in two's complement, least
    /// significant byte first.
    ///
    /// With fewer than 8 bytes left the read is rejected and the cursor
    /// stays as it was.
    pub fn read_i64_le(&mut self) -> (r: Result<i64, CursorError>)
        ensures
            match r {
                Ok(v) => 8 <= old(self)@.remaining() && v == twos_complement(
                    le_value(old(self)@.next(8)),
                    8,
                ) && final(self)@ == old(self)@.moved(8),
                Err(e) => old(self)@.remaining() < 8 && e == CursorError::BufferExhausted
                    && final(self)@ == old(self)@,
            },
            final(self)@.wf(),
    {
        match self.read_u64_le() {
            Ok(u) => Ok(i64_from_pattern(u)),
            Err(e) => Err(e),
        }
    }

    /// Decodes an unsigned 128-bit integer, most significant byte first.
    ///
    /// With fewer than 16 bytes left the read is rejected and the cursor
    /// stays as it was.
    pub fn read_u128(&mut self) -> (r: Result<u128, CursorError>)
        ensures
            match r {
                Ok(v) => 16 <= old(self)@.remaining() && v == be_value(old(self)@.next(16))
                    && final(self)@ == old(self)@.moved(16),
                Err(e) => old(self)@.remaining() < 16 && e == CursorError::BufferExhausted
                    && final(self)@ == old(self)@,
            },
            final(self)@.wf(),
    {
        match self.take_be(16) {
            Ok(n) => Ok(n),
            Err(e) => Err(e),
        }
    }

    /// Decodes an unsigned 128-bit integer, least significant byte first.
    ///
    /// With fewer than 16 bytes left the read is rejected and the cursor
    /// stays as it was.
    pub fn read_u128_le(&mut self) -> (r: Result<u128, CursorError>)
        ensures
            match r {
                Ok(v) => 16 <= old(self)@.remaining() && v == le_value(old(self)@.next(16))
                    && final(self)@ == old(self)@.moved(16),
                Err(e) => old(self)@.remaining() < 16 && e == CursorError::BufferExhausted
                    && final(self)@ == old(self)@,
            },
            final(self)@.wf(),
    {
        match self.take_le(16) {
            Ok(n) => Ok(n),
            Err(e) => Err(e),
        }
    }

    /// Decodes a signed 128-bit integer in two's complement, most
    /// significant byte first.
    ///
    /// With fewer than 16 bytes left the read is rejected and the cursor
    /// stays as it was.
    pub fn read_i128(&mut self) -> (r: Result<i128, CursorError>)
        ensures
            match r {
                Ok(v) => 16 <= old(self)@.remaining() && v == twos_complement(
                    be_value(old(self)@.next(16)),
                    16,
                ) && final(self)@ == old(self)@.moved(16),
                Err(e) => old(self)@.remaining() < 16 && e == CursorError::BufferExhausted
                    && final(self)@ == old(self)@,
            },
            final(self)@.wf(),
    {
        match self.read_u128() {
            Ok(u) => Ok(i128_from_pattern(u)),
            Err(e) => Err(e),
        }
    }

    /// Decodes a signed 128-bit integer in two's complement, least
    /// significant byte first.
    ///
    /// With fewer than 16 bytes left the read is rejected and the cursor
    /// stays as it was.
    pub fn read_i128_le(&mut self) -> (r: Result<i128, CursorError>)
        ensures
            match r {
                Ok(v) => 16 <= old(self)@.remaining() && v == twos_complement(
                    le_value(old(self)@.next(16)),
                    16,
                ) && final(self)@ == old(self)@.moved(16),
                Err(e) => old(self)@.remaining() < 16 && e == CursorError::BufferExhausted
                    && final(self)@ == old(self)@,
            },
            final(self)@.wf(),
    {
        match self.read_u128_le() {
            Ok(u) => Ok(i128_from_pattern(u)),
            Err(e) => Err(e),
        }
    }
}

} // verus!
