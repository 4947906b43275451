//! Appending to the end of the buffer.

use crate::byte_order::{be_bytes, bit_pattern, encode_be, encode_le, le_bytes};
use crate::cursor::Cursored;
use crate::signed::{i128_to_pattern, i16_to_pattern, i32_to_pattern, i64_to_pattern, i8_to_pattern};
use vstd::prelude::*;

verus! {

impl Cursored {
    /// Appends `slice` as it is. The position stays.
    pub fn put_slice(&mut self, slice: &[u8])
        ensures
            final(self)@ == old(self)@.appended(slice@),
            final(self)@.wf(),
    {
        let (mut buf, pos) = self.take_parts();
        buf.extend_from_slice(slice);
        assert(buf@ =~= old(self)@.bytes + slice@);
        self.restore(buf, pos);
    }

    /// Appends the `width` low-order bytes of `v`, most significant first.
    fn grow_be(&mut self, v: u128, width: usize)
        ensures
            final(self)@ == old(self)@.appended(be_bytes(v as nat, width as nat)),
            final(self)@.wf(),
    {
        let (mut buf, pos) = self.take_parts();
        encode_be(&mut buf, v, width);
        self.restore(buf, pos);
    }

    /// Appends the `width` low-order bytes of `v`, least significant first.
    fn grow_le(&mut self, v: u128, width: usize)
        ensures
            final(self)@ == old(self)@.appended(le_bytes(v as nat, width as nat)),
            final(self)@.wf(),
    {
        let (mut buf, pos) = self.take_parts();
        encode_le(&mut buf, v, width);
        self.restore(buf, pos);
    }

    /// Appends one byte. The position stays.
    pub fn put_u8(&mut self, val: u8)
        ensures
            final(self)@ == old(self)@.appended(seq![val]),
            final(self)@.wf(),
    {
        let (mut buf, pos) = self.take_parts();
        buf.push(val);
        assert(buf@ =~= old(self)@.bytes + seq![val]);
        self.restore(buf, pos);
    }

    /// Appends the two's-complement byte of a signed 8-bit integer. The
    /// position stays.
    pub fn put_i8(&mut self, val: i8)
        ensures
            final(self)@ == old(self)@.appended(seq![bit_pattern(val as int, 1) as u8]),
            final(self)@.wf(),
    {
        self.put_u8(i8_to_pattern(val));
    }

    /// Appends an unsigned 16-bit integer, most significant byte first.
    /// The position stays.
    pub fn put_u16(&mut self, val: u16)
        ensures
            final(self)@ == old(self)@.appended(be_bytes(val as nat, 2)),
            final(self)@.wf(),
    {
        self.grow_be(val as u128, 2);
    }

    /// Appends an unsigned 16-bit integer, least significant byte first.
    /// The position stays.
    pub fn put_u16_le(&mut self, val: u16)
        ensures
            final(self)@ == old(self)@.appended(le_bytes(val as nat, 2)),
            final(self)@.wf(),
    {
        self.grow_le(val as u128, 2);
    }

    /// Appends a signed 16-bit integer in two's complement, most
    /// significant byte first. The position stays.
    pub fn put_i16(&mut self, val: i16)
        ensures
            final(self)@ == old(self)@.appended(be_bytes(bit_pattern(val as int, 2), 2)),
            final(self)@.wf(),
    {
        self.put_u16(i16_to_pattern(val));
    }

    /// Appends a signed 16-bit integer in two's complement, least
    /// significant byte first. The position stays.
    pub fn put_i16_le(&mut self, val: i16)
        ensures
            final(self)@ == old(self)@.appended(le_bytes(bit_pattern(val as int, 2), 2)),
            final(self)@.wf(),
    {
        self.put_u16_le(i16_to_pattern(val));
    }

    /// Appends an unsigned 32-bit integer, most significant byte first.
    /// The position stays.
    pub fn put_u32(&mut self, val: u32)
        ensures
            final(self)@ == old(self)@.appended(be_bytes(val as nat, 4)),
            final(self)@.wf(),
    {
        self.grow_be(val as u128, 4);
    }

    /// Appends an unsigned 32-bit integer, least significant byte first.
    /// The position stays.
    pub fn put_u32_le(&mut self, val: u32)
        ensures
            final(self)@ == old(self)@.appended(le_bytes(val as nat, 4)),
            final(self)@.wf(),
    {
        self.grow_le(val as u128, 4);
    }

    /// Appends a signed 32-bit integer in two's complement, most
    /// significant byte first. The position stays.
    pub fn put_i32(&mut self, val: i32)
        ensures
            final(self)@ == old(self)@.appended(be_bytes(bit_pattern(val as int, 4), 4)),
            final(self)@.wf(),
    {
        self.put_u32(i32_to_pattern(val));
    }

    /// Appends a signed 32-bit integer in two's complement, least
    /// significant byte first. The position stays.
    pub fn put_i32_le(&mut self, val: i32)
        ensures
            final(self)@ == old(self)@.appended(le_bytes(bit_pattern(val as int, 4), 4)),
            final(self)@.wf(),
    {
        self.put_u32_le(i32_to_pattern(val));
    }

    /// Appends an unsigned 64-bit integer, most significant byte first.
    /// The position stays.
    pub fn put_u64(&mut self, val: u64)
        ensures
            final(self)@ == old(self)@.appended(be_bytes(val as nat, 8)),
            final(self)@.wf(),
    {
        self.grow_be(val as u128, 8);
    }

    /// Appends an unsigned 64-bit integer, least significant byte first.
    /// The position stays.
    pub fn put_u64_le(&mut self, val: u64)
        ensures
            final(self)@ == old(self)@.appended(le_bytes(val as nat, 8)),
            final(self)@.wf(),
    {
        self.grow_le(val as u128, 8);
    }

    /// Appends a signed 64-bit integer in two's complement, most
    /// significant byte first. The position stays.
    pub fn put_i64(&mut self, val: i64)
        ensures
            final(self)@ == old(self)@.appended(be_bytes(bit_pattern(val as int, 8), 8)),
            final(self)@.wf(),
    {
        self.put_u64(i64_to_pattern(val));
    }

    /// Appends a signed 64-bit integer in two's complement, least
    /// significant byte first. The position stays.
    pub fn put_i64_le(&mut self, val: i64)
        ensures
            final(self)@ == old(self)@.appended(le_bytes(bit_pattern(val as int, 8), 8)),
            final(self)@.wf(),
    {
        self.put_u64_le(i64_to_pattern(val));
    }

    /// Appends an unsigned 128-bit integer, most significant byte first.
    /// The position stays.
    pub fn put_u128(&mut self, val: u128)
        ensures
            final(self)@ == old(self)@.appended(be_bytes(val as nat, 16)),
            final(self)@.wf(),
    {
        self.grow_be(val, 16);
    }

    /// Appends an unsigned 128-bit integer, least significant byte first.
    /// The position stays.
    pub fn put_u128_le(&mut self, val: u128)
        ensures
            final(self)@ == old(self)@.appended(le_bytes(val as nat, 16)),
            final(self)@.wf(),
    {
        self.grow_le(val, 16);
    }

    /// Appends a signed 128-bit integer in two's complement, most
    /// significant byte first. The position stays.
    pub fn put_i128(&mut self, val: i128)
        ensures
            final(self)@ == old(self)@.appended(be_bytes(bit_pattern(val as int, 16), 16)),
            final(self)@.wf(),
    {
        self.put_u128(i128_to_pattern(val));
    }

    /// Appends a signed 128-bit integer in two's complement, least
    /// significant byte first. The position stays.
    pub fn put_i128_le(&mut self, val: i128)
        ensures
            final(self)@ == old(self)@.appended(le_bytes(bit_pattern(val as int, 16), 16)),
            final(self)@.wf(),
    {
        self.put_u128_le(i128_to_pattern(val));
    }
}

} // verus!
