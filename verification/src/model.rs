//! The mathematical model of a cursor: a sequence of bytes and a position.

use crate::byte_order::{
    be_bytes, be_value, bit_pattern, fits_signed, fits_unsigned, le_bytes, le_value,
    lemma_be_bytes_len, lemma_be_value_of_bytes, lemma_le_bytes_len, lemma_le_value_of_bytes,
    lemma_pow256_widths, lemma_twos_complement_of_pattern, twos_complement,
};
use vstd::prelude::*;

verus! {

/// What a cursor is, as a value in specifications.
pub struct CursorView {
    /// Every byte of the buffer, consumed or not, in stream order.
    pub bytes: Seq<u8>,
    /// The index of the next byte to be read.
    pub position: nat,
}

impl CursorView {
    /// The position lies within the buffer or at its end.
    pub open spec fn wf(self) -> bool {
        self.position <= self.bytes.len()
    }

    /// The number of bytes not yet consumed, never negative.
    pub open spec fn remaining(self) -> nat {
        if self.position <= self.bytes.len() {
            (self.bytes.len() - self.position) as nat
        } else {
            0
        }
    }

    /// The bytes not yet consumed.
    pub open spec fn unread(self) -> Seq<u8> {
        self.bytes.skip(self.position as int)
    }

    /// The `n` bytes that the next read of that length consumes.
    pub open spec fn next(self, n: nat) -> Seq<u8> {
        self.bytes.subrange(self.position as int, (self.position + n) as int)
    }

    /// This cursor with its position moved by `delta`, the buffer untouched.
    pub open spec fn moved(self, delta: int) -> CursorView {
        CursorView { bytes: self.bytes, position: (self.position + delta) as nat }
    }

    /// This cursor with `tail` appended to its buffer, the position untouched.
    pub open spec fn appended(self, tail: Seq<u8>) -> CursorView {
        CursorView { bytes: self.bytes + tail, position: self.position }
    }
}

/// In a well-formed cursor the unread count is the buffer's length less the
/// position, and it is the length of the unread bytes.
pub proof fn lemma_remaining(c: CursorView)
    requires
        c.wf(),
    ensures
        c.remaining() == c.bytes.len() - c.position,
        c.remaining() == c.unread().len(),
        c.unread() == c.next(c.remaining()),
{
    assert(c.unread() =~= c.next(c.remaining()));
}

/// A read of `n` bytes that fit consumes a prefix of the unread bytes and
/// leaves the rest of them unread.
pub proof fn lemma_read_consumes_prefix(c: CursorView, n: nat)
    requires
        c.wf(),
        n <= c.remaining(),
    ensures
        c.next(n) == c.unread().take(n as int),
        c.moved(n as int).wf(),
        c.moved(n as int).unread() == c.unread().skip(n as int),
        c.moved(n as int).remaining() == c.remaining() - n,
{
    assert(c.next(n) =~= c.unread().take(n as int));
    assert(c.moved(n as int).unread() =~= c.unread().skip(n as int));
}

/// A move that stays within the buffer keeps the cursor well formed, and a
/// move back by the same amount undoes it.
pub proof fn lemma_moved_in_bounds(c: CursorView, delta: int)
    requires
        c.wf(),
        0 <= c.position + delta <= c.bytes.len(),
    ensures
        c.moved(delta).wf(),
        c.moved(delta).remaining() == c.remaining() - delta,
        c.moved(delta).moved(-delta) == c,
{
}

/// Appending leaves the position and every earlier byte as they were: the
/// unread bytes grow by the appended ones at their end.
pub proof fn lemma_appended_keeps_position(c: CursorView, tail: Seq<u8>)
    requires
        c.wf(),
    ensures
        c.appended(tail).wf(),
        c.appended(tail).position == c.position,
        c.appended(tail).bytes.len() == c.bytes.len() + tail.len(),
        c.appended(tail).bytes.take(c.bytes.len() as int) == c.bytes,
        c.appended(tail).remaining() == c.remaining() + tail.len(),
        c.appended(tail).unread() == c.unread() + tail,
{
    assert(c.appended(tail).bytes.take(c.bytes.len() as int) =~= c.bytes);
    assert(c.appended(tail).unread() =~= c.unread() + tail);
}

/// What is appended is what a read of the same length finds at the place
/// where the buffer used to end.
pub proof fn lemma_appended_read_back(c: CursorView, tail: Seq<u8>)
    requires
        c.wf(),
    ensures
        c.appended(tail).moved(c.remaining() as int).position == c.bytes.len(),
        c.appended(tail).moved(c.remaining() as int).remaining() == tail.len(),
        c.appended(tail).moved(c.remaining() as int).next(tail.len()) == tail,
{
    let d = c.appended(tail).moved(c.remaining() as int);
    assert(d.next(tail.len()) =~= tail);
}

/// A byte that is appended is the byte that a one-byte read finds at the place
/// where the buffer used to end.
pub proof fn lemma_round_trip_u8(c: CursorView, b: u8)
    requires
        c.wf(),
    ensures
        c.appended(seq![b]).moved(c.remaining() as int).position == c.bytes.len(),
        c.appended(seq![b]).moved(c.remaining() as int).remaining() == 1,
        c.appended(seq![b]).moved(c.remaining() as int).bytes[c.bytes.len() as int] == b,
{
    lemma_appended_read_back(c, seq![b]);
}

/// A signed 8-bit number, appended as its two's-complement byte, is what a
/// signed one-byte read finds at the place where the buffer used to end.
pub proof fn lemma_round_trip_i8(c: CursorView, v: i8)
    requires
        c.wf(),
    ensures
        c.appended(seq![bit_pattern(v as int, 1) as u8]).moved(c.remaining() as int).position
            == c.bytes.len(),
        c.appended(seq![bit_pattern(v as int, 1) as u8]).moved(c.remaining() as int).remaining()
            == 1,
        twos_complement(
            c.appended(seq![bit_pattern(v as int, 1) as u8]).moved(
                c.remaining() as int,
            ).bytes[c.bytes.len() as int] as nat,
            1,
        ) == v,
{
    lemma_pow256_widths();
    lemma_twos_complement_of_pattern(v as int, 1);
    lemma_appended_read_back(c, seq![bit_pattern(v as int, 1) as u8]);
}

/// An unsigned number that fits in `width` bytes, appended most significant
/// byte first, is decoded again by a big-endian read of `width` bytes from the
/// place where it was appended.
pub proof fn lemma_round_trip_be(c: CursorView, v: nat, width: nat)
    requires
        c.wf(),
        fits_unsigned(v as int, width),
    ensures
        c.appended(be_bytes(v, width)).moved(c.remaining() as int).remaining() == width,
        be_value(c.appended(be_bytes(v, width)).moved(c.remaining() as int).next(width)) == v,
{
    lemma_be_bytes_len(v, width);
    lemma_be_value_of_bytes(v, width);
    lemma_appended_read_back(c, be_bytes(v, width));
}

/// An unsigned number that fits in `width` bytes, appended least significant
/// byte first, is decoded again by a little-endian read of `width` bytes from
/// the place where it was appended.
pub proof fn lemma_round_trip_le(c: CursorView, v: nat, width: nat)
    requires
        c.wf(),
        fits_unsigned(v as int, width),
    ensures
        c.appended(le_bytes(v, width)).moved(c.remaining() as int).remaining() == width,
        le_value(c.appended(le_bytes(v, width)).moved(c.remaining() as int).next(width)) == v,
{
    lemma_le_bytes_len(v, width);
    lemma_le_value_of_bytes(v, width);
    lemma_appended_read_back(c, le_bytes(v, width));
}

/// A signed number that fits in `width` bytes, appended in two's complement
/// most significant byte first, is decoded again by a signed big-endian read
/// of `width` bytes from the place where it was appended.
pub proof fn lemma_round_trip_be_signed(c: CursorView, v: int, width: nat)
    requires
        c.wf(),
        width > 0,
        fits_signed(v, width),
    ensures
        c.appended(be_bytes(bit_pattern(v, width), width)).moved(
            c.remaining() as int,
        ).remaining() == width,
        twos_complement(
            be_value(
                c.appended(be_bytes(bit_pattern(v, width), width)).moved(
                    c.remaining() as int,
                ).next(width),
            ),
            width,
        ) == v,
{
    lemma_twos_complement_of_pattern(v, width);
    lemma_round_trip_be(c, bit_pattern(v, width), width);
}

/// A signed number that fits in `width` bytes, appended in two's complement
/// least significant byte first, is decoded again by a signed little-endian
/// read of `width` bytes from the place where it was appended.
pub proof fn lemma_round_trip_le_signed(c: CursorView, v: int, width: nat)
    requires
        c.wf(),
        width > 0,
        fits_signed(v, width),
    ensures
        c.appended(le_bytes(bit_pattern(v, width), width)).moved(
            c.remaining() as int,
        ).remaining() == width,
        twos_complement(
            le_value(
                c.appended(le_bytes(bit_pattern(v, width), width)).moved(
                    c.remaining() as int,
                ).next(width),
            ),
            width,
        ) == v,
{
    lemma_twos_complement_of_pattern(v, width);
    lemma_round_trip_le(c, bit_pattern(v, width), width);
}

} // verus!
