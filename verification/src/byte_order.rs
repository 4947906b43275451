//! Byte order as mathematics: what number a run of bytes denotes, which bytes
//! denote a number, and the executable conversions between the two.

use vstd::arithmetic::div_mod::{lemma_basic_div, lemma_div_denominator};
use vstd::prelude::*;

verus! {

/// The number of values that `width` bytes can tell apart: 256 to the power `width`.
pub open spec fn pow256(width: nat) -> nat
    decreases width,
{
    if width == 0 {
        1
    } else {
        256 * pow256((width - 1) as nat)
    }
}

/// The number that `bytes` denotes when the first byte is the most significant.
pub open spec fn be_value(bytes: Seq<u8>) -> nat
    decreases bytes.len(),
{
    if bytes.len() == 0 {
        0
    } else {
        be_value(bytes.drop_last()) * 256 + bytes.last() as nat
    }
}

/// The number that `bytes` denotes when the first byte is the least significant.
pub open spec fn le_value(bytes: Seq<u8>) -> nat
    decreases bytes.len(),
{
    if bytes.len() == 0 {
        0
    } else {
        bytes.first() as nat + 256 * le_value(bytes.drop_first())
    }
}

/// The `width` low-order bytes of `v`, most significant first.
pub open spec fn be_bytes(v: nat, width: nat) -> Seq<u8>
    decreases width,
{
    if width == 0 {
        Seq::empty()
    } else {
        be_bytes(v / 256, (width - 1) as nat).push((v % 256) as u8)
    }
}

/// The `width` low-order bytes of `v`, least significant first.
pub open spec fn le_bytes(v: nat, width: nat) -> Seq<u8>
    decreases width,
{
    if width == 0 {
        Seq::empty()
    } else {
        seq![(v % 256) as u8] + le_bytes(v / 256, (width - 1) as nat)
    }
}

/// The signed number whose two's-complement pattern over `width` bytes is `n`.
pub open spec fn twos_complement(n: nat, width: nat) -> int {
    if 2 * n >= pow256(width) {
        n - pow256(width)
    } else {
        n as int
    }
}

/// The two's-complement pattern of `v` over `width` bytes, as an unsigned number.
pub open spec fn bit_pattern(v: int, width: nat) -> nat {
    if v < 0 {
        (v + pow256(width)) as nat
    } else {
        v as nat
    }
}

/// Whether `v` is an unsigned number that `width` bytes can hold.
pub open spec fn fits_unsigned(v: int, width: nat) -> bool {
    0 <= v < pow256(width)
}

/// Whether `v` is a signed number that `width` bytes can hold in two's
/// complement.
pub open spec fn fits_signed(v: int, width: nat) -> bool {
    -(pow256(width) as int) <= 2 * v < pow256(width)
}

/// The values of `pow256` at the widths of the machine integers.
pub proof fn lemma_pow256_widths()
    ensures
        pow256(0) == 1,
        pow256(1) == 0x100,
        pow256(2) == 0x1_0000,
        pow256(4) == 0x1_0000_0000,
        pow256(8) == 0x1_0000_0000_0000_0000,
        pow256(16) == 0x1_0000_0000_0000_0000_0000_0000_0000_0000,
{
    reveal_with_fuel(pow256, 17);
}

/// `pow256` never shrinks as the width grows.
pub proof fn lemma_pow256_monotonic(narrow: nat, wide: nat)
    requires
        narrow <= wide,
    ensures
        0 < pow256(narrow) <= pow256(wide),
    decreases wide,
{
    if narrow < wide {
        lemma_pow256_monotonic(narrow, (wide - 1) as nat);
    } else if wide > 0 {
        lemma_pow256_monotonic((narrow - 1) as nat, (wide - 1) as nat);
    }
}

/// A big-endian run of bytes denotes a number below `pow256` of its length.
pub proof fn lemma_be_value_bound(bytes: Seq<u8>)
    ensures
        be_value(bytes) < pow256(bytes.len()),
    decreases bytes.len(),
{
    if bytes.len() > 0 {
        lemma_be_value_bound(bytes.drop_last());
    }
}

/// A little-endian run of bytes denotes a number below `pow256` of its length.
pub proof fn lemma_le_value_bound(bytes: Seq<u8>)
    ensures
        le_value(bytes) < pow256(bytes.len()),
    decreases bytes.len(),
{
    if bytes.len() > 0 {
        lemma_le_value_bound(bytes.drop_first());
    }
}

/// `be_bytes` yields exactly `width` bytes.
pub proof fn lemma_be_bytes_len(v: nat, width: nat)
    ensures
        be_bytes(v, width).len() == width,
    decreases width,
{
    if width > 0 {
        lemma_be_bytes_len(v / 256, (width - 1) as nat);
    }
}

/// `le_bytes` yields exactly `width` bytes.
pub proof fn lemma_le_bytes_len(v: nat, width: nat)
    ensures
        le_bytes(v, width).len() == width,
    decreases width,
{
    if width > 0 {
        lemma_le_bytes_len(v / 256, (width - 1) as nat);
    }
}

/// Decoding the big-endian bytes of a number that fits in `width` bytes gives
/// the number back.
pub proof fn lemma_be_value_of_bytes(v: nat, width: nat)
    requires
        fits_unsigned(v as int, width),
    ensures
        be_value(be_bytes(v, width)) == v,
    decreases width,
{
    if width > 0 {
        let shorter = be_bytes(v / 256, (width - 1) as nat);
        lemma_be_value_of_bytes(v / 256, (width - 1) as nat);
        assert(be_bytes(v, width).drop_last() =~= shorter);
    }
}

/// Decoding the little-endian bytes of a number that fits in `width` bytes
/// gives the number back.
pub proof fn lemma_le_value_of_bytes(v: nat, width: nat)
    requires
        fits_unsigned(v as int, width),
    ensures
        le_value(le_bytes(v, width)) == v,
    decreases width,
{
    if width > 0 {
        let shorter = le_bytes(v / 256, (width - 1) as nat);
        lemma_le_value_of_bytes(v / 256, (width - 1) as nat);
        assert(le_bytes(v, width).drop_first() =~= shorter);
    }
}

/// Encoding what a big-endian run of bytes denotes, at the run's own length,
/// gives the run back.
pub proof fn lemma_be_bytes_of_value(bytes: Seq<u8>)
    ensures
        be_bytes(be_value(bytes), bytes.len()) == bytes,
    decreases bytes.len(),
{
    if bytes.len() > 0 {
        lemma_be_bytes_of_value(bytes.drop_last());
        assert(be_bytes(be_value(bytes), bytes.len()) =~= bytes);
    }
}

/// Encoding what a little-endian run of bytes denotes, at the run's own
/// length, gives the run back.
pub proof fn lemma_le_bytes_of_value(bytes: Seq<u8>)
    ensures
        le_bytes(le_value(bytes), bytes.len()) == bytes,
    decreases bytes.len(),
{
    if bytes.len() > 0 {
        lemma_le_bytes_of_value(bytes.drop_first());
        assert(le_bytes(le_value(bytes), bytes.len()) =~= bytes);
    }
}

/// A signed number that fits in `width` bytes is recovered from its
/// two's-complement pattern, and the pattern itself fits in `width` bytes.
pub proof fn lemma_twos_complement_of_pattern(v: int, width: nat)
    requires
        width > 0,
        fits_signed(v, width),
    ensures
        fits_unsigned(bit_pattern(v, width) as int, width),
        twos_complement(bit_pattern(v, width), width) == v,
{
}

/// The two byte orders are mirror images: the little-endian bytes of a number
/// are its big-endian bytes in reverse.
pub proof fn lemma_le_bytes_reverse_be(v: nat, width: nat)
    ensures
        le_bytes(v, width) == be_bytes(v, width).reverse(),
    decreases width,
{
    if width > 0 {
        lemma_le_bytes_reverse_be(v / 256, (width - 1) as nat);
        lemma_be_bytes_len(v / 256, (width - 1) as nat);
    }
    lemma_be_bytes_len(v, width);
    lemma_le_bytes_len(v, width);
    assert(le_bytes(v, width) =~= be_bytes(v, width).reverse());
}

/// A run of bytes read least significant byte first denotes what its reverse
/// denotes read most significant byte first.
pub proof fn lemma_le_value_reverse_be(bytes: Seq<u8>)
    ensures
        le_value(bytes) == be_value(bytes.reverse()),
    decreases bytes.len(),
{
    if bytes.len() > 0 {
        lemma_le_value_reverse_be(bytes.drop_first());
        assert(bytes.reverse().drop_last() =~= bytes.drop_first().reverse());
    }
}

/// One byte denotes itself in either order, and a number below 256 is
/// encoded as that one byte in either order.
pub proof fn lemma_single_byte(b: u8)
    ensures
        be_value(seq![b]) == b,
        le_value(seq![b]) == b,
        be_bytes(b as nat, 1) == seq![b],
        le_bytes(b as nat, 1) == seq![b],
{
    reveal_with_fuel(be_value, 2);
    reveal_with_fuel(le_value, 2);
    reveal_with_fuel(be_bytes, 2);
    reveal_with_fuel(le_bytes, 2);
    assert(seq![b].drop_last() =~= Seq::<u8>::empty());
    assert(seq![b].drop_first() =~= Seq::<u8>::empty());
    assert(be_bytes(b as nat, 1) =~= seq![b]);
    assert(le_bytes(b as nat, 1) =~= seq![b]);
}

/// Every machine integer fits in the bytes of its own width.
pub proof fn lemma_machine_integers_fit()
    ensures
        forall|v: u8| #[trigger] fits_unsigned(v as int, 1),
        forall|v: u16| #[trigger] fits_unsigned(v as int, 2),
        forall|v: u32| #[trigger] fits_unsigned(v as int, 4),
        forall|v: u64| #[trigger] fits_unsigned(v as int, 8),
        forall|v: u128| #[trigger] fits_unsigned(v as int, 16),
        forall|v: i8| #[trigger] fits_signed(v as int, 1),
        forall|v: i16| #[trigger] fits_signed(v as int, 2),
        forall|v: i32| #[trigger] fits_signed(v as int, 4),
        forall|v: i64| #[trigger] fits_signed(v as int, 8),
        forall|v: i128| #[trigger] fits_signed(v as int, 16),
{
    lemma_pow256_widths();
}

/// Reads `bytes` as one number, the first byte being the most significant.
pub fn decode_be(bytes: &[u8]) -> (n: u128)
    requires
        bytes@.len() <= 16,
    ensures
        n == be_value(bytes@),
{
    let mut acc: u128 = 0;
    let mut i: usize = 0;
    while i < bytes.len()
        invariant
            i <= bytes@.len() <= 16,
            acc == be_value(bytes@.take(i as int)),
        decreases bytes@.len() - i,
    {
        proof {
            let longer = bytes@.take(i + 1);
            assert(longer.drop_last() =~= bytes@.take(i as int));
            lemma_be_value_bound(longer);
            lemma_pow256_monotonic(longer.len(), 16);
            lemma_pow256_widths();
        }
        acc = acc * 256 + bytes[i] as u128;
        i += 1;
    }
    assert(bytes@.take(i as int) =~= bytes@);
    acc
}

/// Reads `bytes` as one number, the first byte being the least significant.
pub fn decode_le(bytes: &[u8]) -> (n: u128)
    requires
        bytes@.len() <= 16,
    ensures
        n == le_value(bytes@),
{
    let mut acc: u128 = 0;
    let mut i: usize = bytes.len();
    while i > 0
        invariant
            i <= bytes@.len() <= 16,
            acc == le_value(bytes@.skip(i as int)),
        decreases i,
    {
        proof {
            let longer = bytes@.skip(i - 1);
            assert(longer.drop_first() =~= bytes@.skip(i as int));
            lemma_le_value_bound(longer);
            lemma_pow256_monotonic(longer.len(), 16);
            lemma_pow256_widths();
        }
        i -= 1;
        acc = acc * 256 + bytes[i] as u128;
    }
    assert(bytes@.skip(0) =~= bytes@);
    acc
}

/// Shifting right by whole bytes divides by the matching power of 256.
proof fn lemma_shift_divides(v: u128, bytes: nat)
    requires
        bytes < 16,
    ensures
        v >> ((8 * bytes) as u32) == v as nat / pow256(bytes),
    decreases bytes,
{
    if bytes == 0 {
        assert(v >> 0u32 == v) by (bit_vector);
        assert(v as nat / 1 == v as nat);
    } else {
        let fewer = (bytes - 1) as nat;
        let s: u32 = (8 * fewer) as u32;
        let t: u32 = (8 * bytes) as u32;
        let upper: u128 = v >> s;
        lemma_shift_divides(v, fewer);
        lemma_pow256_monotonic(0, fewer);
        assert(v >> t == upper / 256) by (bit_vector)
            requires
                upper == v >> s,
                t == s + 8,
                s <= 112,
        ;
        lemma_div_denominator(v as int, pow256(fewer) as int, 256);
        assert(pow256(fewer) * 256 == pow256(bytes));
        assert(upper == v as nat / pow256(fewer));
        assert(upper / 256 == v as nat / pow256(bytes));
    }
}

/// Appends the `width` low-order bytes of `v` to `out`, most significant first.
pub fn encode_be(out: &mut Vec<u8>, v: u128, width: usize)
    ensures
        final(out)@ == old(out)@ + be_bytes(v as nat, width as nat),
{
    let mut left: usize = width;
    proof {
        lemma_pow256_monotonic(0, width as nat);
        assert(out@ =~= out@ + be_bytes(v as nat / pow256(width as nat), 0));
    }
    while left > 0
        invariant
            left <= width,
            out@ == old(out)@ + be_bytes(v as nat / pow256(left as nat), (width - left) as nat),
        decreases left,
    {
        let ghost above = v as nat / pow256(left as nat);
        left -= 1;
        let ghost here = v as nat / pow256(left as nat);
        proof {
            lemma_pow256_monotonic(0, left as nat);
            lemma_div_denominator(v as int, pow256(left as nat) as int, 256);
            assert(pow256(left as nat) * 256 == pow256((left + 1) as nat));
            assert(here / 256 == above);
        }
        let byte: u8 = if left < 16 {
            let shifted: u128 = v >> (8 * left as u32);
            proof {
                lemma_shift_divides(v, left as nat);
                assert(shifted & 0xff == shifted % 256) by (bit_vector);
            }
            (shifted & 0xff) as u8
        } else {
            proof {
                lemma_pow256_widths();
                lemma_pow256_monotonic(16, left as nat);
                lemma_basic_div(v as int, pow256(left as nat) as int);
            }
            0
        };
        out.push(byte);
        assert(out@ =~= old(out)@ + be_bytes(here, (width - left) as nat));
    }
    assert(v as nat / pow256(0) == v as nat);
}

/// Appends the `width` low-order bytes of `v` to `out`, least significant first.
pub fn encode_le(out: &mut Vec<u8>, v: u128, width: usize)
    ensures
        final(out)@ == old(out)@ + le_bytes(v as nat, width as nat),
{
    let mut rest: u128 = v;
    let mut i: usize = 0;
    while i < width
        invariant
            i <= width,
            out@ + le_bytes(rest as nat, (width - i) as nat) == old(out)@ + le_bytes(
                v as nat,
                width as nat,
            ),
        decreases width - i,
    {
        let ghost before = out@;
        out.push((rest & 0xff) as u8);
        proof {
            assert(rest >> 8 == rest / 256 && rest & 0xff == rest % 256) by (bit_vector);
            assert(out@ + le_bytes((rest >> 8) as nat, (width - i - 1) as nat) =~= before
                + le_bytes(rest as nat, (width - i) as nat));
        }
        rest = rest >> 8;
        i += 1;
    }
    assert(out@ + le_bytes(rest as nat, 0) =~= out@);
}

} // verus!
