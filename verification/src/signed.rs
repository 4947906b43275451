//! Two's complement at the widths of the machine integers: the signed
//! reading of a bit pattern, and the pattern of a signed number.

use crate::byte_order::{bit_pattern, lemma_pow256_widths, twos_complement};
use vstd::prelude::*;

verus! {

/// The signed number that the 8-bit pattern `u` stands for.
pub fn i8_from_pattern(u: u8) -> (v: i8)
    ensures
        v == twos_complement(u as nat, 1),
{
    let v: i8 = u as i8;
    proof {
        lemma_pow256_widths();
        assert(v == if u >= 0x80 {
            u - 0x100
        } else {
            u as int
        }) by (bit_vector)
            requires
                v == u as i8,
        ;
    }
    v
}

/// The 8-bit pattern that stands for the signed number `v`.
pub fn i8_to_pattern(v: i8) -> (u: u8)
    ensures
        u == bit_pattern(v as int, 1),
{
    let u: u8 = v as u8;
    proof {
        lemma_pow256_widths();
        assert(u == if v < 0 {
            v + 0x100
        } else {
            v as int
        }) by (bit_vector)
            requires
                u == v as u8,
        ;
    }
    u
}

/// The signed number that the 16-bit pattern `u` stands for.
pub fn i16_from_pattern(u: u16) -> (v: i16)
    ensures
        v == twos_complement(u as nat, 2),
{
    let v: i16 = u as i16;
    proof {
        lemma_pow256_widths();
        assert(v == if u >= 0x8000 {
            u - 0x1_0000
        } else {
            u as int
        }) by (bit_vector)
            requires
                v == u as i16,
        ;
    }
    v
}

/// The 16-bit pattern that stands for the signed number `v`.
pub fn i16_to_pattern(v: i16) -> (u: u16)
    ensures
        u == bit_pattern(v as int, 2),
{
    let u: u16 = v as u16;
    proof {
        lemma_pow256_widths();
        assert(u == if v < 0 {
            v + 0x1_0000
        } else {
            v as int
        }) by (bit_vector)
            requires
                u == v as u16,
        ;
    }
    u
}

/// The signed number that the 32-bit pattern `u` stands for.
pub fn i32_from_pattern(u: u32) -> (v: i32)
    ensures
        v == twos_complement(u as nat, 4),
{
    let v: i32 = u as i32;
    proof {
        lemma_pow256_widths();
        assert(v == if u >= 0x8000_0000 {
            u - 0x1_0000_0000
        } else {
            u as int
        }) by (bit_vector)
            requires
                v == u as i32,
        ;
    }
    v
}

/// The 32-bit pattern that stands for the signed number `v`.
pub fn i32_to_pattern(v: i32) -> (u: u32)
    ensures
        u == bit_pattern(v as int, 4),
{
    let u: u32 = v as u32;
    proof {
        lemma_pow256_widths();
        assert(u == if v < 0 {
            v + 0x1_0000_0000
        } else {
            v as int
        }) by (bit_vector)
            requires
                u == v as u32,
        ;
    }
    u
}

/// The signed number that the 64-bit pattern `u` stands for.
pub fn i64_from_pattern(u: u64) -> (v: i64)
    ensures
        v == twos_complement(u as nat, 8),
{
    let v: i64 = u as i64;
    proof {
        lemma_pow256_widths();
        assert(v == if u >= 0x8000_0000_0000_0000 {
            u - 0x1_0000_0000_0000_0000
        } else {
            u as int
        }) by (bit_vector)
            requires
                v == u as i64,
        ;
    }
    v
}

/// The 64-bit pattern that stands for the signed number `v`.
pub fn i64_to_pattern(v: i64) -> (u: u64)
    ensures
        u == bit_pattern(v as int, 8),
{
    let u: u64 = v as u64;
    proof {
        lemma_pow256_widths();
        assert(u == if v < 0 {
            v + 0x1_0000_0000_0000_0000
        } else {
            v as int
        }) by (bit_vector)
            requires
                u == v as u64,
        ;
    }
    u
}

/// The signed number that the 128-bit pattern `u` stands for.
pub fn i128_from_pattern(u: u128) -> (v: i128)
    ensures
        v == twos_complement(u as nat, 16),
{
    let v: i128 = u as i128;
    proof {
        lemma_pow256_widths();
        assert(v == if u >= 0x8000_0000_0000_0000_0000_0000_0000_0000 {
            u - 0x1_0000_0000_0000_0000_0000_0000_0000_0000
        } else {
            u as int
        }) by (bit_vector)
            requires
                v == u as i128,
        ;
    }
    v
}

/// The 128-bit pattern that stands for the signed number `v`.
pub fn i128_to_pattern(v: i128) -> (u: u128)
    ensures
        u == bit_pattern(v as int, 16),
{
    let u: u128 = v as u128;
    proof {
        lemma_pow256_widths();
        assert(u == if v < 0 {
            v + 0x1_0000_0000_0000_0000_0000_0000_0000_0000
        } else {
            v as int
        }) by (bit_vector)
            requires
                u == v as u128,
        ;
    }
    u
}

} // verus!
