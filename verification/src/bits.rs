//! Two's-complement arithmetic helpers.
//!
//! The virtual machine works on signed 64-bit integers with wraparound
//! semantics, and the serializer works on the 64-bit pattern of those
//! integers.  The spec functions here describe both sides arithmetically —
//! reduction modulo 2^64 — so that contracts and proofs stay in linear
//! integer arithmetic; a few lemmas relate them to Rust's truncating casts.

use vstd::prelude::*;

verus! {

/// 2^64, the number of distinct 64-bit values.
pub open spec fn range64() -> int {
    0x1_0000_0000_0000_0000
}

/// Reduces `n` modulo 2^64 into the signed 64-bit range.  This is the value
/// an `i64` operation with wraparound produces; one fold suffices for every
/// result the VM computes (sums, doublings and negations of `i64` values).
pub open spec fn wrap_i64(n: int) -> i64
    recommends
        -range64() <= n < range64(),
{
    if n > i64::MAX {
        (n - range64()) as i64
    } else if n < i64::MIN {
        (n + range64()) as i64
    } else {
        n as i64
    }
}

/// The signed 64-bit value whose two's-complement bit pattern is `m`.
pub open spec fn i64_of_bits(m: u64) -> i64 {
    if m <= i64::MAX {
        m as i64
    } else {
        (m - range64()) as i64
    }
}

/// The two's-complement bit pattern of `x`, as an unsigned 64-bit value.
/// Inverse of [`i64_of_bits`].
pub open spec fn bits_of_i64(x: i64) -> u64 {
    if x >= 0 {
        x as u64
    } else {
        (x + range64()) as u64
    }
}

/// The low byte of the bit pattern of `x`: `x` reduced modulo 256.
pub open spec fn low_byte(x: i64) -> u8 {
    (bits_of_i64(x) % 256) as u8
}

/// The two conversions between a signed value and its bit pattern are
/// mutually inverse.
pub proof fn lemma_bits_roundtrip(x: i64, m: u64)
    ensures
        i64_of_bits(bits_of_i64(x)) == x,
        bits_of_i64(i64_of_bits(m)) == m,
{
}

/// Rust's truncating cast from `i64` to `u64` reinterprets the bit pattern:
/// it returns [`bits_of_i64`].
pub proof fn lemma_cast_i64_to_u64(x: i64)
    ensures
        x as u64 == bits_of_i64(x),
{
    assert(x as u64 == if x >= 0 {
        x as u64
    } else {
        (x + 0x1_0000_0000_0000_0000) as u64
    }) by (bit_vector);
}

/// Rust's truncating cast from `i64` to `u8` keeps the low byte of the bit
/// pattern: it returns [`low_byte`].
pub proof fn lemma_cast_i64_to_u8(x: i64)
    ensures
        x as u8 == low_byte(x),
{
    assert(x as u8 == ((if x >= 0 {
        x as u64
    } else {
        (x + 0x1_0000_0000_0000_0000) as u64
    }) % 256) as u8) by (bit_vector);
}

/// Doubling a value whose bit pattern is below 2^63 doubles the bit pattern.
/// This is how the serializer's `Ishl` steps move a set bit into position.
pub proof fn lemma_double_bits(m: u64)
    requires
        m < 0x8000_0000_0000_0000,
    ensures
        wrap_i64(2 * i64_of_bits(m)) == i64_of_bits((2 * m) as u64),
{
}

/// Adding two values whose bit patterns sum below 2^64 adds the bit
/// patterns.  This is how the serializer's `Iadd` steps merge disjoint bits
/// into the accumulator.
pub proof fn lemma_add_bits(a: u64, b: u64)
    requires
        a + b < 0x1_0000_0000_0000_0000,
    ensures
        wrap_i64(i64_of_bits(a) + i64_of_bits(b)) == i64_of_bits((a + b) as u64),
{
}

} // verus!
