//! Scalars reach the decision logic as IEEE-754 binary64 bit patterns.
//!
//! A bit pattern is mapped to an order key: an unsigned integer whose order is
//! the numeric order of the values. Negative values have their sign bit set and
//! grow in magnitude as their pattern grows, so their keys are the patterns
//! complemented; non-negative values keep their pattern above the sign bit.
//! Negative zero takes the key of positive zero, so equal numbers get equal
//! keys. A NaN with a clear sign bit ranks above every number, and one with the
//! sign bit set ranks below every number.
use vstd::prelude::*;

verus! {

/// The sign bit of a binary64 pattern.
pub const SIGN_BIT: u64 = 0x8000_0000_0000_0000;

/// The pattern of `0.0`.
pub const ZERO_BITS: u64 = 0;

/// The pattern of `1.0`.
pub const ONE_BITS: u64 = 0x3FF0_0000_0000_0000;

/// The pattern of the machine epsilon of binary64, `2^-52`.
pub const EPSILON_BITS: u64 = 0x3CB0_0000_0000_0000;

/// The pattern of `-2^-52`.
pub const NEG_EPSILON_BITS: u64 = 0xBCB0_0000_0000_0000;

/// The pattern of `0.0001`, the start of the interval in which bounces look for hits.
pub const SELF_HIT_BITS: u64 = 0x3F1A_36E2_EB1C_432D;

/// The pattern of the largest finite binary64 value.
pub const MAX_BITS: u64 = 0x7FEF_FFFF_FFFF_FFFF;

/// The order key of a bit pattern.
pub open spec fn key(bits: u64) -> u64 {
    if bits == SIGN_BIT {
        SIGN_BIT
    } else if bits > SIGN_BIT {
        (u64::MAX - bits) as u64
    } else {
        (bits + SIGN_BIT) as u64
    }
}

/// `a < b` on the values that two patterns stand for.
pub open spec fn lt(a: u64, b: u64) -> bool {
    key(a) < key(b)
}

/// `a <= b` on the values that two patterns stand for.
pub open spec fn le(a: u64, b: u64) -> bool {
    key(a) <= key(b)
}

pub fn order_key(bits: u64) -> (r: u64)
    ensures
        r == key(bits),
{
    if bits == SIGN_BIT {
        SIGN_BIT
    } else if bits > SIGN_BIT {
        u64::MAX - bits
    } else {
        bits + SIGN_BIT
    }
}

/// Strict comparison of the values behind two patterns.
pub fn less(a: u64, b: u64) -> (r: bool)
    ensures
        r == lt(a, b),
{
    order_key(a) < order_key(b)
}

/// Every negative pattern orders below every non-negative one.
pub proof fn lemma_negative_below_non_negative(n: u64, p: u64)
    requires
        n > SIGN_BIT,
        p < SIGN_BIT,
    ensures
        lt(n, p),
{
}

/// Two patterns that differ from each other, other than the two zeros, have distinct keys.
pub proof fn lemma_key_distinguishes(a: u64, b: u64)
    requires
        a != b,
        !(a == ZERO_BITS && b == SIGN_BIT),
        !(a == SIGN_BIT && b == ZERO_BITS),
    ensures
        key(a) != key(b),
{
}

/// Among non-negative patterns the key keeps the order of the patterns; among
/// negative ones it reverses it.
pub proof fn lemma_key_monotone(a: u64, b: u64)
    requires
        a < b,
    ensures
        b < SIGN_BIT ==> key(a) < key(b),
        a > SIGN_BIT ==> key(b) < key(a),
{
}

} // verus!
