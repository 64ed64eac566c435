//! Sampling keys and weights, both read from the bit patterns of IEEE-754
//! binary64 numbers.
use vstd::prelude::*;

verus! {

/// The sign bit of a binary64 pattern.
pub const SIGN_BIT: u64 = 0x8000_0000_0000_0000;

/// The exponent field of a binary64 pattern.
pub const EXPONENT_BITS: u64 = 0x7FF0_0000_0000_0000;

/// The fraction field of a binary64 pattern.
pub const FRACTION_BITS: u64 = 0x000F_FFFF_FFFF_FFFF;

/// The pattern of `-0.0`.
pub const NEGATIVE_ZERO: u64 = 0x8000_0000_0000_0000;

/// The pattern of `1.0`, the weight of every record when no weight column is set.
pub const UNIT_WEIGHT: u64 = 0x3FF0_0000_0000_0000;

/// The pattern encodes a NaN.
pub open spec fn is_nan_bits(b: u64) -> bool {
    b & EXPONENT_BITS == EXPONENT_BITS && b & FRACTION_BITS != 0
}

/// The pattern encodes `+0.0` or `-0.0`.
pub open spec fn is_zero_bits(b: u64) -> bool {
    b & !SIGN_BIT == 0
}

/// The pattern encodes a strictly positive, finite number.
pub open spec fn is_positive_finite_bits(b: u64) -> bool {
    &&& b & SIGN_BIT == 0
    &&& b & EXPONENT_BITS != EXPONENT_BITS
    &&& !is_zero_bits(b)
}

/// Position of a binary64 value in an unsigned order: numbers that compare
/// lower get lower ranks (see `lemma_rank_follows_order`), both zeros share
/// one rank, and NaN, which no number compares with, gets rank 0 and no
/// number does.
pub open spec fn key_rank(b: u64) -> u64 {
    if is_nan_bits(b) {
        0
    } else if b == NEGATIVE_ZERO {
        SIGN_BIT
    } else if b & SIGN_BIT != 0 {
        !b
    } else {
        b | SIGN_BIT
    }
}

/// Binary64 `a < b`, for the bit patterns of two values that are not NaN:
/// a negative value is below a positive one unless both are zeros, two
/// positive values compare by magnitude, and two negative ones the other way.
pub open spec fn binary64_lt(a: u64, b: u64) -> bool {
    let ma = a & !SIGN_BIT;
    let mb = b & !SIGN_BIT;
    if a & SIGN_BIT != 0 && b & SIGN_BIT != 0 {
        ma > mb
    } else if a & SIGN_BIT != 0 {
        !(ma == 0 && mb == 0)
    } else if b & SIGN_BIT != 0 {
        false
    } else {
        ma < mb
    }
}

/// Ranks follow the binary64 order: of two values that are not NaN, the
/// lower has the lower rank, and neither has rank 0.
pub proof fn lemma_rank_follows_order(a: u64, b: u64)
    requires
        !is_nan_bits(a),
        !is_nan_bits(b),
    ensures
        binary64_lt(a, b) <==> key_rank(a) < key_rank(b),
        key_rank(a) != 0,
{
    assert(((a & 0x7FF0_0000_0000_0000u64 == 0x7FF0_0000_0000_0000u64 && a & 0x000F_FFFF_FFFF_FFFFu64 != 0)
        == false) ==> (if a == 0x8000_0000_0000_0000u64 {
        0x8000_0000_0000_0000u64
    } else if a & 0x8000_0000_0000_0000u64 != 0 {
        !a
    } else {
        a | 0x8000_0000_0000_0000u64
    }) != 0u64) by (bit_vector);
    assert((((a & 0x7FF0_0000_0000_0000u64 == 0x7FF0_0000_0000_0000u64 && a & 0x000F_FFFF_FFFF_FFFFu64 != 0)
        == false) && ((b & 0x7FF0_0000_0000_0000u64 == 0x7FF0_0000_0000_0000u64 && b
        & 0x000F_FFFF_FFFF_FFFFu64 != 0) == false)) ==> ((if a & 0x8000_0000_0000_0000u64 != 0 && b
        & 0x8000_0000_0000_0000u64 != 0 {
        a & !0x8000_0000_0000_0000u64 > b & !0x8000_0000_0000_0000u64
    } else if a & 0x8000_0000_0000_0000u64 != 0 {
        !(a & !0x8000_0000_0000_0000u64 == 0 && b & !0x8000_0000_0000_0000u64 == 0)
    } else if b & 0x8000_0000_0000_0000u64 != 0 {
        false
    } else {
        a & !0x8000_0000_0000_0000u64 < b & !0x8000_0000_0000_0000u64
    }) == ((if a == 0x8000_0000_0000_0000u64 {
        0x8000_0000_0000_0000u64
    } else if a & 0x8000_0000_0000_0000u64 != 0 {
        !a
    } else {
        a | 0x8000_0000_0000_0000u64
    }) < (if b == 0x8000_0000_0000_0000u64 {
        0x8000_0000_0000_0000u64
    } else if b & 0x8000_0000_0000_0000u64 != 0 {
        !b
    } else {
        b | 0x8000_0000_0000_0000u64
    })))) by (bit_vector);
}

/// The key under which a candidate competes for a place in the sample.
#[derive(Clone, Copy, Debug, PartialEq, Eq, Structural)]
pub enum SampleKey {
    /// The key of a record that must be kept; it outranks every other key.
    Maximal,
    /// A computed key, by its rank (see `key_rank`).
    Ranked(u64),
}

/// The key is that of a NaN: rank 0 is given to NaN and to nothing else.
pub open spec fn is_nan_key(k: SampleKey) -> bool {
    k == SampleKey::Ranked(0)
}

/// `a` is strictly worse than `b`. A NaN key is neither worse nor better
/// than any computed key, and worse than `Maximal`.
pub open spec fn key_lt(a: SampleKey, b: SampleKey) -> bool {
    match (a, b) {
        (SampleKey::Ranked(x), SampleKey::Ranked(y)) => x != 0 && x < y,
        (SampleKey::Ranked(_), SampleKey::Maximal) => true,
        _ => false,
    }
}

/// Executable form of `key_lt`.
pub fn key_less(a: SampleKey, b: SampleKey) -> (r: bool)
    ensures
        r == key_lt(a, b),
{
    match (a, b) {
        (SampleKey::Ranked(x), SampleKey::Ranked(y)) => x != 0 && x < y,
        (SampleKey::Ranked(_), SampleKey::Maximal) => true,
        _ => false,
    }
}

/// Neither key is strictly worse than the other: they are equal, or one is
/// a NaN key and the other a computed key.
pub open spec fn key_tie(a: SampleKey, b: SampleKey) -> bool {
    !key_lt(a, b) && !key_lt(b, a)
}

impl SampleKey {
    /// The key for a computed binary64 key value given by its bit pattern.
    pub fn from_bits(b: u64) -> (r: SampleKey)
        ensures
            r == SampleKey::Ranked(key_rank(b)),
    {
        let rank: u64 = if b & EXPONENT_BITS == EXPONENT_BITS && b & FRACTION_BITS != 0 {
            0
        } else if b == NEGATIVE_ZERO {
            SIGN_BIT
        } else if b & SIGN_BIT != 0 {
            !b
        } else {
            b | SIGN_BIT
        };
        SampleKey::Ranked(rank)
    }
}

/// Why a weight cannot be used.
#[derive(Clone, Copy, Debug, PartialEq, Eq, Structural)]
pub enum WeightProblem {
    /// The weight is exactly zero.
    Zero,
    /// The weight is absent, unreadable, negative, infinite or NaN.
    Unusable,
}

/// The verdict on a weight given as an optional bit pattern
/// (`None`: absent or unreadable).
pub open spec fn weight_verdict(w: Option<u64>) -> Option<WeightProblem> {
    match w {
        None => Some(WeightProblem::Unusable),
        Some(b) => if is_zero_bits(b) {
            Some(WeightProblem::Zero)
        } else if is_positive_finite_bits(b) {
            None
        } else {
            Some(WeightProblem::Unusable)
        },
    }
}

/// Checks a weight: `None` when it is positive and finite, else what is wrong.
pub fn check_weight(w: Option<u64>) -> (r: Option<WeightProblem>)
    ensures
        r == weight_verdict(w),
{
    match w {
        None => Some(WeightProblem::Unusable),
        Some(b) => {
            if b & !SIGN_BIT == 0 {
                Some(WeightProblem::Zero)
            } else if b & SIGN_BIT == 0 && b & EXPONENT_BITS != EXPONENT_BITS {
                None
            } else {
                Some(WeightProblem::Unusable)
            }
        },
    }
}

} // verus!
