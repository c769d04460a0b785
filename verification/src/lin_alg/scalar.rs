//! Binary64 scalars as bit patterns.
//!
//! Bit 63 is the sign, bits 62..52 the biased exponent, bits 51..0 the
//! fraction. With the sign cleared, patterns of numbers order as their
//! absolute values do, infinity is the largest of them, and every pattern
//! above infinity is a NaN.

use vstd::prelude::*;
use vstd::arithmetic::power2::pow2;

verus! {

/// Positive zero.
pub const ZERO: u64 = 0;

/// The number 1.
pub const ONE: u64 = 0x3FF0_0000_0000_0000;

/// The number 2.
pub const TWO: u64 = 0x4000_0000_0000_0000;

/// The number 4.
pub const FOUR: u64 = 0x4010_0000_0000_0000;

/// Positive infinity.
pub const INFINITY: u64 = 0x7FF0_0000_0000_0000;

/// The sign bit alone, which is also negative zero.
pub const SIGN: u64 = 0x8000_0000_0000_0000;

/// The binary64 nearest to 10^-12: a pivot smaller than this is not used.
pub const TOLERANCE: u64 = 0x3D71_9799_812D_EA11;

/// The pattern of `x` with its sign cleared.
pub open spec fn magnitude_of(x: u64) -> u64 {
    if x >= SIGN {
        (x - SIGN) as u64
    } else {
        x
    }
}

/// The pattern of `x` with its sign flipped.
pub open spec fn negation_of(x: u64) -> u64 {
    if x >= SIGN {
        (x - SIGN) as u64
    } else {
        (x + SIGN) as u64
    }
}

/// `x` is not a number.
pub open spec fn nan(x: u64) -> bool {
    magnitude_of(x) > INFINITY
}

/// `x` is a number greater than zero, infinity included.
pub open spec fn positive(x: u64) -> bool {
    0 < x <= INFINITY
}

/// `x` is smaller in absolute value than the pivot tolerance. A NaN is not.
pub open spec fn below_tolerance(x: u64) -> bool {
    magnitude_of(x) < TOLERANCE
}

/// `a` is larger in absolute value than `b`, a NaN ranking above infinity.
pub open spec fn exceeds(a: u64, b: u64) -> bool {
    magnitude_of(a) > magnitude_of(b)
}

/// `a` and `b` are equal as binary64 values: neither is a NaN, and they are
/// the same pattern or both a zero.
pub open spec fn same_value(a: u64, b: u64) -> bool {
    &&& !nan(a)
    &&& !nan(b)
    &&& (a == b || (magnitude_of(a) == 0 && magnitude_of(b) == 0))
}

/// The pattern in `[1, 2)` whose fraction is the upper 52 bits of `word`.
pub open spec fn unit_seed_of(word: u64) -> u64 {
    (ONE + word / 4096) as u64
}

/// Absolute value.
pub fn magnitude(x: u64) -> (r: u64)
    ensures
        r == magnitude_of(x),
{
    if x >= SIGN {
        x - SIGN
    } else {
        x
    }
}

/// Negation.
pub fn negate(x: u64) -> (r: u64)
    ensures
        r == negation_of(x),
{
    if x >= SIGN {
        x - SIGN
    } else {
        x + SIGN
    }
}

/// Tells whether `x` is a NaN.
pub fn is_nan(x: u64) -> (r: bool)
    ensures
        r == nan(x),
{
    magnitude(x) > INFINITY
}

/// Tells whether `x` is a number greater than zero.
pub fn is_positive(x: u64) -> (r: bool)
    ensures
        r == positive(x),
{
    0 < x && x <= INFINITY
}

/// Tells whether `x` is too small to serve as a pivot.
pub fn is_below_tolerance(x: u64) -> (r: bool)
    ensures
        r == below_tolerance(x),
{
    magnitude(x) < TOLERANCE
}

/// Tells whether `a` is larger in absolute value than `b`.
pub fn is_larger(a: u64, b: u64) -> (r: bool)
    ensures
        r == exceeds(a, b),
{
    magnitude(a) > magnitude(b)
}

/// Equality of values: `0 == -0`, and a NaN equals nothing.
pub fn equals(a: u64, b: u64) -> (r: bool)
    ensures
        r == same_value(a, b),
{
    !is_nan(a) && !is_nan(b) && (a == b || (magnitude(a) == 0 && magnitude(b) == 0))
}

/// Spreads a random word over `[1, 2)`: exponent 0, and the word's upper 52
/// bits as the fraction.
pub fn unit_seed(word: u64) -> (r: u64)
    ensures
        r == unit_seed_of(word),
        ONE <= r < TWO,
{
    ONE + word / 4096
}

/// `x` is a number that is not infinite.
pub open spec fn finite(x: u64) -> bool {
    magnitude_of(x) < INFINITY
}

/// The biased exponent of `x`: bits 62..52.
pub open spec fn exponent_of(x: u64) -> int {
    magnitude_of(x) as int / 0x10_0000_0000_0000
}

/// The fraction of `x`: bits 51..0.
pub open spec fn fraction_of(x: u64) -> int {
    x as int % 0x10_0000_0000_0000
}

/// The value of a finite `x` in units of 2^-1074, the smallest positive
/// binary64: every finite binary64 is a whole number of them. With biased
/// exponent `e` and fraction `f` it is `f` where `e` is 0, and
/// `(2^52 + f) * 2^(e - 1)` elsewhere, negated where the sign is set.
pub open spec fn numerator(x: u64) -> int {
    let e = exponent_of(x);
    let f = fraction_of(x);
    let m = if e == 0 {
        f
    } else {
        (0x10_0000_0000_0000 + f) * pow2((e - 1) as nat)
    };
    if x >= SIGN {
        -m
    } else {
        m
    }
}

/// `r` holds the sum of `a` and `b` exactly: all three are finite, and the
/// value of `r` is the value of `a` plus that of `b`.
pub open spec fn holds_sum(a: u64, b: u64, r: u64) -> bool {
    finite(a) && finite(b) && finite(r) && numerator(r) == numerator(a) + numerator(b)
}

/// `r` holds the difference of `a` and `b` exactly.
pub open spec fn holds_difference(a: u64, b: u64, r: u64) -> bool {
    finite(a) && finite(b) && finite(r) && numerator(r) == numerator(a) - numerator(b)
}

/// `r` holds the product of `a` and `b` exactly.
pub open spec fn holds_product(a: u64, b: u64, r: u64) -> bool {
    finite(a) && finite(b) && finite(r) && numerator(r) * pow2(1074) == numerator(a) * numerator(b)
}

/// `r` holds the quotient of `a` by `b`, which is not a zero, exactly.
pub open spec fn holds_quotient(a: u64, b: u64, r: u64) -> bool {
    finite(a) && finite(b) && finite(r) && !is_zero(b) && numerator(r) * numerator(b) == numerator(a) * pow2(1074)
}

/// `x` is a zero of either sign.
pub open spec fn is_zero(x: u64) -> bool {
    magnitude_of(x) == 0
}

/// A zero is finite, below the tolerance, and its numerator is 0.
pub proof fn lemma_zero(x: u64)
    requires
        is_zero(x),
    ensures
        finite(x),
        below_tolerance(x),
        numerator(x) == 0,
        same_value(x, ZERO),
{
    assert(x == ZERO || x == SIGN);
    assert(numerator(ZERO) == 0);
    assert(numerator(SIGN) == 0);
}

/// Equal values have equal numerators, and a value equal to a finite one is
/// finite.
pub proof fn lemma_same_value_same_numerator(a: u64, b: u64)
    requires
        same_value(a, b),
    ensures
        numerator(a) == numerator(b),
        finite(a) == finite(b),
{
    if a != b {
        assert(a == ZERO || a == SIGN);
        assert(b == ZERO || b == SIGN);
        assert(numerator(ZERO) == 0);
        assert(numerator(SIGN) == 0);
    }
}

} // verus!
