//! The double-precision format: the fields of a bit pattern, the classes
//! of numbers, and a number as a significand times a power of two.

use vstd::arithmetic::power2::{lemma2_to64, lemma2_to64_rest, lemma_pow2_unfold, pow2};
use vstd::prelude::*;

verus! {

/// The sign bit.
pub const SIGN_BIT: u64 = 0x8000_0000_0000_0000;

/// Positive infinity; also the exponent field with all bits set.
pub const INFINITY: u64 = 0x7ff0_0000_0000_0000;

/// The not-a-number that operations without a numeric result give.
pub const NAN: u64 = 0x7ff8_0000_0000_0000;

/// Two to the power 52: the leading bit of a normal number's significand,
/// which the bit pattern leaves out.
pub const HIDDEN_BIT: u64 = 0x0010_0000_0000_0000;

/// The number 0.
pub const ZERO: u64 = 0;

/// The number 1.
pub const ONE: u64 = 0x3ff0_0000_0000_0000;

/// Whether the sign bit is set.
pub open spec fn is_negative(x: u64) -> bool {
    x >= SIGN_BIT
}

/// The bits without the sign bit.
pub open spec fn magnitude(x: u64) -> u64 {
    if x >= SIGN_BIT {
        (x - SIGN_BIT) as u64
    } else {
        x
    }
}

/// The sign bit alone.
pub open spec fn sign_of(x: u64) -> u64 {
    if x >= SIGN_BIT {
        SIGN_BIT
    } else {
        0
    }
}

/// The number with the opposite sign.
pub open spec fn negated(x: u64) -> u64 {
    if x >= SIGN_BIT {
        (x - SIGN_BIT) as u64
    } else {
        (x + SIGN_BIT) as u64
    }
}

/// Whether `x` is not a number.
pub open spec fn is_nan(x: u64) -> bool {
    magnitude(x) > INFINITY
}

/// Whether `x` is positive or negative infinity.
pub open spec fn is_infinite(x: u64) -> bool {
    magnitude(x) == INFINITY
}

/// Whether `x` is positive or negative zero.
pub open spec fn is_zero(x: u64) -> bool {
    magnitude(x) == 0
}

/// Whether `x` is a number other than zero: normal or subnormal.
pub open spec fn is_nonzero_finite(x: u64) -> bool {
    0 < magnitude(x) < INFINITY
}

/// The class of a bit pattern.
#[derive(Clone, Copy, Debug, PartialEq, Eq, Structural)]
pub enum Class {
    /// Not a number.
    Nan,
    /// Positive or negative infinity.
    Infinite,
    /// Positive or negative zero.
    Zero,
    /// Any other number.
    Finite,
}

/// Returns the bits without the sign bit.
pub fn abs(x: u64) -> (mag: u64)
    ensures
        mag == magnitude(x),
        mag < SIGN_BIT,
{
    if x >= SIGN_BIT {
        x - SIGN_BIT
    } else {
        x
    }
}

/// Returns the class of `x`.
pub fn classify(x: u64) -> (class: Class)
    ensures
        class is Nan <==> is_nan(x),
        class is Infinite <==> is_infinite(x),
        class is Zero <==> is_zero(x),
        class is Finite <==> is_nonzero_finite(x),
{
    let mag = abs(x);
    if mag > INFINITY {
        Class::Nan
    } else if mag == INFINITY {
        Class::Infinite
    } else if mag == 0 {
        Class::Zero
    } else {
        Class::Finite
    }
}

/// Returns the number with the opposite sign.
pub fn negate(x: u64) -> (result: u64)
    ensures
        result == negated(x),
{
    if x >= SIGN_BIT {
        x - SIGN_BIT
    } else {
        x + SIGN_BIT
    }
}

/// How many times `m` has to be doubled to reach two to the power 52.
pub open spec fn doublings(m: nat) -> nat
    decreases 2 * HIDDEN_BIT - m,
{
    if m == 0 || m >= HIDDEN_BIT {
        0
    } else {
        1 + doublings(2 * m)
    }
}

/// The significand of a finite number, scaled to an integer of exactly 53
/// bits: the number is `significand(x)` times two to the power
/// `exponent(x)`, negated if the sign bit is set. A subnormal number is
/// brought to this form too. Zero has the significand 0.
pub open spec fn significand(x: u64) -> nat {
    let mag = magnitude(x);
    if mag >= HIDDEN_BIT {
        (HIDDEN_BIT + mag % HIDDEN_BIT) as nat
    } else {
        (mag * pow2(doublings(mag as nat))) as nat
    }
}

/// The exponent that goes with [`significand`].
pub open spec fn exponent(x: u64) -> int {
    let mag = magnitude(x);
    if mag >= HIDDEN_BIT {
        mag / HIDDEN_BIT - 1075
    } else {
        -1074 - doublings(mag as nat)
    }
}

/// Doubling `m` as often as [`doublings`] says brings it to 53 bits, and
/// takes at most 52 doublings.
pub proof fn lemma_doublings(m: nat)
    requires
        0 < m < HIDDEN_BIT,
    ensures
        HIDDEN_BIT <= m * pow2(doublings(m)) < 2 * HIDDEN_BIT,
        1 <= doublings(m) <= 52,
        m * pow2(doublings(m)) == 2 * m * pow2((doublings(m) - 1) as nat),
    decreases 2 * HIDDEN_BIT - m,
{
    let k = doublings(m);
    let rest = doublings(2 * m);
    assert(k == 1 + rest);
    lemma_pow2_unfold(k);
    assert(pow2(k) == 2 * pow2(rest));
    assert(m * pow2(k) == 2 * m * pow2(rest)) by (nonlinear_arith)
        requires
            pow2(k) == 2 * pow2(rest),
    ;
    lemma2_to64();
    lemma2_to64_rest();
    if 2 * m >= HIDDEN_BIT {
        assert(rest == 0);
        assert(2 * m * pow2(rest) == 2 * m) by (nonlinear_arith)
            requires
                pow2(rest) == 1,
        ;
    } else {
        lemma_doublings(2 * m);
        if rest == 52 {
            assert(2 * m * pow2(52) >= 2 * pow2(52)) by (nonlinear_arith)
                requires
                    m >= 1,
            ;
        }
    }
}

/// The significand of a nonzero finite number has exactly 53 bits.
pub proof fn lemma_significand_bounds(x: u64)
    requires
        is_nonzero_finite(x),
    ensures
        HIDDEN_BIT <= significand(x) < 2 * HIDDEN_BIT,
        -1126 <= exponent(x) <= 971,
{
    let mag = magnitude(x);
    if mag < HIDDEN_BIT {
        lemma_doublings(mag as nat);
    }
}

/// The magnitude bits of a normal number are its exponent field and its
/// significand, put together.
pub(crate) proof fn lemma_magnitude_of_normal(x: u64)
    requires
        is_nonzero_finite(x),
        magnitude(x) >= HIDDEN_BIT,
    ensures
        magnitude(x) == (exponent(x) + 1074) * HIDDEN_BIT + significand(x),
{
}

/// Returns the significand and the exponent of a nonzero finite number.
pub fn unpack(x: u64) -> (parts: (u64, i64))
    requires
        is_nonzero_finite(x),
    ensures
        parts.0 == significand(x),
        parts.1 == exponent(x),
        HIDDEN_BIT <= parts.0 < 2 * HIDDEN_BIT,
        -1126 <= parts.1 <= 971,
{
    let mag = abs(x);
    proof {
        lemma_significand_bounds(x);
    }
    if mag >= HIDDEN_BIT {
        (HIDDEN_BIT + mag % HIDDEN_BIT, (mag / HIDDEN_BIT) as i64 - 1075)
    } else {
        let mut m: u64 = mag;
        let mut k: i64 = 0;
        proof {
            lemma2_to64();
            assert(mag * pow2(0) == mag);
        }
        while m < HIDDEN_BIT
            invariant
                0 < m < 2 * HIDDEN_BIT,
                0 <= k,
                k + doublings(m as nat) == doublings(mag as nat),
                m == mag * pow2(k as nat),
                0 < mag < HIDDEN_BIT,
                doublings(mag as nat) <= 52,
            decreases 2 * HIDDEN_BIT - m,
        {
            proof {
                lemma_pow2_unfold((k + 1) as nat);
                assert(mag * (2 * pow2(k as nat)) == 2 * (mag * pow2(k as nat)))
                    by (nonlinear_arith);
            }
            m = 2 * m;
            k = k + 1;
        }
        (m, -1074 - k)
    }
}

/// The fraction that `x` splits into: the number of magnitude at least one
/// half and less than one which, times two to the power
/// [`binary_exponent`], is `x`. It has the sign and the significand of `x`.
/// Zero, infinity and a not-a-number are their own fraction.
pub open spec fn binary_fraction(x: u64) -> u64 {
    if is_nonzero_finite(x) {
        (sign_of(x) + 0x3fe0_0000_0000_0000 + (significand(x) - HIDDEN_BIT)) as u64
    } else {
        x
    }
}

/// The power of two that goes with [`binary_fraction`]; 0 for zero,
/// infinity and a not-a-number.
pub open spec fn binary_exponent(x: u64) -> int {
    if is_nonzero_finite(x) {
        exponent(x) + 53
    } else {
        0
    }
}

/// Splits a number into a fraction of magnitude in [1/2, 1) and a power of
/// two.
pub fn frexp(x: u64) -> (parts: (u64, i32))
    ensures
        parts.0 == binary_fraction(x),
        parts.1 == binary_exponent(x),
        -1073 <= parts.1 <= 1024,
{
    let class = classify(x);
    if class == Class::Finite {
        let sign = if x >= SIGN_BIT {
            SIGN_BIT
        } else {
            0
        };
        let (m, e) = unpack(x);
        (sign + 0x3fe0_0000_0000_0000 + (m - HIDDEN_BIT), (e + 53) as i32)
    } else {
        (x, 0)
    }
}

/// The fraction of a nonzero finite number is that number with its exponent
/// replaced: same sign, same significand, exponent -53, so that its magnitude
/// is the significand over two to the power 53.
pub proof fn lemma_binary_fraction(x: u64)
    requires
        is_nonzero_finite(x),
    ensures
        is_nonzero_finite(binary_fraction(x)),
        is_negative(binary_fraction(x)) == is_negative(x),
        significand(binary_fraction(x)) == significand(x),
        exponent(binary_fraction(x)) == -53,
        exponent(x) == exponent(binary_fraction(x)) + binary_exponent(x),
{
    lemma_significand_bounds(x);
}

} // verus!
