//! The order of double-precision numbers, read off their bit patterns.

use crate::ieee::bits::{
    abs,
    doublings,
    exponent,
    HIDDEN_BIT,
    INFINITY,
    is_nan,
    is_negative,
    is_nonzero_finite,
    lemma_doublings,
    lemma_significand_bounds,
    magnitude,
    SIGN_BIT,
    significand,
};
use vstd::arithmetic::power2::{lemma_pow2_pos, pow2};
use vstd::prelude::*;

verus! {

/// The place of a number on the number line, as an integer that grows with
/// the number: both zeros are at 0, negative numbers below, and infinity
/// beyond every finite number. Not meant for a not-a-number.
pub open spec fn rank(x: u64) -> int {
    if x >= SIGN_BIT {
        -(magnitude(x) as int)
    } else {
        x as int
    }
}

/// Whether `a` is less than `b`. Nothing is less than a not-a-number, and a
/// not-a-number is less than nothing.
pub open spec fn below(a: u64, b: u64) -> bool {
    !is_nan(a) && !is_nan(b) && rank(a) < rank(b)
}

/// Whether `a` is less than or equal to `b`. Both zeros are equal; a
/// not-a-number is neither less than nor equal to anything.
pub open spec fn at_most(a: u64, b: u64) -> bool {
    !is_nan(a) && !is_nan(b) && rank(a) <= rank(b)
}

/// The smaller of two numbers. If one is not a number, the other; if
/// neither is less than the other, the first.
pub open spec fn smaller(a: u64, b: u64) -> u64 {
    if is_nan(a) {
        b
    } else if is_nan(b) {
        a
    } else if below(b, a) {
        b
    } else {
        a
    }
}

/// The larger of two numbers. If one is not a number, the other; if neither
/// is less than the other, the first.
pub open spec fn larger(a: u64, b: u64) -> u64 {
    if is_nan(a) {
        b
    } else if is_nan(b) {
        a
    } else if below(a, b) {
        b
    } else {
        a
    }
}

/// Returns whether `a` is less than `b`.
pub fn lt(a: u64, b: u64) -> (less: bool)
    ensures
        less == below(a, b),
{
    let mag_a = abs(a);
    let mag_b = abs(b);
    if mag_a > INFINITY || mag_b > INFINITY {
        false
    } else if a >= SIGN_BIT {
        if b >= SIGN_BIT {
            mag_b < mag_a
        } else {
            mag_a != 0 || mag_b != 0
        }
    } else {
        b < SIGN_BIT && mag_a < mag_b
    }
}

/// Returns whether `a` is less than or equal to `b`.
pub fn le(a: u64, b: u64) -> (not_more: bool)
    ensures
        not_more == at_most(a, b),
{
    if abs(a) > INFINITY || abs(b) > INFINITY {
        false
    } else {
        !lt(b, a)
    }
}

/// Returns the smaller of two numbers.
pub fn min(a: u64, b: u64) -> (least: u64)
    ensures
        least == smaller(a, b),
{
    if abs(a) > INFINITY {
        b
    } else if abs(b) > INFINITY {
        a
    } else if lt(b, a) {
        b
    } else {
        a
    }
}

/// Returns the larger of two numbers.
pub fn max(a: u64, b: u64) -> (greatest: u64)
    ensures
        greatest == larger(a, b),
{
    if abs(a) > INFINITY {
        b
    } else if abs(b) > INFINITY {
        a
    } else if lt(a, b) {
        b
    } else {
        a
    }
}

/// The smaller of two integers needs at least as many doublings.
proof fn lemma_doublings_antitone(x: nat, y: nat)
    requires
        0 < x <= y < HIDDEN_BIT,
    ensures
        doublings(x) >= doublings(y),
    decreases 2 * HIDDEN_BIT - x,
{
    assert(doublings(x) == 1 + doublings(2 * x));
    assert(doublings(y) == 1 + doublings(2 * y));
    if 2 * y < HIDDEN_BIT {
        lemma_doublings_antitone(2 * x, 2 * y);
    } else {
        assert(doublings(2 * y) == 0);
    }
}

/// Among positive numbers, [`rank`] orders as the values do: the number
/// with the smaller exponent is the smaller, and of two numbers with the same
/// exponent the one with the smaller significand.
pub proof fn lemma_rank_orders_values(a: u64, b: u64)
    requires
        is_nonzero_finite(a),
        is_nonzero_finite(b),
        !is_negative(a),
        !is_negative(b),
    ensures
        rank(a) < rank(b) <==> exponent(a) < exponent(b) || (exponent(a) == exponent(b)
            && significand(a) < significand(b)),
{
    lemma_significand_bounds(a);
    lemma_significand_bounds(b);
    if a < HIDDEN_BIT && b < HIDDEN_BIT {
        let k = doublings(a as nat);
        if a <= b {
            lemma_doublings_antitone(a as nat, b as nat);
        }
        if b <= a {
            lemma_doublings_antitone(b as nat, a as nat);
        }
        if k == doublings(b as nat) {
            lemma_pow2_pos(k);
            assert(a < b <==> a * pow2(k) < b * pow2(k)) by (nonlinear_arith)
                requires
                    pow2(k) > 0,
            ;
        }
    } else if a < HIDDEN_BIT {
        lemma_doublings(a as nat);
    } else if b < HIDDEN_BIT {
        lemma_doublings(b as nat);
    }
}

} // verus!
