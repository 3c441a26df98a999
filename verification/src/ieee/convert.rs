//! From double precision to a byte and to single precision.

use crate::ieee::bits::{
    Class,
    classify,
    doublings,
    exponent,
    INFINITY,
    is_infinite,
    is_nan,
    is_negative,
    is_zero,
    SIGN_BIT,
    significand,
    unpack,
};
use crate::ieee::round::{
    lemma_pow2_grows,
    lemma_round_scaled_vanishes,
    pow2_u128,
    round_div,
    round_scaled,
};
use vstd::arithmetic::power2::{lemma2_to64, lemma2_to64_rest, lemma_pow2_pos, pow2};
use vstd::prelude::*;

verus! {

/// The whole part of a number that is finite and not negative.
pub open spec fn integer_part(x: u64) -> nat {
    let m = significand(x);
    let e = exponent(x);
    if e >= 0 {
        m * pow2(e as nat)
    } else {
        m / pow2((-e) as nat)
    }
}

/// The number as a byte: its whole part where that is between 0 and 255,
/// 0 for what is less (a negative number, negative infinity), 255 for what is
/// more, and 0 for a not-a-number.
pub open spec fn truncated_u8(x: u64) -> u8 {
    if is_nan(x) || is_negative(x) {
        0
    } else if is_infinite(x) || integer_part(x) >= 255 {
        255
    } else {
        integer_part(x) as u8
    }
}

/// A zero of either sign has the byte 0.
pub proof fn lemma_zero_truncates(x: u64)
    requires
        is_zero(x),
    ensures
        truncated_u8(x) == 0,
{
    if !is_negative(x) {
        lemma2_to64();
        assert(significand(x) == 0) by (nonlinear_arith)
            requires
                significand(x) == 0 * pow2(doublings(0)),
        ;
        lemma_pow2_pos(1074);
        vstd::arithmetic::div_mod::lemma_basic_div(0, pow2(1074) as int);
    }
}

/// Returns the number as a byte, fraction dropped, held to the range 0 to
/// 255.
#[verifier::rlimit(50)]
pub fn to_u8(x: u64) -> (byte: u8)
    ensures
        byte == truncated_u8(x),
{
    if x >= SIGN_BIT || x > INFINITY {
        0
    } else if x == INFINITY {
        255
    } else if x == 0 {
        proof {
            lemma2_to64();
            assert(significand(x) == 0) by (nonlinear_arith)
                requires
                    significand(x) == 0 * pow2(doublings(0)),
            ;
            lemma_pow2_pos(1074);
            vstd::arithmetic::div_mod::lemma_basic_div(0, pow2(1074) as int);
        }
        0
    } else {
        let (m, e) = unpack(x);
        if e >= -44 {
            proof {
                lemma2_to64();
                lemma2_to64_rest();
                if e >= 0 {
                    lemma_pow2_pos(e as nat);
                    assert(m * pow2(e as nat) >= m) by (nonlinear_arith)
                        requires
                            pow2(e as nat) > 0,
                            m >= 0,
                    ;
                } else {
                    let d = pow2((-e) as nat);
                    lemma_pow2_grows((-e) as nat, 44);
                    assert(d * 256 <= m);
                    vstd::arithmetic::div_mod::lemma_div_is_ordered((d * 256) as int, m as int, d as int);
                    vstd::arithmetic::div_mod::lemma_div_multiples_vanish(256, d as int);
                    assert(d * 256 == 256 * d) by (nonlinear_arith);
                }
            }
            255
        } else if e < -52 {
            proof {
                lemma2_to64_rest();
                lemma_pow2_grows(53, (-e) as nat);
                vstd::arithmetic::div_mod::lemma_basic_div(m as int, pow2((-e) as nat) as int);
            }
            0
        } else {
            let unit = pow2_u128((-e) as u128);
            proof {
                lemma2_to64();
                lemma2_to64_rest();
                lemma_pow2_grows(45, (-e) as nat);
                vstd::arithmetic::div_mod::lemma_multiply_divide_lt(m as int, unit as int, 256);
            }
            ((m as u128) / unit) as u8
        }
    }
}

/// Single precision: the sign bit.
pub const SIGN_BIT_32: u32 = 0x8000_0000;

/// Single precision: positive infinity.
pub const INFINITY_32: u32 = 0x7f80_0000;

/// Single precision: the not-a-number that narrowing a not-a-number gives.
pub const NAN_32: u32 = 0x7fc0_0000;

/// The magnitude bits of the single-precision number nearest to `num /
/// den` times two to the power `e`, ties going to the even significand.
///
/// As [`crate::ieee::rounded64`], with 24 significant bits, a last place no lower than
/// -149 and 23 fraction bits.
pub open spec fn rounded32(num: nat, den: nat, e: int, width: int) -> u32 {
    let last = if e + width - 24 >= -149 {
        e + width - 24
    } else {
        -149
    };
    let raw = (last + 149) * 0x80_0000 + round_scaled(num, den, last - e);
    if raw >= INFINITY_32 {
        INFINITY_32
    } else {
        raw as u32
    }
}

/// The single-precision number nearest to `x`, as its bit pattern: what a
/// cast from double to single precision gives. Zeros and infinities keep
/// their sign; a number too large for single precision becomes infinity.
pub open spec fn narrowed(x: u64) -> u32 {
    let sign: u32 = if is_negative(x) {
        SIGN_BIT_32
    } else {
        0
    };
    if is_nan(x) {
        NAN_32
    } else if is_infinite(x) {
        (sign + INFINITY_32) as u32
    } else if is_zero(x) {
        sign
    } else {
        (sign + rounded32(significand(x), 1, exponent(x), 53)) as u32
    }
}

/// Returns the bit pattern of the single-precision number nearest to `x`.
#[verifier::rlimit(50)]
pub fn to_binary32(x: u64) -> (bits: u32)
    ensures
        bits == narrowed(x),
{
    let sign: u32 = if x >= SIGN_BIT {
        SIGN_BIT_32
    } else {
        0
    };
    let class = classify(x);
    if class == Class::Nan {
        NAN_32
    } else if class == Class::Infinite {
        sign + INFINITY_32
    } else if class == Class::Zero {
        sign
    } else {
        let (m, e) = unpack(x);
        let last: i64 = if e + 29 >= -149 {
            e + 29
        } else {
            -149
        };
        let shift: i64 = last - e;
        let sig: u128 = if shift >= 55 {
            proof {
                lemma_pow2_grows(55, shift as nat);
                lemma2_to64_rest();
                lemma_round_scaled_vanishes(m as nat, 1, shift as nat);
            }
            0
        } else {
            let unit = pow2_u128(shift as u128);
            proof {
                lemma_pow2_grows(29, shift as nat);
                lemma_pow2_grows(shift as nat, 54);
                lemma2_to64();
                lemma2_to64_rest();
                vstd::arithmetic::div_mod::lemma_multiply_divide_lt(
                    m as int,
                    unit as int,
                    0x100_0000,
                );
            }
            round_div(m as u128, unit)
        };
        let raw: u128 = ((last + 149) as u128) * 0x80_0000 + sig;
        if raw >= INFINITY_32 as u128 {
            sign + INFINITY_32
        } else {
            sign + raw as u32
        }
    }
}

} // verus!
