//! Sums, differences, products and quotients of double-precision numbers,
//! each the exact result rounded to nearest, ties to even.

use crate::ieee::bits::{
    Class,
    classify,
    exponent,
    HIDDEN_BIT,
    INFINITY,
    is_infinite,
    is_nan,
    is_negative,
    is_nonzero_finite,
    is_zero,
    lemma_magnitude_of_normal,
    lemma_significand_bounds,
    magnitude,
    NAN,
    negate,
    negated,
    SIGN_BIT,
    significand,
    unpack,
};
use crate::ieee::round::{
    bit_length,
    lemma_bit_length_unique,
    lemma_pow2_grows,
    lemma_pow2_wide,
    lemma_round_scaled_vanishes,
    pack64,
    pow2_u128,
    round_div,
    round_half_even,
    round_integer,
    rounded64,
    rounded_signed,
};
use vstd::arithmetic::power2::{
    lemma2_to64,
    lemma2_to64_rest,
    lemma_pow2_adds,
    lemma_pow2_pos,
    lemma_pow2_unfold,
    pow2,
};
use vstd::prelude::*;

verus! {

/// The sign bit of a product or quotient: set if exactly one operand has it.
pub open spec fn sign_of_product(a: u64, b: u64) -> u64 {
    if is_negative(a) != is_negative(b) {
        SIGN_BIT
    } else {
        0
    }
}

/// The product of two numbers, rounded to nearest, ties to even.
///
/// Not-a-number times anything, and infinity times zero, are not a number;
/// infinity times anything else is infinity; zero times a finite number is
/// zero. The sign is that of the exact product.
pub open spec fn product(a: u64, b: u64) -> u64 {
    let sign = sign_of_product(a, b);
    if is_nan(a) || is_nan(b) {
        NAN
    } else if is_infinite(a) || is_infinite(b) {
        if is_zero(a) || is_zero(b) {
            NAN
        } else {
            (sign + INFINITY) as u64
        }
    } else if is_zero(a) || is_zero(b) {
        sign
    } else {
        let p = significand(a) * significand(b);
        let width: int = if p >= pow2(105) {
            106
        } else {
            105
        };
        (sign + rounded64(p, 1, exponent(a) + exponent(b), width)) as u64
    }
}

/// The product of two 53-bit significands has 105 or 106 bits, as
/// [`product`] tells [`rounded64`].
pub proof fn lemma_product_width(a: u64, b: u64)
    requires
        is_nonzero_finite(a),
        is_nonzero_finite(b),
    ensures
        ({
            let p = significand(a) * significand(b);
            &&& pow2(104) <= p < pow2(106)
            &&& bit_length(p) == (if p >= pow2(105) {
                106nat
            } else {
                105nat
            })
        }),
{
    lemma_significand_bounds(a);
    lemma_significand_bounds(b);
    lemma_pow2_wide();
    let ma = significand(a);
    let mb = significand(b);
    let p = ma * mb;
    assert(0x100_0000_0000_0000_0000_0000_0000 <= p < 0x400_0000_0000_0000_0000_0000_0000)
        by (nonlinear_arith)
        requires
            p == ma * mb,
            0x10_0000_0000_0000 <= ma < 0x20_0000_0000_0000,
            0x10_0000_0000_0000 <= mb < 0x20_0000_0000_0000,
    ;
    if p >= pow2(105) {
        lemma_bit_length_unique(p, 106);
    } else {
        lemma_bit_length_unique(p, 105);
    }
}

/// Returns the product of two numbers, rounded to nearest, ties to even.
#[verifier::rlimit(50)]
pub fn multiply(a: u64, b: u64) -> (result: u64)
    ensures
        result == product(a, b),
{
    let sign = if (a >= SIGN_BIT) != (b >= SIGN_BIT) {
        SIGN_BIT
    } else {
        0
    };
    let class_a = classify(a);
    let class_b = classify(b);
    if class_a == Class::Nan || class_b == Class::Nan {
        NAN
    } else if class_a == Class::Infinite || class_b == Class::Infinite {
        if class_a == Class::Zero || class_b == Class::Zero {
            NAN
        } else {
            sign + INFINITY
        }
    } else if class_a == Class::Zero || class_b == Class::Zero {
        sign
    } else {
        let (ma, ea) = unpack(a);
        let (mb, eb) = unpack(b);
        proof {
            lemma_pow2_wide();
            assert(0x100_0000_0000_0000_0000_0000_0000 <= ma * mb
                < 0x400_0000_0000_0000_0000_0000_0000) by (nonlinear_arith)
                requires
                    0x10_0000_0000_0000 <= ma < 0x20_0000_0000_0000,
                    0x10_0000_0000_0000 <= mb < 0x20_0000_0000_0000,
            ;
        }
        let p: u128 = (ma as u128) * (mb as u128);
        let e: i64 = ea + eb;
        let width: i64 = if p >= 0x200_0000_0000_0000_0000_0000_0000 {
            106
        } else {
            105
        };
        let last: i64 = if e + width - 53 >= -1074 {
            e + width - 53
        } else {
            -1074
        };
        let shift: i64 = last - e;
        let sig: u128 = if shift >= 108 {
            proof {
                lemma_pow2_grows(108, shift as nat);
                lemma_round_scaled_vanishes(p as nat, 1, shift as nat);
            }
            0
        } else {
            let unit = pow2_u128(shift as u128);
            proof {
                lemma_pow2_grows(shift as nat, 107);
                lemma_pow2_grows(52, shift as nat);
                lemma2_to64_rest();
                vstd::arithmetic::div_mod::lemma_multiply_divide_lt(
                    p as int,
                    unit as int,
                    0x40_0000_0000_0000,
                );
            }
            round_div(p, unit)
        };
        sign + pack64(sig, last)
    }
}

/// The quotient of two numbers, rounded to nearest, ties to even.
///
/// A quotient with a not-a-number in it, infinity by infinity and zero by
/// zero are not a number; infinity by a finite number and a nonzero number
/// by zero are infinity; a finite number by infinity and zero by a nonzero
/// number are zero. The sign is that of the exact quotient.
pub open spec fn quotient(a: u64, b: u64) -> u64 {
    let sign = sign_of_product(a, b);
    if is_nan(a) || is_nan(b) {
        NAN
    } else if is_infinite(a) {
        if is_infinite(b) {
            NAN
        } else {
            (sign + INFINITY) as u64
        }
    } else if is_infinite(b) {
        sign
    } else if is_zero(b) {
        if is_zero(a) {
            NAN
        } else {
            (sign + INFINITY) as u64
        }
    } else if is_zero(a) {
        sign
    } else {
        let width: int = if significand(a) >= significand(b) {
            1
        } else {
            0
        };
        (sign + rounded64(significand(a), significand(b), exponent(a) - exponent(b), width)) as u64
    }
}

/// The quotient of two 53-bit significands is at least one half and less
/// than two; it is at least one exactly where the first is not the smaller,
/// as [`quotient`] tells [`rounded64`].
pub proof fn lemma_quotient_width(a: u64, b: u64)
    requires
        is_nonzero_finite(a),
        is_nonzero_finite(b),
    ensures
        significand(b) <= 2 * significand(a),
        significand(a) < 2 * significand(b),
{
    lemma_significand_bounds(a);
    lemma_significand_bounds(b);
}

/// Returns the quotient of two numbers, rounded to nearest, ties to even.
#[verifier::rlimit(50)]
pub fn divide(a: u64, b: u64) -> (result: u64)
    ensures
        result == quotient(a, b),
{
    let sign = if (a >= SIGN_BIT) != (b >= SIGN_BIT) {
        SIGN_BIT
    } else {
        0
    };
    let class_a = classify(a);
    let class_b = classify(b);
    if class_a == Class::Nan || class_b == Class::Nan {
        NAN
    } else if class_a == Class::Infinite {
        if class_b == Class::Infinite {
            NAN
        } else {
            sign + INFINITY
        }
    } else if class_b == Class::Infinite {
        sign
    } else if class_b == Class::Zero {
        if class_a == Class::Zero {
            NAN
        } else {
            sign + INFINITY
        }
    } else if class_a == Class::Zero {
        sign
    } else {
        let (ma, ea) = unpack(a);
        let (mb, eb) = unpack(b);
        let e: i64 = ea - eb;
        let width: i64 = if ma >= mb {
            1
        } else {
            0
        };
        let last: i64 = if e + width - 53 >= -1074 {
            e + width - 53
        } else {
            -1074
        };
        let shift: i64 = last - e;
        let sig: u128 = if shift < 0 {
            let scale = pow2_u128((-shift) as u128);
            proof {
                lemma_pow2_grows((-shift) as nat, 53);
                lemma2_to64_rest();
                assert(ma * scale < 0x400_0000_0000_0000_0000_0000_0000) by (nonlinear_arith)
                    requires
                        ma < 0x20_0000_0000_0000,
                        0 < scale <= 0x20_0000_0000_0000,
                ;
            }
            round_div((ma as u128) * scale, mb as u128)
        } else if shift >= 64 {
            proof {
                lemma_pow2_grows(64, shift as nat);
                lemma2_to64();
                assert(2 * ma < mb * pow2(shift as nat)) by (nonlinear_arith)
                    requires
                        ma < 0x20_0000_0000_0000,
                        mb >= 0x10_0000_0000_0000,
                        pow2(shift as nat) >= 0x1_0000_0000_0000_0000,
                ;
                lemma_round_scaled_vanishes(ma as nat, mb as nat, shift as nat);
            }
            0
        } else {
            let scale = pow2_u128(shift as u128);
            proof {
                lemma_pow2_grows(shift as nat, 63);
                lemma2_to64_rest();
                assert(0 < mb * scale < 0x1000_0000_0000_0000_0000_0000_0000_0000)
                    by (nonlinear_arith)
                    requires
                        0 < mb < 0x20_0000_0000_0000,
                        0 < scale <= 0x8000_0000_0000_0000,
                ;
            }
            round_div(ma as u128, (mb as u128) * scale)
        };
        proof {
            // the quotient of two 53-bit significands is below 2, so what was
            // rounded is below two to the power 54
            if shift < 0 {
                lemma_pow2_grows((-shift) as nat, 53);
                lemma2_to64_rest();
                assert(ma * pow2((-shift) as nat) < mb * 0x40_0000_0000_0000) by (nonlinear_arith)
                    requires
                        ma < 0x20_0000_0000_0000,
                        mb >= 0x10_0000_0000_0000,
                        0 < pow2((-shift) as nat) <= 0x20_0000_0000_0000,
                ;
                vstd::arithmetic::div_mod::lemma_multiply_divide_lt(
                    ma * pow2((-shift) as nat),
                    mb as int,
                    0x40_0000_0000_0000,
                );
            } else if shift < 64 {
                lemma_pow2_pos(shift as nat);
                assert(ma < (mb * pow2(shift as nat)) * 2) by (nonlinear_arith)
                    requires
                        ma < 0x20_0000_0000_0000,
                        mb >= 0x10_0000_0000_0000,
                        0 < pow2(shift as nat),
                ;
                vstd::arithmetic::div_mod::lemma_multiply_divide_lt(
                    ma as int,
                    mb * pow2(shift as nat),
                    2,
                );
            }
        }
        sign + pack64(sig, last)
    }
}

/// The significand with the sign of the number.
pub open spec fn signed_significand(x: u64) -> int {
    if is_negative(x) {
        -(significand(x) as int)
    } else {
        significand(x) as int
    }
}

/// A finite number as a multiple of two to the power `lo`, where `lo` is
/// no more than the number's exponent.
pub open spec fn aligned(x: u64, lo: int) -> int {
    signed_significand(x) * pow2((exponent(x) - lo) as nat)
}

/// A number aligned to `lo` is its significand times a power of two, with
/// the number's sign.
proof fn lemma_aligned(x: u64, lo: int)
    requires
        lo <= exponent(x),
    ensures
        aligned(x, lo) == (if is_negative(x) {
            -(significand(x) * pow2((exponent(x) - lo) as nat))
        } else {
            (significand(x) * pow2((exponent(x) - lo) as nat)) as int
        }),
        lo == exponent(x) ==> significand(x) * pow2((exponent(x) - lo) as nat) == significand(x),
{
    let m = significand(x) as int;
    let p = pow2((exponent(x) - lo) as nat) as int;
    assert((-m) * p == -(m * p)) by (nonlinear_arith);
    if lo == exponent(x) {
        lemma2_to64();
        assert(m * p == m) by (nonlinear_arith)
            requires
                p == 1,
        ;
    }
}

/// The sum of two numbers, rounded to nearest, ties to even.
///
/// A sum with a not-a-number in it, and infinity plus the opposite
/// infinity, are not a number; infinity plus anything else is that infinity.
/// A zero added to a number leaves the number; two zeros give negative zero
/// only if both are negative. Two numbers that cancel exactly give positive
/// zero.
pub open spec fn sum(a: u64, b: u64) -> u64 {
    if is_nan(a) || is_nan(b) {
        NAN
    } else if is_infinite(a) {
        if is_infinite(b) && is_negative(a) != is_negative(b) {
            NAN
        } else {
            a
        }
    } else if is_infinite(b) {
        b
    } else if is_zero(a) {
        if is_zero(b) {
            if is_negative(a) && is_negative(b) {
                SIGN_BIT
            } else {
                0
            }
        } else {
            b
        }
    } else if is_zero(b) {
        a
    } else {
        let lo = if exponent(a) <= exponent(b) {
            exponent(a)
        } else {
            exponent(b)
        };
        rounded_signed(aligned(a, lo) + aligned(b, lo), lo)
    }
}

/// The difference of two numbers, rounded to nearest, ties to even: the
/// sum of the first and the negated second.
pub open spec fn difference(a: u64, b: u64) -> u64 {
    sum(a, negated(b))
}

/// Where one number is so small beside another that it does not reach a
/// quarter of the other's last place, their sum or difference rounds to the
/// other.
#[verifier::rlimit(50)]
proof fn lemma_sum_far(h: u64, l: u64)
    requires
        is_nonzero_finite(h),
        is_nonzero_finite(l),
        exponent(h) - exponent(l) > 64,
    ensures
        rounded_signed(aligned(h, exponent(l)) + aligned(l, exponent(l)), exponent(l)) == h,
{
    lemma_significand_bounds(h);
    lemma_significand_bounds(l);
    lemma2_to64();
    lemma2_to64_rest();
    let mh = significand(h);
    let ml = significand(l);
    let eh = exponent(h);
    let el = exponent(l);
    let d = (eh - el) as nat;
    let unit = pow2(d);
    let half = pow2((d - 1) as nat);
    lemma_pow2_grows(64, (d - 1) as nat);
    lemma_pow2_unfold(d);
    lemma_aligned(h, el);
    lemma_aligned(l, el);
    assert(magnitude(h) >= HIDDEN_BIT);
    lemma_magnitude_of_normal(h);
    lemma_pow2_adds(52, d);
    lemma_pow2_adds(53, d);
    lemma_pow2_adds(52, (d - 1) as nat);
    let big = mh * unit;
    assert(pow2(52) * unit <= big < pow2(53) * unit) by (nonlinear_arith)
        requires
            pow2(52) <= mh < pow2(53),
            big == mh * unit,
            unit > 0,
    ;
    assert(1 * unit == unit);
    assert(1 * half == half);
    let t = aligned(h, el) + aligned(l, el);
    if is_negative(h) == is_negative(l) {
        let abs_t = (big + ml) as nat;
        assert(t == abs_t || t == -(abs_t as int));
        assert(abs_t < pow2(53) * unit) by (nonlinear_arith)
            requires
                abs_t == mh * unit + ml,
                mh + 1 <= pow2(53),
                ml < unit,
        ;
        lemma_bit_length_unique(abs_t, 53 + d);
        vstd::arithmetic::div_mod::lemma_fundamental_div_mod_converse(
            abs_t as int,
            unit as int,
            mh as int,
            ml as int,
        );
        assert(round_half_even(abs_t, unit) == mh);
        assert(rounded64(abs_t, 1, el, (53 + d) as int) == magnitude(h));
    } else if mh > HIDDEN_BIT {
        let abs_t = (big - ml) as nat;
        assert(t == abs_t || t == -(abs_t as int));
        assert(abs_t == (mh - 1) * unit + (unit - ml)) by (nonlinear_arith)
            requires
                abs_t == mh * unit - ml,
        ;
        assert(pow2(52) * unit <= (mh - 1) * unit) by (nonlinear_arith)
            requires
                pow2(52) <= mh - 1,
                unit > 0,
        ;
        lemma_bit_length_unique(abs_t, 53 + d);
        vstd::arithmetic::div_mod::lemma_fundamental_div_mod_converse(
            abs_t as int,
            unit as int,
            mh - 1,
            unit - ml,
        );
        assert(round_half_even(abs_t, unit) == mh);
        assert(rounded64(abs_t, 1, el, (53 + d) as int) == magnitude(h));
    } else {
        let abs_t = (big - ml) as nat;
        assert(t == abs_t || t == -(abs_t as int));
        assert(big == pow2(53) * half) by (nonlinear_arith)
            requires
                big == mh * unit,
                mh == pow2(52),
                unit == 2 * half,
                pow2(53) == 2 * pow2(52),
        ;
        assert(abs_t == (pow2(53) - 1) * half + (half - ml)) by (nonlinear_arith)
            requires
                abs_t == pow2(53) * half - ml,
        ;
        assert(pow2(52) * half <= (pow2(53) - 1) * half) by (nonlinear_arith)
            requires
                pow2(52) <= pow2(53) - 1,
                half > 0,
        ;
        lemma_bit_length_unique(abs_t, 52 + d);
        vstd::arithmetic::div_mod::lemma_fundamental_div_mod_converse(
            abs_t as int,
            half as int,
            pow2(53) - 1,
            half - ml,
        );
        assert(round_half_even(abs_t, half) == pow2(53));
        assert(rounded64(abs_t, 1, el, (52 + d) as int) == magnitude(h));
    }
}

/// Adds two nonzero finite numbers, the first of which has the exponent
/// that is not the smaller.
#[verifier::rlimit(50)]
fn add_ordered(h: u64, l: u64) -> (result: u64)
    requires
        is_nonzero_finite(h),
        is_nonzero_finite(l),
        exponent(h) >= exponent(l),
    ensures
        result == rounded_signed(aligned(h, exponent(l)) + aligned(l, exponent(l)), exponent(l)),
{
    let (mh, eh) = unpack(h);
    let (ml, el) = unpack(l);
    let d: i64 = eh - el;
    if d > 64 {
        proof {
            lemma_sum_far(h, l);
        }
        h
    } else {
        let unit = pow2_u128(d as u128);
        proof {
            lemma2_to64();
            lemma_pow2_grows(d as nat, 64);
            assert(0 < mh * unit < 0x20_0000_0000_0000_0000_0000_0000_0000) by (nonlinear_arith)
                requires
                    0 < mh < 0x20_0000_0000_0000,
                    0 < unit <= 0x1_0000_0000_0000_0000,
            ;
            lemma_aligned(h, el as int);
            lemma_aligned(l, el as int);
        }
        let big: u128 = (mh as u128) * unit;
        let small: u128 = ml as u128;
        let negative_h = h >= SIGN_BIT;
        let negative_l = l >= SIGN_BIT;
        if negative_h == negative_l {
            round_integer(big + small, negative_h, el)
        } else if big > small {
            round_integer(big - small, negative_h, el)
        } else if big < small {
            round_integer(small - big, negative_l, el)
        } else {
            0
        }
    }
}

/// Returns the sum of two numbers, rounded to nearest, ties to even.
pub fn plus(a: u64, b: u64) -> (result: u64)
    ensures
        result == sum(a, b),
{
    let class_a = classify(a);
    let class_b = classify(b);
    if class_a == Class::Nan || class_b == Class::Nan {
        NAN
    } else if class_a == Class::Infinite {
        if class_b == Class::Infinite && (a >= SIGN_BIT) != (b >= SIGN_BIT) {
            NAN
        } else {
            a
        }
    } else if class_b == Class::Infinite {
        b
    } else if class_a == Class::Zero {
        if class_b == Class::Zero {
            if a >= SIGN_BIT && b >= SIGN_BIT {
                SIGN_BIT
            } else {
                0
            }
        } else {
            b
        }
    } else if class_b == Class::Zero {
        a
    } else {
        let (_, ea) = unpack(a);
        let (_, eb) = unpack(b);
        if ea >= eb {
            add_ordered(a, b)
        } else {
            add_ordered(b, a)
        }
    }
}

/// Returns the difference of two numbers, rounded to nearest, ties to
/// even.
pub fn minus(a: u64, b: u64) -> (result: u64)
    ensures
        result == difference(a, b),
{
    plus(a, negate(b))
}

} // verus!
