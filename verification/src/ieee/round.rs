//! Rounding to nearest, ties to even: from an exact value, given as a
//! quotient of integers times a power of two, to the bit pattern of the
//! nearest double-precision number.

use crate::ieee::bits::{HIDDEN_BIT, INFINITY, SIGN_BIT};
use vstd::arithmetic::power2::{
    lemma2_to64,
    lemma2_to64_rest,
    lemma_pow2_adds,
    lemma_pow2_pos,
    lemma_pow2_strictly_increases,
    lemma_pow2_unfold,
    pow2,
};
use vstd::prelude::*;

verus! {

/// A larger power of two is at least as large.
pub(crate) proof fn lemma_pow2_grows(lo: nat, hi: nat)
    requires
        lo <= hi,
    ensures
        pow2(lo) <= pow2(hi),
        0 < pow2(lo),
{
    lemma_pow2_pos(lo);
    if lo < hi {
        lemma_pow2_strictly_increases(lo, hi);
    }
}

/// The powers of two beyond the 64th that the proofs below name.
pub proof fn lemma_pow2_wide()
    ensures
        pow2(104) == 0x100_0000_0000_0000_0000_0000_0000,
        pow2(105) == 0x200_0000_0000_0000_0000_0000_0000,
        pow2(106) == 0x400_0000_0000_0000_0000_0000_0000,
        pow2(107) == 0x800_0000_0000_0000_0000_0000_0000,
        pow2(108) == 0x1000_0000_0000_0000_0000_0000_0000,
        pow2(120) == 0x100_0000_0000_0000_0000_0000_0000_0000,
        pow2(122) == 0x400_0000_0000_0000_0000_0000_0000_0000,
        pow2(126) == 0x4000_0000_0000_0000_0000_0000_0000_0000,
{
    lemma2_to64();
    lemma2_to64_rest();
    lemma_pow2_adds(64, 40);
    lemma_pow2_adds(64, 41);
    lemma_pow2_adds(64, 42);
    lemma_pow2_adds(64, 43);
    lemma_pow2_adds(64, 44);
    lemma_pow2_adds(64, 56);
    lemma_pow2_adds(64, 58);
    lemma_pow2_adds(64, 62);
}

/// Shifting one to the left by `k` places gives two to the power `k`.
proof fn lemma_shl_one(k: u128)
    requires
        k < 128,
    ensures
        (1u128 << k) == pow2(k as nat),
    decreases k,
{
    if k == 0 {
        assert(1u128 << 0u128 == 1u128) by (bit_vector);
        lemma2_to64();
    } else {
        let j = (k - 1) as u128;
        lemma_shl_one(j);
        assert((1u128 << k) == 2 * (1u128 << j)) by (bit_vector)
            requires
                0 < k < 128,
                j == k - 1,
        ;
        lemma_pow2_unfold(k as nat);
    }
}

/// Two to the power `k`, for powers that fit.
pub(crate) fn pow2_u128(k: u128) -> (p: u128)
    requires
        k < 127,
    ensures
        p == pow2(k as nat),
        0 < p,
{
    proof {
        lemma_shl_one(k);
        lemma_pow2_pos(k as nat);
    }
    1u128 << k
}

/// The number of bits of `n`: 0 for 0, and otherwise the `w` with `n` at
/// least two to the power `w - 1` and less than two to the power `w`.
pub open spec fn bit_length(n: nat) -> nat
    decreases n,
{
    if n == 0 {
        0
    } else {
        1 + bit_length(n / 2)
    }
}

/// A positive integer lies between the powers of two that its number of
/// bits names.
pub proof fn lemma_bit_length(n: nat)
    requires
        n > 0,
    ensures
        bit_length(n) >= 1,
        pow2((bit_length(n) - 1) as nat) <= n < pow2(bit_length(n)),
    decreases n,
{
    lemma2_to64();
    if n / 2 == 0 {
        assert(bit_length(n / 2) == 0);
        assert(n == 1);
    } else {
        lemma_bit_length(n / 2);
        lemma_pow2_unfold(bit_length(n));
        lemma_pow2_unfold(bit_length(n / 2));
    }
}

/// Only one number of bits fits an integer.
pub proof fn lemma_bit_length_unique(n: nat, w: nat)
    requires
        w >= 1,
        pow2((w - 1) as nat) <= n < pow2(w),
    ensures
        bit_length(n) == w,
{
    lemma_pow2_pos((w - 1) as nat);
    lemma_bit_length(n);
    let b = bit_length(n);
    if b < w {
        lemma_pow2_grows(b, (w - 1) as nat);
    } else if b > w {
        lemma_pow2_grows(w, (b - 1) as nat);
    }
}

/// Returns the number of bits of `n`.
fn bit_length_u128(n: u128) -> (w: u32)
    ensures
        w == bit_length(n as nat),
        w <= 128,
{
    let mut rest: u128 = n;
    let mut w: u32 = 0;
    proof {
        lemma2_to64();
        lemma_pow2_adds(64, 64);
    }
    while rest > 0
        invariant
            w + bit_length(rest as nat) == bit_length(n as nat),
            w <= 128,
            rest < pow2((128 - w) as nat),
        decreases rest,
    {
        proof {
            if w == 128 {
                lemma2_to64();
            }
            lemma_pow2_unfold((128 - w) as nat);
        }
        rest = rest / 2;
        w = w + 1;
    }
    w
}

/// `a / b` rounded to the nearest integer; where two integers are equally
/// near, to the even one.
pub open spec fn round_half_even(a: nat, b: nat) -> nat {
    let q = a / b;
    let r = a % b;
    if 2 * r > b || (2 * r == b && q % 2 == 1) {
        q + 1
    } else {
        q
    }
}

/// Rounding to nearest stays within half a unit: the rounded quotient,
/// times the divisor, differs from the dividend by no more than half the
/// divisor. Where it differs by exactly half, the rounded quotient is even.
pub proof fn lemma_round_half_even_is_nearest(a: nat, b: nat)
    requires
        b > 0,
    ensures
        2 * (round_half_even(a, b) * b - a) <= b,
        2 * (a - round_half_even(a, b) * b) <= b,
        2 * (round_half_even(a, b) * b - a) == b || 2 * (a - round_half_even(a, b) * b) == b
            ==> round_half_even(a, b) % 2 == 0,
{
    let q = a / b;
    let r = a % b;
    vstd::arithmetic::div_mod::lemma_fundamental_div_mod(a as int, b as int);
    assert(a == b * q + r);
    assert(b * q == q * b && (q + 1) * b == q * b + b) by (nonlinear_arith);
}

/// `num / den` divided by two to the power `shift` (multiplied by two to
/// the power `-shift`, where `shift` is negative), rounded to the nearest
/// integer with ties to even.
pub open spec fn round_scaled(num: nat, den: nat, shift: int) -> nat {
    if shift >= 0 {
        round_half_even(num, den * pow2(shift as nat))
    } else {
        round_half_even(num * pow2((-shift) as nat), den)
    }
}

/// Where nothing but less than half of the last place is left, rounding
/// gives zero.
pub(crate) proof fn lemma_round_scaled_vanishes(num: nat, den: nat, shift: nat)
    requires
        2 * num < den * pow2(shift),
    ensures
        round_scaled(num, den, shift as int) == 0,
{
    let b = den * pow2(shift);
    vstd::arithmetic::div_mod::lemma_basic_div(num as int, b as int);
    vstd::arithmetic::div_mod::lemma_small_mod(num, b);
}

/// Returns `a / b` rounded to the nearest integer, ties to even.
pub(crate) fn round_div(a: u128, b: u128) -> (q: u128)
    requires
        0 < b <= 0x4000_0000_0000_0000_0000_0000_0000_0000,
        a < u128::MAX,
    ensures
        q == round_half_even(a as nat, b as nat),
{
    let q = a / b;
    let r = a % b;
    if 2 * r > b || (2 * r == b && q % 2 == 1) {
        q + 1
    } else {
        q
    }
}

/// The magnitude bits of the double-precision number nearest to `num /
/// den` times two to the power `e`, ties going to the even significand.
///
/// `width` says where the leading bit of `num / den` is: `num / den` is at
/// least two to the power `width - 1` and less than two to the power
/// `width`. The result keeps 53 significant bits, or fewer where it is
/// subnormal: its last place has the exponent `e + width - 53`, but no less
/// than -1074. Adding the rounded significand to the exponent field lets a
/// carry out of the significand move into the exponent, as the format
/// intends. What is beyond the largest finite number becomes infinity.
pub open spec fn rounded64(num: nat, den: nat, e: int, width: int) -> u64 {
    let last = if e + width - 53 >= -1074 {
        e + width - 53
    } else {
        -1074
    };
    let raw = (last + 1074) * HIDDEN_BIT + round_scaled(num, den, last - e);
    if raw >= INFINITY {
        INFINITY
    } else {
        raw as u64
    }
}

/// Puts a rounded significand and the exponent of its last place together.
pub(crate) fn pack64(sig: u128, last: i64) -> (bits: u64)
    requires
        -1074 <= last <= 4000,
        sig <= 0x200_0000_0000_0000_0000_0000_0000_0000,
    ensures
        bits == (if (last + 1074) * HIDDEN_BIT + sig >= INFINITY {
            INFINITY
        } else {
            ((last + 1074) * HIDDEN_BIT + sig) as u64
        }),
        bits <= INFINITY,
{
    let raw: u128 = ((last + 1074) as u128) * (HIDDEN_BIT as u128) + sig;
    if raw >= INFINITY as u128 {
        INFINITY
    } else {
        raw as u64
    }
}

/// The double-precision number nearest to `t` times two to the power `e`,
/// ties going to the even significand. An exact zero is positive zero.
pub open spec fn rounded_signed(t: int, e: int) -> u64 {
    if t == 0 {
        0
    } else if t < 0 {
        (SIGN_BIT + rounded64((-t) as nat, 1, e, bit_length((-t) as nat) as int)) as u64
    } else {
        rounded64(t as nat, 1, e, bit_length(t as nat) as int)
    }
}

/// Returns the number nearest to a nonzero integer times two to the power
/// `e`.
#[verifier::rlimit(50)]
pub(crate) fn round_integer(t: u128, negative: bool, e: i64) -> (bits: u64)
    requires
        0 < t < 0x100_0000_0000_0000_0000_0000_0000_0000,
        -1200 <= e <= 1000,
    ensures
        bits == rounded_signed(
            if negative {
                -(t as int)
            } else {
                t as int
            },
            e as int,
        ),
{
    let sign = if negative {
        SIGN_BIT
    } else {
        0
    };
    let width = bit_length_u128(t) as i64;
    proof {
        lemma_bit_length(t as nat);
        lemma_pow2_wide();
        if width > 120 {
            lemma_pow2_grows(120, (width - 1) as nat);
        }
    }
    let last: i64 = if e + width - 53 >= -1074 {
        e + width - 53
    } else {
        -1074
    };
    let shift: i64 = last - e;
    let sig: u128 = if shift < 0 {
        let scale = pow2_u128((-shift) as u128);
        proof {
            // t has `width` bits and is shifted by no more than 53 - width
            lemma_pow2_adds(width as nat, (-shift) as nat);
            lemma_pow2_grows((width - shift) as nat, 53);
            lemma2_to64_rest();
            assert(t * scale < pow2(width as nat) * scale) by (nonlinear_arith)
                requires
                    t < pow2(width as nat),
                    scale > 0,
            ;
            let scaled = (t * scale) as nat;
            vstd::arithmetic::div_mod::lemma_fundamental_div_mod_converse(
                scaled as int,
                1,
                scaled as int,
                0,
            );
        }
        t * scale
    } else if shift >= 122 {
        proof {
            lemma_pow2_grows(122, shift as nat);
            lemma_round_scaled_vanishes(t as nat, 1, shift as nat);
        }
        0
    } else {
        let unit = pow2_u128(shift as u128);
        proof {
            lemma_pow2_grows(shift as nat, 126);
            vstd::arithmetic::div_mod::lemma_div_is_ordered_by_denominator(
                t as int,
                1,
                unit as int,
            );
        }
        round_div(t, unit)
    };
    sign + pack64(sig, last)
}

} // verus!
