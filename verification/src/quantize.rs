//! Turning one sample into the integer that a data format stores for it.
//!
//! A sample is the bit pattern of a double-precision number (see
//! [`crate::ieee`]). No sample is refused: what a format cannot hold is
//! clamped.

use crate::ieee::{
    below,
    binary_exponent,
    binary_fraction,
    divide,
    frexp,
    is_nan,
    is_zero,
    larger,
    lt,
    max,
    min,
    multiply,
    product,
    quotient,
    smaller,
    to_u8,
    truncated_u8,
    ONE,
    ZERO,
};
use vstd::prelude::*;

verus! {

/// The number 255.
pub const BYTE_MAX: u64 = 0x406f_e000_0000_0000;

/// The number 256.
pub const BYTE_SPAN: u64 = 0x4070_0000_0000_0000;

/// The number 65504, the largest that half precision holds.
pub const HALF_MAX: u64 = 0x40ef_fc00_0000_0000;

/// The number -65504, the least that half precision holds.
pub const HALF_MIN: u64 = 0xc0ef_fc00_0000_0000;

/// The number 1e-32, below which a shared-exponent pixel is black.
pub const RGBE_FLOOR: u64 = 0x3949_f623_d5a8_a733;

/// The byte of an 8-bit channel: the sample held to the range 0 to 1 (a
/// not-a-number counts as 1), times 255, fraction dropped.
pub open spec fn unorm8(x: u64) -> u8 {
    truncated_u8(product(larger(smaller(x, ONE), ZERO), BYTE_MAX))
}

/// Returns the byte of an 8-bit channel.
pub fn to_unorm8(x: u64) -> (byte: u8)
    ensures
        byte == unorm8(x),
{
    to_u8(multiply(max(min(x, ONE), ZERO), BYTE_MAX))
}

/// The sample held to the range of half precision, -65504 to 65504. A
/// not-a-number becomes -65504.
pub open spec fn half_range(x: u64) -> u64 {
    smaller(larger(x, HALF_MIN), HALF_MAX)
}

/// Returns the sample held to the range of half precision.
pub fn clamp_to_half_range(x: u64) -> (clamped: u64)
    ensures
        clamped == half_range(x),
        !is_nan(clamped),
        !below(clamped, HALF_MIN),
        !below(HALF_MAX, clamped),
{
    min(max(x, HALF_MIN), HALF_MAX)
}

/// Converts a sample to half precision. The sample is first held to the
/// range of half precision, so that no value becomes infinite; `to_half`
/// then makes the 16-bit pattern of the clamped value.
pub fn safe_f64_to_f16<F: Fn(u64) -> u16>(x: u64, to_half: &F) -> (half: u16)
    requires
        call_requires(*to_half, (half_range(x),)),
    ensures
        call_ensures(*to_half, (half_range(x),), half),
{
    to_half(clamp_to_half_range(x))
}

/// One of the three color bytes of a shared-exponent pixel: the channel
/// times the fraction of the largest channel, times 256, over the largest
/// channel, held to the range 0 to 255 (a not-a-number counts as 255),
/// fraction dropped.
pub open spec fn rgbe8_channel(channel: u64, fraction: u64, largest: u64) -> u8 {
    truncated_u8(
        larger(
            smaller(quotient(product(product(channel, fraction), BYTE_SPAN), largest), BYTE_MAX),
            ZERO,
        ),
    )
}

/// The largest of the three color channels, not-a-numbers left aside.
pub open spec fn largest_channel(r: u64, g: u64, b: u64) -> u64 {
    larger(larger(r, g), b)
}

/// The four bytes of a shared-exponent pixel.
///
/// Where the largest channel is less than 1e-32 the pixel is black: four
/// zero bytes. Otherwise the largest channel is split into a fraction in
/// [1/2, 1) and a power of two; each channel is scaled by the same power, and
/// the fourth byte is that power plus 128, wrapped into a byte.
pub open spec fn rgbe8(r: u64, g: u64, b: u64) -> Seq<u8> {
    let v = largest_channel(r, g, b);
    if below(v, RGBE_FLOOR) {
        seq![0u8, 0u8, 0u8, 0u8]
    } else {
        let f = binary_fraction(v);
        seq![
            rgbe8_channel(r, f, v),
            rgbe8_channel(g, f, v),
            rgbe8_channel(b, f, v),
            ((binary_exponent(v) + 128) % 256) as u8,
        ]
    }
}

/// Returns one of the three color bytes of a shared-exponent pixel.
fn to_rgbe8_channel(channel: u64, fraction: u64, largest: u64) -> (byte: u8)
    ensures
        byte == rgbe8_channel(channel, fraction, largest),
{
    to_u8(max(min(divide(multiply(multiply(channel, fraction), BYTE_SPAN), largest), BYTE_MAX), ZERO))
}

/// Returns the four bytes of a shared-exponent pixel.
#[verifier::rlimit(50)]
pub fn to_rgbe8(r: u64, g: u64, b: u64) -> (bytes: [u8; 4])
    ensures
        bytes@ == rgbe8(r, g, b),
{
    let v = max(max(r, g), b);
    if lt(v, RGBE_FLOOR) {
        let bytes = [0u8, 0u8, 0u8, 0u8];
        assert(bytes@ =~= rgbe8(r, g, b));
        bytes
    } else {
        let (f, e) = frexp(v);
        let shifted: i32 = e + 128;
        proof {
            // a channel of at least 1e-32 has an exponent of at least -106
            lemma_exponent_above_floor(v);
        }
        let bytes = [
            to_rgbe8_channel(r, f, v),
            to_rgbe8_channel(g, f, v),
            to_rgbe8_channel(b, f, v),
            (shifted % 256) as u8,
        ];
        assert(bytes@ =~= rgbe8(r, g, b));
        bytes
    }
}

/// A number that is not less than 1e-32 has a binary exponent of at least
/// -106.
proof fn lemma_exponent_above_floor(v: u64)
    requires
        !below(v, RGBE_FLOOR),
    ensures
        binary_exponent(v) >= -106,
{
    if crate::ieee::is_nonzero_finite(v) {
        // v >= 1e-32, so its exponent field is at least 0x394
        assert(!is_nan(RGBE_FLOOR));
        assert(v >= RGBE_FLOOR && v < crate::ieee::SIGN_BIT);
        assert(v / crate::ieee::HIDDEN_BIT >= 0x394);
    }
}

/// A shared-exponent pixel is four bytes.
pub proof fn lemma_rgbe8_len(r: u64, g: u64, b: u64)
    ensures
        rgbe8(r, g, b).len() == 4,
{
}

/// A pixel whose three color channels are zero is black.
pub proof fn lemma_rgbe8_black(r: u64, g: u64, b: u64)
    requires
        is_zero(r),
        is_zero(g),
        is_zero(b),
    ensures
        rgbe8(r, g, b) == seq![0u8, 0u8, 0u8, 0u8],
{
}

/// An 8-bit channel saturates: a sample of 1 or more, and a not-a-number,
/// give 255; a sample of 0 or less gives 0.
#[verifier::rlimit(50)]
pub proof fn lemma_unorm8_saturates(x: u64)
    ensures
        is_nan(x) || !below(x, ONE) ==> unorm8(x) == 255,
        !is_nan(x) && !below(ZERO, x) ==> unorm8(x) == 0,
{
    if is_nan(x) || !below(x, ONE) {
        assert(larger(smaller(x, ONE), ZERO) == ONE);
        lemma_one_times_byte_max();
    } else if !below(ZERO, x) {
        let held = larger(smaller(x, ONE), ZERO);
        assert(is_zero(held));
        assert(is_zero(product(held, BYTE_MAX)));
        crate::ieee::lemma_zero_truncates(product(held, BYTE_MAX));
    }
}

/// One times 255 is 255, and the byte of 255 is 255.
#[verifier::rlimit(50)]
proof fn lemma_one_times_byte_max()
    ensures
        product(ONE, BYTE_MAX) == BYTE_MAX,
        truncated_u8(BYTE_MAX) == 255,
{
    vstd::arithmetic::power2::lemma2_to64();
    vstd::arithmetic::power2::lemma2_to64_rest();
    crate::ieee::lemma_pow2_wide();
    let m: nat = 0x1f_e000_0000_0000;
    assert(crate::ieee::significand(ONE) == 0x10_0000_0000_0000);
    assert(crate::ieee::significand(BYTE_MAX) == m);
    assert(crate::ieee::exponent(ONE) == -52);
    assert(crate::ieee::exponent(BYTE_MAX) == -45);
    let p: nat = 0x10_0000_0000_0000 * m;
    assert(p == m * vstd::arithmetic::power2::pow2(52));
    assert(p < vstd::arithmetic::power2::pow2(105));
    vstd::arithmetic::div_mod::lemma_fundamental_div_mod_converse(
        p as int,
        vstd::arithmetic::power2::pow2(52) as int,
        m as int,
        0,
    );
    assert(1nat * vstd::arithmetic::power2::pow2(52) == vstd::arithmetic::power2::pow2(52));
    assert(crate::ieee::round_half_even(p, 1nat * vstd::arithmetic::power2::pow2(52)) == m);
    assert(crate::ieee::rounded64(p, 1, -97, 105) == BYTE_MAX);
    // 255 = m / 2^45
    vstd::arithmetic::div_mod::lemma_fundamental_div_mod_converse(
        m as int,
        vstd::arithmetic::power2::pow2(45) as int,
        255,
        0,
    );
}

} // verus!
