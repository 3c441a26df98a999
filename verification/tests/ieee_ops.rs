//! The integer arithmetic on bit patterns against the processor's own
//! floating-point arithmetic.

use img2raw::ieee::{
    divide, frexp, le, lt, max, min, minus, multiply, negate, plus, to_binary32, to_u8,
};

/// A small deterministic generator of 64-bit patterns.
struct Patterns {
    state: u64,
}

impl Patterns {
    fn new(seed: u64) -> Self {
        Patterns { state: seed }
    }

    fn next_raw(&mut self) -> u64 {
        // xorshift64*
        let mut x = self.state;
        x ^= x >> 12;
        x ^= x << 25;
        x ^= x >> 27;
        self.state = x;
        x.wrapping_mul(0x2545_F491_4F6C_DD1D)
    }

    /// A pattern whose exponent field is drawn from a chosen neighbourhood,
    /// so that products and quotients land in every part of the range.
    fn next(&mut self) -> u64 {
        let raw = self.next_raw();
        let fraction = match self.next_raw() % 8 {
            0 => 0,
            1 => 1,
            2 => 0x000f_ffff_ffff_ffff,
            3 => 0x0008_0000_0000_0000,
            4 => raw & 0x000f_ffff_0000_0000,
            _ => raw & 0x000f_ffff_ffff_ffff,
        };
        let exponent = match self.next_raw() % 8 {
            0 => 0,
            1 => 0x7ff,
            2 => 1 + self.next_raw() % 60,
            3 => 0x7fe - self.next_raw() % 60,
            4 => 0x3ff - 540 + self.next_raw() % 60,
            5 => 0x3ff + 480 + self.next_raw() % 60,
            _ => 0x3ff - 30 + self.next_raw() % 60,
        };
        let sign = self.next_raw() & 0x8000_0000_0000_0000;
        sign | (exponent << 52) | fraction
    }
}

fn agrees(bits: u64, expected: f64) -> bool {
    if expected.is_nan() {
        f64::from_bits(bits).is_nan()
    } else {
        bits == expected.to_bits()
    }
}

#[test]
fn multiply_agrees_with_hardware() {
    let mut patterns = Patterns::new(0x1234_5678_9abc_def1);
    for _ in 0..200_000 {
        let a = patterns.next();
        let b = patterns.next();
        let expected = f64::from_bits(a) * f64::from_bits(b);
        let got = multiply(a, b);
        assert!(agrees(got, expected), "{:#x} * {:#x}: {:#x} != {:#x}", a, b, got, expected.to_bits());
    }
}

#[test]
fn divide_agrees_with_hardware() {
    let mut patterns = Patterns::new(0x0fed_cba9_8765_4321);
    for _ in 0..200_000 {
        let a = patterns.next();
        let b = patterns.next();
        let expected = f64::from_bits(a) / f64::from_bits(b);
        let got = divide(a, b);
        assert!(agrees(got, expected), "{:#x} / {:#x}: {:#x} != {:#x}", a, b, got, expected.to_bits());
    }
}

#[test]
fn multiply_and_divide_known_values() {
    assert_eq!(multiply(2.0f64.to_bits(), 3.0f64.to_bits()), 6.0f64.to_bits());
    assert_eq!(multiply(0.1f64.to_bits(), 0.2f64.to_bits()), (0.1f64 * 0.2f64).to_bits());
    assert_eq!(multiply((-1.5f64).to_bits(), 0.0f64.to_bits()), (-0.0f64).to_bits());
    assert_eq!(multiply(f64::MAX.to_bits(), 2.0f64.to_bits()), f64::INFINITY.to_bits());
    assert_eq!(multiply(5e-324f64.to_bits(), 0.5f64.to_bits()), 0.0f64.to_bits());
    assert_eq!(multiply(5e-324f64.to_bits(), 1.5f64.to_bits()), 1e-323f64.to_bits());
    assert_eq!(divide(1.0f64.to_bits(), 3.0f64.to_bits()), (1.0f64 / 3.0f64).to_bits());
    assert_eq!(divide(1.0f64.to_bits(), 0.0f64.to_bits()), f64::INFINITY.to_bits());
    assert_eq!(divide((-1.0f64).to_bits(), 0.0f64.to_bits()), f64::NEG_INFINITY.to_bits());
    assert_eq!(divide(6.0f64.to_bits(), 2.0f64.to_bits()), 3.0f64.to_bits());
    assert!(f64::from_bits(divide(0.0f64.to_bits(), 0.0f64.to_bits())).is_nan());
    assert!(f64::from_bits(multiply(f64::INFINITY.to_bits(), 0.0f64.to_bits())).is_nan());
}

#[test]
fn order_agrees_with_hardware() {
    let mut patterns = Patterns::new(0x5555_aaaa_1234_4321);
    for round in 0..200_000 {
        let a = patterns.next();
        let b = if round % 16 == 0 { a } else { patterns.next() };
        let fa = f64::from_bits(a);
        let fb = f64::from_bits(b);
        assert_eq!(lt(a, b), fa < fb, "{:#x} < {:#x}", a, b);
        // the smaller and the larger, up to the sign of a zero
        let least = f64::from_bits(min(a, b));
        let greatest = f64::from_bits(max(a, b));
        let expected_least = fa.min(fb);
        let expected_greatest = fa.max(fb);
        assert!(
            (least.is_nan() && expected_least.is_nan()) || least == expected_least,
            "min({:#x}, {:#x})",
            a,
            b
        );
        assert!(
            (greatest.is_nan() && expected_greatest.is_nan()) || greatest == expected_greatest,
            "max({:#x}, {:#x})",
            a,
            b
        );
    }
}

#[test]
fn to_u8_agrees_with_cast() {
    let mut patterns = Patterns::new(0x0bad_cafe_dead_beef);
    for _ in 0..100_000 {
        let a = patterns.next();
        assert_eq!(to_u8(a), f64::from_bits(a) as u8, "{:#x}", a);
    }
    let mut value = -2.0f64;
    while value < 300.0 {
        assert_eq!(to_u8(value.to_bits()), value as u8, "{}", value);
        value += 0.125;
    }
    assert_eq!(to_u8(254.99999999999997f64.to_bits()), 254);
    assert_eq!(to_u8(255.0f64.to_bits()), 255);
    assert_eq!(to_u8(f64::NAN.to_bits()), 0);
    assert_eq!(to_u8(f64::INFINITY.to_bits()), 255);
    assert_eq!(to_u8(f64::NEG_INFINITY.to_bits()), 0);
    assert_eq!(to_u8(0.99999f64.to_bits()), 0);
    assert_eq!(to_u8(1.0f64.to_bits()), 1);
}

#[test]
fn plus_and_minus_agree_with_hardware() {
    let mut patterns = Patterns::new(0x9e37_79b9_7f4a_7c15);
    for round in 0..300_000 {
        let a = patterns.next();
        let mut b = patterns.next();
        if round % 4 == 0 {
            // exponents close together, so that bits cancel
            let shift = patterns.next_raw() % 70;
            let exponent = ((a >> 52) & 0x7ff).saturating_sub(shift).max(0);
            b = (b & 0x800f_ffff_ffff_ffff) | (exponent << 52);
        }
        if round % 64 == 0 {
            b = a ^ 0x8000_0000_0000_0000;
        }
        let fa = f64::from_bits(a);
        let fb = f64::from_bits(b);
        let got = plus(a, b);
        assert!(agrees(got, fa + fb), "{:#x} + {:#x}: {:#x} != {:#x}", a, b, got, (fa + fb).to_bits());
        let got = minus(a, b);
        assert!(agrees(got, fa - fb), "{:#x} - {:#x}: {:#x} != {:#x}", a, b, got, (fa - fb).to_bits());
    }
}

#[test]
fn plus_known_values() {
    assert_eq!(plus(1.0f64.to_bits(), 2.0f64.to_bits()), 3.0f64.to_bits());
    assert_eq!(plus(0.1f64.to_bits(), 0.2f64.to_bits()), (0.1f64 + 0.2f64).to_bits());
    assert_eq!(plus(1.0f64.to_bits(), (-1.0f64).to_bits()), 0.0f64.to_bits());
    assert_eq!(plus((-0.0f64).to_bits(), (-0.0f64).to_bits()), (-0.0f64).to_bits());
    assert_eq!(plus((-0.0f64).to_bits(), 0.0f64.to_bits()), 0.0f64.to_bits());
    assert_eq!(plus(1.0f64.to_bits(), 1e-30f64.to_bits()), 1.0f64.to_bits());
    assert_eq!(plus(1.0f64.to_bits(), (-1e-30f64).to_bits()), 1.0f64.to_bits());
    assert_eq!(plus(f64::MAX.to_bits(), f64::MAX.to_bits()), f64::INFINITY.to_bits());
    assert_eq!(plus(5e-324f64.to_bits(), 5e-324f64.to_bits()), 1e-323f64.to_bits());
    assert_eq!(minus(3.5f64.to_bits(), 1.25f64.to_bits()), 2.25f64.to_bits());
    assert_eq!(negate(1.0f64.to_bits()), (-1.0f64).to_bits());
    assert_eq!(negate((-0.0f64).to_bits()), 0.0f64.to_bits());
    assert!(f64::from_bits(plus(f64::INFINITY.to_bits(), f64::NEG_INFINITY.to_bits())).is_nan());
}

#[test]
fn le_agrees_with_hardware() {
    let mut patterns = Patterns::new(0x0123_4567_89ab_cdef);
    for round in 0..100_000 {
        let a = patterns.next();
        let b = if round % 8 == 0 { a } else { patterns.next() };
        assert_eq!(le(a, b), f64::from_bits(a) <= f64::from_bits(b), "{:#x} <= {:#x}", a, b);
    }
    assert!(le(0.0f64.to_bits(), (-0.0f64).to_bits()));
    assert!(le((-0.0f64).to_bits(), 0.0f64.to_bits()));
    assert!(!le(f64::NAN.to_bits(), f64::NAN.to_bits()));
}

#[test]
fn to_binary32_agrees_with_cast() {
    let mut patterns = Patterns::new(0xfeed_f00d_1234_5678);
    for round in 0..300_000 {
        let mut a = patterns.next();
        if round % 2 == 0 {
            // the range of single precision, subnormal numbers included
            let exponent = 0x3ff - 160 + patterns.next_raw() % 300;
            a = (a & 0x800f_ffff_ffff_ffff) | (exponent << 52);
        }
        if round % 8 == 0 {
            // halfway between two single-precision numbers, or next to it
            a = (a & 0xffff_ffff_e000_0000) | 0x1000_0000;
            a = a.wrapping_add(patterns.next_raw() % 3).wrapping_sub(1);
        }
        let expected = f64::from_bits(a) as f32;
        let got = to_binary32(a);
        if expected.is_nan() {
            assert!(f32::from_bits(got).is_nan(), "{:#x}", a);
        } else {
            assert_eq!(got, expected.to_bits(), "{:#x}", a);
        }
    }
    assert_eq!(to_binary32(1.0f64.to_bits()), 1.0f32.to_bits());
    assert_eq!(to_binary32(0.1f64.to_bits()), 0.1f32.to_bits());
    assert_eq!(to_binary32(1e40f64.to_bits()), f32::INFINITY.to_bits());
    assert_eq!(to_binary32((-1e-50f64).to_bits()), (-0.0f32).to_bits());
    assert_eq!(to_binary32(1e-40f64.to_bits()), (1e-40f64 as f32).to_bits());
}

#[test]
fn frexp_splits_exactly() {
    let mut patterns = Patterns::new(0x1357_9bdf_0246_8ace);
    for _ in 0..100_000 {
        let a = patterns.next();
        let x = f64::from_bits(a);
        let (fraction, exponent) = frexp(a);
        if x == 0.0 || !x.is_finite() {
            assert_eq!(fraction, a);
            assert_eq!(exponent, 0);
        } else {
            let f = f64::from_bits(fraction);
            assert!(0.5 <= f.abs() && f.abs() < 1.0, "{:#x}", a);
            assert_eq!(f.is_sign_negative(), x.is_sign_negative());
            // f * 2^exponent is x: scale in two exact steps to stay in range
            let half = exponent / 2;
            let rebuilt = f * 2.0f64.powi(half) * 2.0f64.powi(exponent - half);
            assert_eq!(rebuilt.to_bits(), a, "{:#x}", a);
        }
    }
    assert_eq!(frexp(1.0f64.to_bits()), (0.5f64.to_bits(), 1));
    assert_eq!(frexp(0.75f64.to_bits()), (0.75f64.to_bits(), 0));
    assert_eq!(frexp((-8.0f64).to_bits()), ((-0.5f64).to_bits(), 4));
    assert_eq!(frexp(5e-324f64.to_bits()), (0.5f64.to_bits(), -1073));
    assert_eq!(frexp(f64::MAX.to_bits()).1, 1024);
}
