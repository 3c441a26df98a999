//! One sample to the integer that a format stores.

use img2raw::quantize::{clamp_to_half_range, safe_f64_to_f16, to_rgbe8, to_unorm8};

fn bits(x: f64) -> u64 {
    x.to_bits()
}

fn half(x: u64) -> u16 {
    half::f16::from_f64(f64::from_bits(x)).to_bits()
}

/// The split into fraction and exponent, done exactly on the bits of a
/// normal number.
fn split(v: f64) -> (f64, i32) {
    let raw = v.to_bits();
    let exponent = ((raw >> 52) & 0x7ff) as i32 - 1022;
    let fraction = f64::from_bits((raw & 0x800f_ffff_ffff_ffff) | (1022u64 << 52));
    (fraction, exponent)
}

/// The shared-exponent bytes, computed with the processor's arithmetic.
fn rgbe_by_floats(r: f64, g: f64, b: f64) -> [u8; 4] {
    let v = r.max(g).max(b);
    if v < 1e-32 {
        [0, 0, 0, 0]
    } else {
        let (f, e) = split(v);
        [
            (r * f * 256.0 / v).min(255.0).max(0.0) as u8,
            (g * f * 256.0 / v).min(255.0).max(0.0) as u8,
            (b * f * 256.0 / v).min(255.0).max(0.0) as u8,
            (e + 128) as u8,
        ]
    }
}

#[test]
fn unorm8_clamps() {
    assert_eq!(to_unorm8(bits(2.0)), 255);
    assert_eq!(to_unorm8(bits(-1.0)), 0);
    assert_eq!(to_unorm8(bits(1.0)), 255);
    assert_eq!(to_unorm8(bits(0.0)), 0);
    assert_eq!(to_unorm8(bits(-0.0)), 0);
    assert_eq!(to_unorm8(bits(f64::INFINITY)), 255);
    assert_eq!(to_unorm8(bits(f64::NEG_INFINITY)), 0);
    assert_eq!(to_unorm8(bits(1e300)), 255);
    assert_eq!(to_unorm8(bits(-1e-300)), 0);
    assert_eq!(to_unorm8(bits(f64::NAN)), 255);
}

#[test]
fn unorm8_truncates() {
    assert_eq!(to_unorm8(bits(0.5)), 127);
    assert_eq!(to_unorm8(bits(0.25)), 63);
    assert_eq!(to_unorm8(bits(0.75)), 191);
    assert_eq!(to_unorm8(bits(0.999)), 254);
    assert_eq!(to_unorm8(bits(1.0 - f64::EPSILON / 2.0)), 254);
    assert_eq!(to_unorm8(bits(1.0 / 255.0)), 1);
    assert_eq!(to_unorm8(bits(0.0039)), 0);
    assert_eq!(to_unorm8(bits(0.004)), 1);
    assert_eq!(to_unorm8(bits(5e-324)), 0);
}

#[test]
fn unorm8_agrees_with_floats() {
    for step in 0..=100_000u32 {
        let x = -0.25 + 1.5 * (step as f64) / 100_000.0;
        assert_eq!(to_unorm8(bits(x)), (x.min(1.0).max(0.0) * 255.0) as u8, "{}", x);
    }
    for byte in 0..=255u32 {
        // the values that a byte was made from, and their neighbours
        let x = byte as f64 / 255.0;
        for candidate in [x, f64::from_bits(x.to_bits() + 1), f64::from_bits(x.to_bits().wrapping_sub(1))] {
            assert_eq!(
                to_unorm8(bits(candidate)),
                (candidate.min(1.0).max(0.0) * 255.0) as u8,
                "{}",
                candidate
            );
        }
    }
}

#[test]
fn half_range_is_clamped() {
    assert_eq!(clamp_to_half_range(bits(1.0)), bits(1.0));
    assert_eq!(clamp_to_half_range(bits(-0.5)), bits(-0.5));
    assert_eq!(clamp_to_half_range(bits(65504.0)), bits(65504.0));
    assert_eq!(clamp_to_half_range(bits(65505.0)), bits(65504.0));
    assert_eq!(clamp_to_half_range(bits(1e10)), bits(65504.0));
    assert_eq!(clamp_to_half_range(bits(f64::INFINITY)), bits(65504.0));
    assert_eq!(clamp_to_half_range(bits(-65504.0)), bits(-65504.0));
    assert_eq!(clamp_to_half_range(bits(-65504.5)), bits(-65504.0));
    assert_eq!(clamp_to_half_range(bits(f64::NEG_INFINITY)), bits(-65504.0));
    assert_eq!(clamp_to_half_range(bits(f64::NAN)), bits(-65504.0));
    assert_eq!(clamp_to_half_range(bits(0.0)), bits(0.0));
    assert_eq!(clamp_to_half_range(bits(-0.0)), bits(-0.0));
    for step in 0..10_000u32 {
        let x = -70000.0 + 14.0 * step as f64;
        assert_eq!(clamp_to_half_range(bits(x)), bits(x.max(-65504.0).min(65504.0)), "{}", x);
    }
}

#[test]
fn safe_half_never_gives_infinity() {
    assert_eq!(safe_f64_to_f16(bits(1.0), &half), 0x3c00);
    assert_eq!(safe_f64_to_f16(bits(-2.0), &half), 0xc000);
    assert_eq!(safe_f64_to_f16(bits(0.0), &half), 0x0000);
    assert_eq!(safe_f64_to_f16(bits(65504.0), &half), 0x7bff);
    assert_eq!(safe_f64_to_f16(bits(1e9), &half), 0x7bff);
    assert_eq!(safe_f64_to_f16(bits(f64::INFINITY), &half), 0x7bff);
    assert_eq!(safe_f64_to_f16(bits(-1e9), &half), 0xfbff);
    assert_eq!(safe_f64_to_f16(bits(f64::NEG_INFINITY), &half), 0xfbff);
    assert_eq!(safe_f64_to_f16(bits(f64::NAN), &half), 0xfbff);
    for step in 0..10_000u32 {
        let x = -70000.0 + 14.0 * step as f64;
        let expected = half::f16::from_f64(x.max(-65504.0).min(65504.0)).to_bits();
        assert_eq!(safe_f64_to_f16(bits(x), &half), expected, "{}", x);
    }
}

#[test]
fn safe_half_hands_over_the_clamped_value() {
    // a converter that shows what it was given
    let seen = |x: u64| -> u16 { (x >> 48) as u16 };
    assert_eq!(safe_f64_to_f16(bits(1e9), &seen), (bits(65504.0) >> 48) as u16);
    assert_eq!(safe_f64_to_f16(bits(0.5), &seen), (bits(0.5) >> 48) as u16);
}

#[test]
fn rgbe8_black() {
    assert_eq!(to_rgbe8(bits(0.0), bits(0.0), bits(0.0)), [0, 0, 0, 0]);
    assert_eq!(to_rgbe8(bits(-0.0), bits(0.0), bits(-0.0)), [0, 0, 0, 0]);
    assert_eq!(to_rgbe8(bits(1e-33), bits(0.0), bits(0.0)), [0, 0, 0, 0]);
    assert_eq!(to_rgbe8(bits(9.9e-33), bits(9.9e-33), bits(9.9e-33)), [0, 0, 0, 0]);
    assert_eq!(to_rgbe8(bits(-1.0), bits(-2.0), bits(-3.0)), [0, 0, 0, 0]);
    assert_eq!(to_rgbe8(bits(f64::NEG_INFINITY), bits(0.0), bits(0.0)), [0, 0, 0, 0]);
}

#[test]
fn rgbe8_general() {
    let bytes = to_rgbe8(bits(1.0), bits(0.5), bits(0.25));
    assert_eq!(bytes, [128, 64, 32, 129]);
    // the same samples give the same bytes
    assert_eq!(to_rgbe8(bits(1.0), bits(0.5), bits(0.25)), bytes);
    let scale = 2.0f64.powi(bytes[3] as i32 - 128);
    for (byte, expected) in bytes[..3].iter().zip([1.0f64, 0.5, 0.25]) {
        let decoded = *byte as f64 / 256.0 * scale;
        assert!(((decoded - expected) / expected).abs() <= 0.01, "{} {}", decoded, expected);
    }
}

#[test]
fn rgbe8_known_values() {
    assert_eq!(to_rgbe8(bits(1e-32), bits(0.0), bits(0.0)), [207, 0, 0, 22]);
    assert_eq!(to_rgbe8(bits(0.75), bits(0.75), bits(0.75)), [192, 192, 192, 128]);
    assert_eq!(to_rgbe8(bits(100.0), bits(50.0), bits(1.0)), [200, 100, 2, 135]);
    assert_eq!(to_rgbe8(bits(0.5), bits(-1.0), bits(0.1)), [128, 0, 25, 128]);
    assert_eq!(to_rgbe8(bits(f64::NAN), bits(2.0), bits(1.0)), [255, 128, 64, 130]);
    // the exponent byte wraps
    assert_eq!(to_rgbe8(bits(2.0f64.powi(127)), bits(0.0), bits(0.0)), [128, 0, 0, 0]);
    assert_eq!(to_rgbe8(bits(2.0f64.powi(200)), bits(0.0), bits(0.0)), [128, 0, 0, 73]);
    assert_eq!(to_rgbe8(bits(f64::MAX), bits(0.0), bits(0.0)), [255, 0, 0, 128]);
    // no largest channel to split
    assert_eq!(to_rgbe8(bits(f64::INFINITY), bits(1.0), bits(0.0)), [255, 255, 255, 128]);
    assert_eq!(to_rgbe8(bits(f64::NAN), bits(f64::NAN), bits(f64::NAN)), [255, 255, 255, 128]);
}

#[test]
fn rgbe8_agrees_with_floats() {
    let mut state = 0x2545_f491_4f6c_dd1du64;
    let mut next = move || {
        state ^= state >> 12;
        state ^= state << 25;
        state ^= state >> 27;
        state.wrapping_mul(0x2545_F491_4F6C_DD1D)
    };
    for _ in 0..50_000 {
        let mut sample = || {
            let raw = next();
            let magnitude = (raw % 1_000_000) as f64 / 1_000_000.0;
            let scale = 2.0f64.powi((next() % 40) as i32 - 20);
            match next() % 16 {
                0 => 0.0,
                1 => -magnitude * scale,
                _ => magnitude * scale,
            }
        };
        let (r, g, b) = (sample(), sample(), sample());
        assert_eq!(to_rgbe8(bits(r), bits(g), bits(b)), rgbe_by_floats(r, g, b), "{} {} {}", r, g, b);
    }
}
