//! Conversion between color spaces.

use img2raw::color::Pixel;
use img2raw::image::{plan_conversion, Image, InvalidConfiguration};
use img2raw::ColorSpace;

const SPACES: [ColorSpace; 4] = [
    ColorSpace::NonColor,
    ColorSpace::CIEXYZ,
    ColorSpace::SRGB,
    ColorSpace::LinearSRGB,
];

fn powf(base: u64, exponent: u64) -> u64 {
    f64::from_bits(base).powf(f64::from_bits(exponent)).to_bits()
}

fn pixel(r: f64, g: f64, b: f64, a: f64) -> Pixel {
    Pixel::new(r.to_bits(), g.to_bits(), b.to_bits(), a.to_bits())
}

fn floats(pixel: Pixel) -> [f64; 4] {
    [
        f64::from_bits(pixel.r),
        f64::from_bits(pixel.g),
        f64::from_bits(pixel.b),
        f64::from_bits(pixel.a),
    ]
}

fn into_gamma(x: f64) -> f64 {
    if x <= 0.003_130_8 {
        12.92 * x
    } else {
        1.055 * x.powf(1.0 / 2.4) - 0.055
    }
}

fn from_gamma(x: f64) -> f64 {
    if x <= 0.040_45 {
        x / 12.92
    } else {
        ((x + 0.055) / 1.055).powf(2.4)
    }
}

fn into_xyz(p: [f64; 4]) -> [f64; 4] {
    [
        0.4124 * p[0] + 0.3576 * p[1] + 0.1805 * p[2],
        0.2126 * p[0] + 0.7152 * p[1] + 0.0722 * p[2],
        0.0193 * p[0] + 0.1192 * p[1] + 0.9505 * p[2],
        p[3],
    ]
}

fn from_xyz(p: [f64; 4]) -> [f64; 4] {
    [
        3.2406 * p[0] - 1.5372 * p[1] - 0.4986 * p[2],
        -0.9689 * p[0] + 1.8758 * p[1] + 0.0415 * p[2],
        0.0557 * p[0] - 0.2040 * p[1] + 1.0570 * p[2],
        p[3],
    ]
}

fn same(got: Pixel, expected: [f64; 4]) -> bool {
    floats(got)
        .iter()
        .zip(expected)
        .all(|(g, e)| g.to_bits() == e.to_bits() || (g.is_nan() && e.is_nan()))
}

fn samples() -> Vec<[f64; 4]> {
    let mut all = vec![
        [0.5, 0.25, 0.75, 1.0],
        [0.0, 0.0, 0.0, 0.0],
        [1.0, 1.0, 1.0, 0.5],
        [0.001, 0.04045, 0.0031308, 0.25],
        [0.04, 0.041, 0.003, 0.0032],
        [-0.5, 2.0, 1e-30, -1.0],
        [16.0, 1e6, 3.5e-9, 1e300],
        [f64::INFINITY, 1.0, 0.0, f64::NAN],
        [f64::NAN, 0.5, 0.5, 0.5],
    ];
    let mut state = 0x1234_5678u64;
    for _ in 0..5000 {
        let mut next = || {
            state = state.wrapping_mul(6364136223846793005).wrapping_add(1442695040888963407);
            ((state >> 11) as f64) / ((1u64 << 53) as f64)
        };
        all.push([next(), next(), next(), next()]);
        all.push([next() * 4.0 - 1.0, next() * 1e-3, next() * 1e4, next()]);
    }
    all
}

#[test]
fn default_pixel_is_zero() {
    assert_eq!(Pixel::default(), Pixel::new(0, 0, 0, 0));
    assert_eq!(floats(Pixel::default()), [0.0, 0.0, 0.0, 0.0]);
}

// The two matrices are inverse to each other only as far as their four
// decimal places go, so a pixel comes back within 2e-5 of itself.
#[test]
fn srgb_round_trip() {
    let p = pixel(0.5, 0.25, 0.75, 1.0);
    let back = p
        .convert_into_cie_xyz(ColorSpace::SRGB, &powf)
        .convert_from_cie_xyz(ColorSpace::SRGB, &powf);
    for (got, expected) in floats(back).iter().zip([0.5, 0.25, 0.75, 1.0]) {
        assert!((got - expected).abs() <= 2e-5, "{} {}", got, expected);
    }
    assert_eq!(back.a, p.a);
}

#[test]
fn linear_srgb_round_trip() {
    let p = pixel(0.5, 0.25, 0.75, 1.0);
    let back = p
        .convert_into_cie_xyz(ColorSpace::LinearSRGB, &powf)
        .convert_from_cie_xyz(ColorSpace::LinearSRGB, &powf);
    for (got, expected) in floats(back).iter().zip([0.5, 0.25, 0.75, 1.0]) {
        assert!((got - expected).abs() <= 2e-5, "{} {}", got, expected);
    }
    assert_eq!(back.a, p.a);
}

#[test]
fn gamma_round_trip() {
    for step in 0..=1000 {
        let x = step as f64 / 1000.0;
        let encoded = Pixel::convert_into_gamma_srgb(x.to_bits(), &powf);
        let decoded = f64::from_bits(Pixel::convert_from_gamma_srgb(encoded, &powf));
        assert!((decoded - x).abs() <= 1e-6, "{} {}", x, decoded);
    }
}

#[test]
fn gamma_agrees_with_floats() {
    for step in -100..=2000 {
        let x = step as f64 / 1000.0;
        assert_eq!(Pixel::convert_into_gamma_srgb(x.to_bits(), &powf), into_gamma(x).to_bits(), "{}", x);
        assert_eq!(Pixel::convert_from_gamma_srgb(x.to_bits(), &powf), from_gamma(x).to_bits(), "{}", x);
    }
    for x in [0.0031308f64, 0.04045, 0.0031307999999999997, 0.040450000000000005] {
        assert_eq!(Pixel::convert_into_gamma_srgb(x.to_bits(), &powf), into_gamma(x).to_bits());
        assert_eq!(Pixel::convert_from_gamma_srgb(x.to_bits(), &powf), from_gamma(x).to_bits());
    }
    let encoded = f64::from_bits(Pixel::convert_into_gamma_srgb(0.5f64.to_bits(), &powf));
    assert!((encoded - 0.7353569830524495).abs() < 1e-14, "{}", encoded);
    let decoded = f64::from_bits(Pixel::convert_from_gamma_srgb(0.5f64.to_bits(), &powf));
    assert!((decoded - 0.21404114048223255).abs() < 1e-14, "{}", decoded);
    assert_eq!(Pixel::convert_into_gamma_srgb(0.0f64.to_bits(), &powf), 0.0f64.to_bits());
    assert_eq!(Pixel::convert_from_gamma_srgb(0.0f64.to_bits(), &powf), 0.0f64.to_bits());
    assert_eq!(Pixel::convert_into_gamma_srgb(0.002f64.to_bits(), &powf), 0.025840000000000002f64.to_bits());
    assert_eq!(Pixel::convert_from_gamma_srgb(0.02584f64.to_bits(), &powf), 0.002f64.to_bits());
}

#[test]
fn the_straight_part_never_asks_for_a_power() {
    let never = |_: u64, _: u64| -> u64 { panic!("no power is needed here") };
    assert_eq!(Pixel::convert_into_gamma_srgb(0.002f64.to_bits(), &never), (12.92f64 * 0.002).to_bits());
    assert_eq!(Pixel::convert_from_gamma_srgb(0.03f64.to_bits(), &never), (0.03f64 / 12.92).to_bits());
    let p = pixel(0.5, 0.25, 0.75, 1.0);
    for space in [ColorSpace::NonColor, ColorSpace::CIEXYZ, ColorSpace::LinearSRGB] {
        p.convert_into_cie_xyz(space, &never);
        p.convert_from_cie_xyz(space, &never);
    }
}

#[test]
fn the_curved_part_is_handed_base_and_exponent() {
    // a power function that shows what it was given
    let first = |base: u64, _: u64| -> u64 { base };
    let second = |_: u64, exponent: u64| -> u64 { exponent };
    let x = 0.5f64;
    assert_eq!(Pixel::convert_from_gamma_srgb(x.to_bits(), &first), ((x + 0.055) / 1.055).to_bits());
    assert_eq!(Pixel::convert_from_gamma_srgb(x.to_bits(), &second), 2.4f64.to_bits());
    assert_eq!(Pixel::convert_into_gamma_srgb(x.to_bits(), &first), (1.055 * x - 0.055).to_bits());
    assert_eq!(
        Pixel::convert_into_gamma_srgb(x.to_bits(), &second),
        (1.055 * (1.0f64 / 2.4) - 0.055).to_bits()
    );
}

#[test]
fn matrix_known_values() {
    let white = pixel(1.0, 1.0, 1.0, 1.0).convert_into_cie_xyz_from_linear_srgb();
    assert_eq!(floats(white), [0.4124 + 0.3576 + 0.1805, 0.2126 + 0.7152 + 0.0722, 0.0193 + 0.1192 + 0.9505, 1.0]);
    let red = pixel(1.0, 0.0, 0.0, 0.0).convert_into_cie_xyz_from_linear_srgb();
    assert_eq!(floats(red), [0.4124, 0.2126, 0.0193, 0.0]);
    let x = pixel(1.0, 0.0, 0.0, 0.25).convert_from_cie_xyz_into_linear_srgb();
    assert_eq!(floats(x), [3.2406, -0.9689, 0.0557, 0.25]);
    let y = pixel(0.0, 1.0, 0.0, 0.25).convert_from_cie_xyz_into_linear_srgb();
    assert_eq!(floats(y), [-1.5372, 1.8758, -0.2040, 0.25]);
}

#[test]
fn conversion_agrees_with_floats() {
    for sample in samples() {
        let p = pixel(sample[0], sample[1], sample[2], sample[3]);
        assert!(same(p.convert_into_cie_xyz_from_linear_srgb(), into_xyz(sample)), "{:?}", sample);
        assert!(same(p.convert_from_cie_xyz_into_linear_srgb(), from_xyz(sample)), "{:?}", sample);
        assert!(same(p.convert_into_cie_xyz(ColorSpace::LinearSRGB, &powf), into_xyz(sample)));
        assert!(same(p.convert_from_cie_xyz(ColorSpace::LinearSRGB, &powf), from_xyz(sample)));
        let decoded = [from_gamma(sample[0]), from_gamma(sample[1]), from_gamma(sample[2]), sample[3]];
        assert!(same(p.convert_into_cie_xyz(ColorSpace::SRGB, &powf), into_xyz(decoded)), "{:?}", sample);
        let linear = from_xyz(sample);
        let encoded = [into_gamma(linear[0]), into_gamma(linear[1]), into_gamma(linear[2]), sample[3]];
        assert!(same(p.convert_from_cie_xyz(ColorSpace::SRGB, &powf), encoded), "{:?}", sample);
    }
}

#[test]
fn spaces_without_transform_are_identity() {
    for sample in samples().into_iter().take(200) {
        let p = pixel(sample[0], sample[1], sample[2], sample[3]);
        for space in [ColorSpace::NonColor, ColorSpace::CIEXYZ] {
            assert_eq!(p.convert_into_cie_xyz(space, &powf), p);
            assert_eq!(p.convert_from_cie_xyz(space, &powf), p);
        }
        assert_eq!(p.convert(ColorSpace::NonColor, ColorSpace::CIEXYZ, &powf), p);
    }
}

#[test]
fn alpha_is_never_touched() {
    for sample in samples() {
        let p = pixel(sample[0], sample[1], sample[2], sample[3]);
        for source in SPACES {
            assert_eq!(p.convert_into_cie_xyz(source, &powf).a, p.a);
            assert_eq!(p.convert_from_cie_xyz(source, &powf).a, p.a);
            for output in SPACES {
                assert_eq!(p.convert(source, output, &powf).a, p.a);
            }
        }
    }
    // bit for bit, whatever the bits are
    let odd = Pixel::new(1, 2, 3, 0x7ff8_dead_beef_0001);
    assert_eq!(odd.convert(ColorSpace::SRGB, ColorSpace::LinearSRGB, &powf).a, 0x7ff8_dead_beef_0001);
}

#[test]
fn pixel_convert_goes_through_xyz() {
    for sample in samples().into_iter().take(500) {
        let p = pixel(sample[0], sample[1], sample[2], sample[3]);
        for source in SPACES {
            for output in SPACES {
                let expected = p.convert_into_cie_xyz(source, &powf).convert_from_cie_xyz(output, &powf);
                assert_eq!(p.convert(source, output, &powf), expected);
            }
        }
    }
}

#[test]
fn plan_of_conversion() {
    for source in SPACES {
        for output in SPACES {
            let plan = plan_conversion(source, output);
            if source == output {
                assert_eq!(plan, Ok(false));
            } else if source == ColorSpace::NonColor {
                assert_eq!(plan, Err(InvalidConfiguration::NonColorSource));
            } else if output == ColorSpace::NonColor {
                assert_eq!(plan, Err(InvalidConfiguration::NonColorOutput));
            } else {
                assert_eq!(plan, Ok(true));
            }
        }
    }
    assert_eq!(
        plan_conversion(ColorSpace::NonColor, ColorSpace::SRGB),
        Err(InvalidConfiguration::NonColorSource)
    );
    assert_eq!(
        plan_conversion(ColorSpace::SRGB, ColorSpace::NonColor),
        Err(InvalidConfiguration::NonColorOutput)
    );
}

#[test]
fn refusal_messages() {
    assert_eq!(
        InvalidConfiguration::NonColorSource.message(),
        "non-color source requires non-color output"
    );
    assert_eq!(
        InvalidConfiguration::NonColorOutput.message(),
        "non-color output requires non-color source"
    );
}

#[test]
fn new_image_is_black() {
    let image = Image::new(3, 2);
    assert_eq!(image.width, 3);
    assert_eq!(image.height, 2);
    assert_eq!(image.pixels, vec![Pixel::default(); 6]);
    assert!(Image::new(0, 5).pixels.is_empty());
    assert!(Image::new(5, 0).pixels.is_empty());
}

fn small_image() -> Image {
    let mut image = Image::new(2, 2);
    image.pixels[0] = pixel(0.5, 0.25, 0.75, 1.0);
    image.pixels[1] = pixel(1.0, 0.0, 0.0, 0.5);
    image.pixels[2] = pixel(0.0, 0.02, 2.0, 0.0);
    image.pixels[3] = pixel(0.1, 0.2, 0.3, 0.4);
    image
}

#[test]
fn image_convert_converts_every_pixel() {
    let mut image = small_image();
    let before = image.pixels.clone();
    assert_eq!(image.convert(ColorSpace::SRGB, ColorSpace::CIEXYZ, &powf), Ok(()));
    assert_eq!(image.width, 2);
    assert_eq!(image.height, 2);
    assert_eq!(image.pixels.len(), 4);
    for (after, before) in image.pixels.iter().zip(&before) {
        assert_eq!(*after, before.convert(ColorSpace::SRGB, ColorSpace::CIEXYZ, &powf));
        assert_eq!(after.a, before.a);
    }
    assert_ne!(image.pixels, before);
}

#[test]
fn image_convert_skips_equal_spaces() {
    for space in SPACES {
        let mut image = small_image();
        let before = image.pixels.clone();
        let never = |_: u64, _: u64| -> u64 { panic!("nothing is to be converted") };
        assert_eq!(image.convert(space, space, &never), Ok(()));
        assert_eq!(image.pixels, before);
    }
}

#[test]
fn image_convert_refuses_non_color_mix() {
    for other in [ColorSpace::CIEXYZ, ColorSpace::SRGB, ColorSpace::LinearSRGB] {
        let mut image = small_image();
        let before = image.pixels.clone();
        let never = |_: u64, _: u64| -> u64 { panic!("no pixel is to be touched") };
        assert_eq!(
            image.convert(ColorSpace::NonColor, other, &never),
            Err(InvalidConfiguration::NonColorSource)
        );
        assert_eq!(image.pixels, before);
        assert_eq!(
            image.convert(other, ColorSpace::NonColor, &never),
            Err(InvalidConfiguration::NonColorOutput)
        );
        assert_eq!(image.pixels, before);
    }
}
