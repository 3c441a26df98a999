//! Color samples and their conversion between color spaces.
//!
//! A conversion goes from the source space to CIE XYZ and from there to the
//! destination space. It works on the red, green and blue components only:
//! alpha passes through untouched. The arithmetic is that of
//! double-precision numbers, done on their bit patterns (see
//! [`crate::ieee`]). The one operation that is not defined there, raising a
//! number to a power for the sRGB transfer curve, is handed in by the caller
//! as a function of base and exponent.

use crate::ieee::{
    at_most,
    difference,
    divide,
    le,
    minus,
    multiply,
    plus,
    product,
    quotient,
    sum,
    ONE,
};
use crate::variant::ColorSpace;
use vstd::prelude::*;

verus! {

/// The number 0.4124.
pub const XYZ_X_R: u64 = 0x3fda_64c2_f837_b4a2;

/// The number 0.3576.
pub const XYZ_X_G: u64 = 0x3fd6_e2eb_1c43_2ca5;

/// The number 0.1805.
pub const XYZ_X_B: u64 = 0x3fc7_1a9f_be76_c8b4;

/// The number 0.2126.
pub const XYZ_Y_R: u64 = 0x3fcb_367a_0f90_96bc;

/// The number 0.7152.
pub const XYZ_Y_G: u64 = 0x3fe6_e2eb_1c43_2ca5;

/// The number 0.0722.
pub const XYZ_Y_B: u64 = 0x3fb2_7bb2_fec5_6d5d;

/// The number 0.0193.
pub const XYZ_Z_R: u64 = 0x3f93_c361_1340_4ea5;

/// The number 0.1192.
pub const XYZ_Z_G: u64 = 0x3fbe_83e4_25ae_e632;

/// The number 0.9505.
pub const XYZ_Z_B: u64 = 0x3fee_6a7e_f9db_22d1;

/// The number 3.2406.
pub const RGB_R_X: u64 = 0x4009_ecbf_b15b_573f;

/// The number 1.5372.
pub const RGB_R_Y: u64 = 0x3ff8_985f_06f6_9446;

/// The number 0.4986.
pub const RGB_R_Z: u64 = 0x3fdf_e90f_f972_4745;

/// The number -0.9689.
pub const RGB_G_X: u64 = 0xbfef_013a_92a3_0553;

/// The number 1.8758.
pub const RGB_G_Y: u64 = 0x3ffe_0346_dc5d_6388;

/// The number 0.0415.
pub const RGB_G_Z: u64 = 0x3fa5_3f7c_ed91_6873;

/// The number 0.0557.
pub const RGB_B_X: u64 = 0x3fac_84b5_dcc6_3f14;

/// The number 0.2040.
pub const RGB_B_Y: u64 = 0x3fca_1cac_0831_26e9;

/// The number 1.0570.
pub const RGB_B_Z: u64 = 0x3ff0_e978_d4fd_f3b6;

/// The number 0.0031308: up to here the sRGB curve is a straight line, seen
/// from the linear side.
pub const LINEAR_KNEE: u64 = 0x3f69_a5c3_7387_b719;

/// The number 0.04045: up to here the sRGB curve is a straight line, seen
/// from the encoded side.
pub const GAMMA_KNEE: u64 = 0x3fa4_b5dc_c63f_1412;

/// The number 12.92, the slope of the straight part of the sRGB curve.
pub const SLOPE: u64 = 0x4029_d70a_3d70_a3d7;

/// The number 1.055.
pub const SCALE: u64 = 0x3ff0_e147_ae14_7ae1;

/// The number 0.055.
pub const OFFSET: u64 = 0x3fac_28f5_c28f_5c29;

/// The number 2.4, the exponent of the curved part of the sRGB curve.
pub const GAMMA: u64 = 0x4003_3333_3333_3333;

/// A single color sample. Each component is the bit pattern of a
/// double-precision number, as `f64::to_bits` gives it.
#[derive(Clone, Copy, Debug, PartialEq, Eq, Structural)]
pub struct Pixel {
    /// Red, or the first component of whatever the color space holds.
    pub r: u64,
    /// Green, or the second component.
    pub g: u64,
    /// Blue, or the third component.
    pub b: u64,
    /// Alpha.
    pub a: u64,
}

impl Default for Pixel {
    /// The pixel whose four components are zero.
    fn default() -> (pixel: Pixel)
        ensures
            pixel == (Pixel { r: 0, g: 0, b: 0, a: 0 }),
    {
        Pixel { r: 0, g: 0, b: 0, a: 0 }
    }
}

/// `a * x + b * y + c * z`, each step rounded, from left to right.
pub open spec fn weighted_sum(a: u64, x: u64, b: u64, y: u64, c: u64, z: u64) -> u64 {
    sum(sum(product(a, x), product(b, y)), product(c, z))
}

/// What linear sRGB components are in CIE XYZ. Alpha is kept.
pub open spec fn linear_srgb_to_xyz(pixel: Pixel) -> Pixel {
    Pixel {
        r: weighted_sum(XYZ_X_R, pixel.r, XYZ_X_G, pixel.g, XYZ_X_B, pixel.b),
        g: weighted_sum(XYZ_Y_R, pixel.r, XYZ_Y_G, pixel.g, XYZ_Y_B, pixel.b),
        b: weighted_sum(XYZ_Z_R, pixel.r, XYZ_Z_G, pixel.g, XYZ_Z_B, pixel.b),
        a: pixel.a,
    }
}

/// What CIE XYZ components are in linear sRGB. Alpha is kept.
pub open spec fn xyz_to_linear_srgb(pixel: Pixel) -> Pixel {
    Pixel {
        r: difference(
            difference(product(RGB_R_X, pixel.r), product(RGB_R_Y, pixel.g)),
            product(RGB_R_Z, pixel.b),
        ),
        g: weighted_sum(RGB_G_X, pixel.r, RGB_G_Y, pixel.g, RGB_G_Z, pixel.b),
        b: sum(
            difference(product(RGB_B_X, pixel.r), product(RGB_B_Y, pixel.g)),
            product(RGB_B_Z, pixel.b),
        ),
        a: pixel.a,
    }
}

/// Whether `encoded` is what the sRGB curve makes of the linear component
/// `x`: up to 0.0031308, 12.92 times `x`; beyond, 1.055 times `x` to the
/// power 1/2.4, less 0.055, the power being one that `powf` may return.
pub open spec fn is_gamma_encoded<F: Fn(u64, u64) -> u64>(x: u64, encoded: u64, powf: F) -> bool {
    if at_most(x, LINEAR_KNEE) {
        encoded == product(SLOPE, x)
    } else {
        exists|power: u64| #[trigger]
            call_ensures(powf, (x, quotient(ONE, GAMMA)), power) && encoded == difference(
                product(SCALE, power),
                OFFSET,
            )
    }
}

/// Whether `linear` is what the sRGB curve, read backwards, makes of the
/// encoded component `x`: up to 0.04045, `x` over 12.92; beyond, `x` plus
/// 0.055, over 1.055, to the power 2.4, the power being one that `powf` may
/// return.
pub open spec fn is_gamma_decoded<F: Fn(u64, u64) -> u64>(x: u64, linear: u64, powf: F) -> bool {
    if at_most(x, GAMMA_KNEE) {
        linear == quotient(x, SLOPE)
    } else {
        call_ensures(powf, (quotient(sum(x, OFFSET), SCALE), GAMMA), linear)
    }
}

/// Whether `powf` may be called with every base and exponent.
pub open spec fn is_total<F: Fn(u64, u64) -> u64>(powf: F) -> bool {
    forall|base: u64, exponent: u64| call_requires(powf, (base, exponent))
}

impl Pixel {
    /// Whether `xyz` is this pixel, taken from `color_space` to CIE XYZ.
    ///
    /// Data without color and CIE XYZ itself are left as they are. Linear
    /// sRGB goes through the matrix. sRGB is first decoded, component by
    /// component, and then goes through the matrix.
    pub open spec fn is_in_cie_xyz<F: Fn(u64, u64) -> u64>(
        self,
        color_space: ColorSpace,
        xyz: Pixel,
        powf: F,
    ) -> bool {
        match color_space {
            ColorSpace::NonColor | ColorSpace::CIEXYZ => xyz == self,
            ColorSpace::LinearSRGB => xyz == linear_srgb_to_xyz(self),
            ColorSpace::SRGB => exists|linear: Pixel|
                #![trigger linear_srgb_to_xyz(linear)]
                {
                    &&& is_gamma_decoded(self.r, linear.r, powf)
                    &&& is_gamma_decoded(self.g, linear.g, powf)
                    &&& is_gamma_decoded(self.b, linear.b, powf)
                    &&& linear.a == self.a
                    &&& xyz == linear_srgb_to_xyz(linear)
                },
        }
    }

    /// Whether `out` is this pixel, taken from CIE XYZ to `color_space`.
    ///
    /// Data without color and CIE XYZ itself are left as they are. For
    /// linear sRGB the pixel goes through the inverse matrix. For sRGB it
    /// goes through the inverse matrix and is then encoded, component by
    /// component.
    pub open spec fn is_from_cie_xyz<F: Fn(u64, u64) -> u64>(
        self,
        color_space: ColorSpace,
        out: Pixel,
        powf: F,
    ) -> bool {
        match color_space {
            ColorSpace::NonColor | ColorSpace::CIEXYZ => out == self,
            ColorSpace::LinearSRGB => out == xyz_to_linear_srgb(self),
            ColorSpace::SRGB => {
                let linear = xyz_to_linear_srgb(self);
                &&& is_gamma_encoded(linear.r, out.r, powf)
                &&& is_gamma_encoded(linear.g, out.g, powf)
                &&& is_gamma_encoded(linear.b, out.b, powf)
                &&& out.a == self.a
            },
        }
    }

    /// Makes a pixel of four components.
    pub fn new(r: u64, g: u64, b: u64, a: u64) -> (pixel: Pixel)
        ensures
            pixel == (Pixel { r, g, b, a }),
    {
        Pixel { r, g, b, a }
    }

    /// Takes the pixel from `color_space` to CIE XYZ.
    pub fn convert_into_cie_xyz<F: Fn(u64, u64) -> u64>(
        self,
        color_space: ColorSpace,
        powf: &F,
    ) -> (xyz: Pixel)
        requires
            is_total(*powf),
        ensures
            self.is_in_cie_xyz(color_space, xyz, *powf),
            xyz.a == self.a,
    {
        match color_space {
            ColorSpace::NonColor | ColorSpace::CIEXYZ => self,
            ColorSpace::LinearSRGB => self.convert_into_cie_xyz_from_linear_srgb(),
            ColorSpace::SRGB => {
                let mut pixel = self;
                pixel.r = Self::convert_from_gamma_srgb(pixel.r, powf);
                pixel.g = Self::convert_from_gamma_srgb(pixel.g, powf);
                pixel.b = Self::convert_from_gamma_srgb(pixel.b, powf);
                let xyz = pixel.convert_into_cie_xyz_from_linear_srgb();
                assert(xyz == linear_srgb_to_xyz(pixel));
                xyz
            },
        }
    }

    /// Takes the pixel from CIE XYZ to `color_space`.
    pub fn convert_from_cie_xyz<F: Fn(u64, u64) -> u64>(
        self,
        color_space: ColorSpace,
        powf: &F,
    ) -> (out: Pixel)
        requires
            is_total(*powf),
        ensures
            self.is_from_cie_xyz(color_space, out, *powf),
            out.a == self.a,
    {
        match color_space {
            ColorSpace::NonColor | ColorSpace::CIEXYZ => self,
            ColorSpace::LinearSRGB => self.convert_from_cie_xyz_into_linear_srgb(),
            ColorSpace::SRGB => {
                let mut pixel = self.convert_from_cie_xyz_into_linear_srgb();
                pixel.r = Self::convert_into_gamma_srgb(pixel.r, powf);
                pixel.g = Self::convert_into_gamma_srgb(pixel.g, powf);
                pixel.b = Self::convert_into_gamma_srgb(pixel.b, powf);
                pixel
            },
        }
    }

    /// Whether `out` is this pixel taken from `source` to `output` by way of
    /// CIE XYZ.
    pub open spec fn is_converted<F: Fn(u64, u64) -> u64>(
        self,
        source: ColorSpace,
        output: ColorSpace,
        out: Pixel,
        powf: F,
    ) -> bool {
        exists|xyz: Pixel|
            #![trigger self.is_in_cie_xyz(source, xyz, powf)]
            self.is_in_cie_xyz(source, xyz, powf) && xyz.is_from_cie_xyz(output, out, powf)
    }

    /// Takes the pixel from `source` to `output` by way of CIE XYZ. Alpha
    /// is left as it is.
    pub fn convert<F: Fn(u64, u64) -> u64>(
        self,
        source: ColorSpace,
        output: ColorSpace,
        powf: &F,
    ) -> (out: Pixel)
        requires
            is_total(*powf),
        ensures
            self.is_converted(source, output, out, *powf),
            out.a == self.a,
    {
        let xyz = self.convert_into_cie_xyz(source, powf);
        xyz.convert_from_cie_xyz(output, powf)
    }

    /// Takes linear sRGB components to CIE XYZ.
    pub fn convert_into_cie_xyz_from_linear_srgb(self) -> (xyz: Pixel)
        ensures
            xyz == linear_srgb_to_xyz(self),
    {
        Pixel {
            r: weigh(XYZ_X_R, self.r, XYZ_X_G, self.g, XYZ_X_B, self.b),
            g: weigh(XYZ_Y_R, self.r, XYZ_Y_G, self.g, XYZ_Y_B, self.b),
            b: weigh(XYZ_Z_R, self.r, XYZ_Z_G, self.g, XYZ_Z_B, self.b),
            a: self.a,
        }
    }

    /// Takes CIE XYZ components to linear sRGB.
    pub fn convert_from_cie_xyz_into_linear_srgb(self) -> (linear: Pixel)
        ensures
            linear == xyz_to_linear_srgb(self),
    {
        Pixel {
            r: minus(
                minus(multiply(RGB_R_X, self.r), multiply(RGB_R_Y, self.g)),
                multiply(RGB_R_Z, self.b),
            ),
            g: weigh(RGB_G_X, self.r, RGB_G_Y, self.g, RGB_G_Z, self.b),
            b: plus(
                minus(multiply(RGB_B_X, self.r), multiply(RGB_B_Y, self.g)),
                multiply(RGB_B_Z, self.b),
            ),
            a: self.a,
        }
    }

    /// Encodes one linear component with the sRGB curve.
    pub fn convert_into_gamma_srgb<F: Fn(u64, u64) -> u64>(x: u64, powf: &F) -> (encoded: u64)
        requires
            is_total(*powf),
        ensures
            is_gamma_encoded(x, encoded, *powf),
    {
        if le(x, LINEAR_KNEE) {
            multiply(SLOPE, x)
        } else {
            let power = powf(x, divide(ONE, GAMMA));
            minus(multiply(SCALE, power), OFFSET)
        }
    }

    /// Decodes one sRGB component to its linear value.
    pub fn convert_from_gamma_srgb<F: Fn(u64, u64) -> u64>(x: u64, powf: &F) -> (linear: u64)
        requires
            is_total(*powf),
        ensures
            is_gamma_decoded(x, linear, *powf),
    {
        if le(x, GAMMA_KNEE) {
            divide(x, SLOPE)
        } else {
            powf(divide(plus(x, OFFSET), SCALE), GAMMA)
        }
    }
}

/// Returns `a * x + b * y + c * z`, each step rounded, from left to right.
fn weigh(a: u64, x: u64, b: u64, y: u64, c: u64, z: u64) -> (total: u64)
    ensures
        total == weighted_sum(a, x, b, y, c, z),
{
    plus(plus(multiply(a, x), multiply(b, y)), multiply(c, z))
}

/// No conversion touches alpha: whatever the two color spaces, and
/// whatever `powf` returns, the converted pixel has the alpha of the pixel it
/// was made from, bit for bit.
pub proof fn lemma_alpha_is_kept<F: Fn(u64, u64) -> u64>(
    pixel: Pixel,
    source: ColorSpace,
    output: ColorSpace,
    out: Pixel,
    powf: F,
)
    requires
        pixel.is_converted(source, output, out, powf),
    ensures
        out.a == pixel.a,
{
    let xyz = choose|xyz: Pixel|
        #![trigger pixel.is_in_cie_xyz(source, xyz, powf)]
        pixel.is_in_cie_xyz(source, xyz, powf) && xyz.is_from_cie_xyz(output, out, powf);
    assert(xyz.a == pixel.a);
}

/// Data without color and CIE XYZ are not transformed: a pixel taken from
/// one of the two to one of the two is left as it is.
pub proof fn lemma_plain_spaces_are_kept<F: Fn(u64, u64) -> u64>(
    pixel: Pixel,
    source: ColorSpace,
    output: ColorSpace,
    out: Pixel,
    powf: F,
)
    requires
        source == ColorSpace::NonColor || source == ColorSpace::CIEXYZ,
        output == ColorSpace::NonColor || output == ColorSpace::CIEXYZ,
        pixel.is_converted(source, output, out, powf),
    ensures
        out == pixel,
{
}

} // verus!
