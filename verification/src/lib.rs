//! The `img2raw` pixel-data format: an optional sixteen-byte header followed
//! by raw pixel data in one of eleven layouts.
//!
//! * [`variant`]: the color spaces and data formats, with their codes and
//!   names.
//! * [`header`]: the header and its sixteen bytes.
//! * [`color`] and [`image`]: pixels, images, and their conversion from one
//!   color space to another by way of CIE XYZ.
//! * [`quantize`] and [`encode`]: what each data format stores for a sample,
//!   and the pixel-data section with its row padding.
//! * [`ieee`]: the arithmetic underneath. A sample is a double-precision
//!   number carried as its bit pattern, and every operation on it is integer
//!   arithmetic on that pattern, defined and proved here.
//! * [`sink`]: little-endian integers appended to a byte buffer.
//!
//! Two operations are not defined in this crate and are handed in by the
//! caller as functions on bit patterns: raising a number to a power, for the
//! sRGB transfer curve, and converting a number to half precision, for the
//! 16-bit formats.

pub mod color;
pub mod encode;
pub mod header;
pub mod ieee;
pub mod image;
pub mod quantize;
pub mod sink;
pub mod variant;

pub use color::Pixel;
pub use header::{ColorSpaceInfo, DataFormatInfo, Header, HEADER_LEN};
pub use image::{plan_conversion, Image, InvalidConfiguration};
pub use variant::{ColorSpace, DataFormat, UnknownVariant};
