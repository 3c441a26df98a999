//! The pixel-data section: every pixel of an image in one of the eleven
//! data formats, rows from the top, pixels from the left.
//!
//! Each pixel becomes a few bytes, its texel. The texels of a row follow
//! one another; in the formats `R8` and `R16F` each row is then filled up
//! with zero bytes to a multiple of four bytes. The rows follow one another.
//!
//! The bytes are appended to a `Vec<u8>`. Half-precision formats need one
//! thing from outside: the function that turns a double-precision bit
//! pattern into a half-precision one. It is handed in by the caller and is
//! only ever given values already held to the range of half precision.

use crate::color::Pixel;
use crate::header::{header_bytes, Header};
use crate::ieee::{narrowed, to_binary32};
use crate::image::Image;
use crate::quantize::{
    half_range,
    lemma_rgbe8_len,
    rgbe8,
    safe_f64_to_f16,
    to_rgbe8,
    to_unorm8,
    unorm8,
};
use crate::sink::{le_bytes_u16, le_bytes_u32, put_u16_le, put_u32_le, put_u8};
use crate::variant::{ColorSpace, DataFormat};
use vstd::prelude::*;

verus! {

/// A pixel in half precision: each component is a 16-bit pattern.
#[derive(Clone, Copy, Debug, PartialEq, Eq, Structural)]
pub struct HalfPixel {
    /// Red.
    pub r: u16,
    /// Green.
    pub g: u16,
    /// Blue.
    pub b: u16,
    /// Alpha.
    pub a: u16,
}

/// Whether the format stores half-precision numbers.
pub open spec fn stores_halves(format: DataFormat) -> bool {
    format == DataFormat::R16F || format == DataFormat::RG16F || format == DataFormat::RGBA16F
        || format == DataFormat::PackedR16F
}

/// Whether the rows of the format are padded at their end.
pub open spec fn pads_rows(format: DataFormat) -> bool {
    format == DataFormat::R8 || format == DataFormat::R16F
}

/// The number of bytes that one pixel takes.
pub open spec fn bytes_per_pixel(format: DataFormat) -> nat {
    match format {
        DataFormat::R32F => 4,
        DataFormat::RG32F => 8,
        DataFormat::RGBA32F => 16,
        DataFormat::R8 => 1,
        DataFormat::PackedR8 => 1,
        DataFormat::R16F => 2,
        DataFormat::RG16F => 4,
        DataFormat::RGBA16F => 8,
        DataFormat::PackedR16F => 2,
        DataFormat::RGBE8 => 4,
        DataFormat::RGBA8 => 4,
    }
}

/// The number of bytes of which the length of every row is a multiple.
pub open spec fn row_alignment(format: DataFormat) -> nat {
    match format {
        DataFormat::PackedR8 => 1,
        DataFormat::PackedR16F => 2,
        _ => 4,
    }
}

/// The number of zero bytes that bring a row of `row_len` bytes to a
/// multiple of four.
pub open spec fn row_padding(row_len: nat) -> nat {
    ((4 - row_len % 4) % 4) as nat
}

/// The number of zero bytes that end each row of `width` pixels.
pub open spec fn padding(format: DataFormat, width: nat) -> nat {
    if pads_rows(format) {
        row_padding(width * bytes_per_pixel(format))
    } else {
        0
    }
}

/// The number of bytes from the start of one row to the start of the
/// next: the pixels of the row and its padding.
pub open spec fn stride(format: DataFormat, width: nat) -> nat {
    width * bytes_per_pixel(format) + padding(format, width)
}

/// `count` zero bytes.
pub open spec fn zeros(count: nat) -> Seq<u8> {
    Seq::new(count, |i: int| 0u8)
}

/// The bytes of one 32-bit floating-point channel: the sample narrowed to
/// single precision, least significant byte first.
pub open spec fn f32_bytes(x: u64) -> Seq<u8> {
    le_bytes_u32(narrowed(x))
}

/// The bytes of one pixel in a format that stores no half precision.
pub open spec fn pixel_bytes(format: DataFormat, pixel: Pixel) -> Seq<u8>
    recommends
        !stores_halves(format),
{
    match format {
        DataFormat::R32F => f32_bytes(pixel.r),
        DataFormat::RG32F => f32_bytes(pixel.r) + f32_bytes(pixel.g),
        DataFormat::RGBA32F => f32_bytes(pixel.r) + f32_bytes(pixel.g) + f32_bytes(pixel.b)
            + f32_bytes(pixel.a),
        DataFormat::R8 | DataFormat::PackedR8 => seq![unorm8(pixel.r)],
        DataFormat::RGBA8 => seq![
            unorm8(pixel.r),
            unorm8(pixel.g),
            unorm8(pixel.b),
            unorm8(pixel.a),
        ],
        DataFormat::RGBE8 => rgbe8(pixel.r, pixel.g, pixel.b),
        _ => Seq::empty(),
    }
}

/// The bytes of one pixel in a format that stores half precision.
pub open spec fn half_pixel_bytes(format: DataFormat, half: HalfPixel) -> Seq<u8>
    recommends
        stores_halves(format),
{
    match format {
        DataFormat::R16F | DataFormat::PackedR16F => le_bytes_u16(half.r),
        DataFormat::RG16F => le_bytes_u16(half.r) + le_bytes_u16(half.g),
        DataFormat::RGBA16F => le_bytes_u16(half.r) + le_bytes_u16(half.g) + le_bytes_u16(half.b)
            + le_bytes_u16(half.a),
        _ => Seq::empty(),
    }
}

/// The texels of a sequence of pixels, in a format that stores no half
/// precision.
pub open spec fn texels(format: DataFormat, pixels: Seq<Pixel>) -> Seq<Seq<u8>>
    recommends
        !stores_halves(format),
{
    Seq::new(pixels.len(), |i: int| pixel_bytes(format, pixels[i]))
}

/// The texels of a sequence of half-precision pixels.
pub open spec fn half_texels(format: DataFormat, halves: Seq<HalfPixel>) -> Seq<Seq<u8>>
    recommends
        stores_halves(format),
{
    Seq::new(halves.len(), |i: int| half_pixel_bytes(format, halves[i]))
}

/// Texels one after the other.
pub open spec fn joined(texels: Seq<Seq<u8>>) -> Seq<u8>
    decreases texels.len(),
{
    if texels.len() == 0 {
        Seq::empty()
    } else {
        joined(texels.drop_last()) + texels.last()
    }
}

/// The bytes of one row: its texels, then its padding.
pub open spec fn row_bytes(format: DataFormat, row: Seq<Seq<u8>>) -> Seq<u8> {
    joined(row) + zeros(padding(format, row.len()))
}

/// The bytes of the first `rows` rows of an image whose rows hold `width`
/// pixels each.
pub open spec fn rows_bytes(format: DataFormat, texels: Seq<Seq<u8>>, width: nat, rows: nat) -> Seq<
    u8,
>
    recommends
        rows * width <= texels.len(),
    decreases rows,
{
    if rows == 0 {
        Seq::empty()
    } else {
        let above = (rows - 1) as nat;
        rows_bytes(format, texels, width, above) + row_bytes(
            format,
            texels.subrange((above * width) as int, (rows * width) as int),
        )
    }
}

/// The pixel-data section made of the given texels. Where the format pads
/// its rows, the texels are laid out row by row; otherwise they simply
/// follow one another, which for an image that holds all its rows is the
/// same (see [`lemma_unpadded_rows`]).
pub open spec fn layout(format: DataFormat, texels: Seq<Seq<u8>>, width: nat, height: nat) -> Seq<
    u8,
> {
    if pads_rows(format) {
        rows_bytes(format, texels, width, height)
    } else {
        joined(texels)
    }
}

/// The pixel-data section of an image in a format that stores no half
/// precision.
pub open spec fn pixel_data(format: DataFormat, image: Image) -> Seq<u8>
    recommends
        !stores_halves(format),
{
    layout(format, texels(format, image.pixels@), image.width as nat, image.height as nat)
}

/// Whether `half` is `pixel` in half precision, as far as `format` stores
/// it: each stored component is what `to_half` may return for the component
/// held to the range of half precision, and the others are zero.
pub open spec fn is_half_of<F: Fn(u64) -> u16>(
    format: DataFormat,
    pixel: Pixel,
    half: HalfPixel,
    to_half: F,
) -> bool {
    let two = format == DataFormat::RG16F || format == DataFormat::RGBA16F;
    let four = format == DataFormat::RGBA16F;
    &&& call_ensures(to_half, (half_range(pixel.r),), half.r)
    &&& if two {
        call_ensures(to_half, (half_range(pixel.g),), half.g)
    } else {
        half.g == 0
    }
    &&& if four {
        call_ensures(to_half, (half_range(pixel.b),), half.b) && call_ensures(
            to_half,
            (half_range(pixel.a),),
            half.a,
        )
    } else {
        half.b == 0 && half.a == 0
    }
}

/// Whether `halves` are `pixels` in half precision, one for one.
pub open spec fn are_halves_of<F: Fn(u64) -> u16>(
    format: DataFormat,
    pixels: Seq<Pixel>,
    halves: Seq<HalfPixel>,
    to_half: F,
) -> bool {
    &&& halves.len() == pixels.len()
    &&& forall|i: int|
        0 <= i < pixels.len() ==> is_half_of(format, pixels[i], #[trigger] halves[i], to_half)
}

/// Whether `to_half` may be called with every value that lies in the
/// range of half precision.
pub open spec fn converts_all<F: Fn(u64) -> u16>(to_half: F) -> bool {
    forall|x: u64| call_requires(to_half, (#[trigger] half_range(x),))
}

/// Whether `texels` are the texels of `pixels` in `format`. Where the
/// format stores half precision, they are the texels of the pixels brought to
/// half precision by `to_half`.
pub open spec fn are_texels_of<F: Fn(u64) -> u16>(
    format: DataFormat,
    pixels: Seq<Pixel>,
    texels: Seq<Seq<u8>>,
    to_half: F,
) -> bool {
    if stores_halves(format) {
        exists|halves: Seq<HalfPixel>|
            #![trigger are_halves_of(format, pixels, halves, to_half)]
            are_halves_of(format, pixels, halves, to_half) && texels == half_texels(format, halves)
    } else {
        texels == self::texels(format, pixels)
    }
}

/// Whether `data` is the row made of `pixels` in `format`.
pub open spec fn is_row_data<F: Fn(u64) -> u16>(
    format: DataFormat,
    pixels: Seq<Pixel>,
    data: Seq<u8>,
    to_half: F,
) -> bool {
    exists|texels: Seq<Seq<u8>>|
        #![trigger are_texels_of(format, pixels, texels, to_half)]
        are_texels_of(format, pixels, texels, to_half) && data == row_bytes(format, texels)
}

/// Whether `data` is the pixel-data section of `image` in `format`.
pub open spec fn is_pixel_data<F: Fn(u64) -> u16>(
    format: DataFormat,
    image: Image,
    data: Seq<u8>,
    to_half: F,
) -> bool {
    exists|texels: Seq<Seq<u8>>|
        #![trigger are_texels_of(format, image.pixels@, texels, to_half)]
        are_texels_of(format, image.pixels@, texels, to_half) && data == layout(
            format,
            texels,
            image.width as nat,
            image.height as nat,
        )
}

/// A run of texels grows by the texel that follows it.
proof fn lemma_joined_step(texels: Seq<Seq<u8>>, from: int, to: int)
    requires
        0 <= from <= to < texels.len(),
    ensures
        joined(texels.subrange(from, to + 1)) == joined(texels.subrange(from, to)) + texels[to],
        joined(texels.subrange(from, from)) == Seq::<u8>::empty(),
{
    let longer = texels.subrange(from, to + 1);
    assert(longer.drop_last() =~= texels.subrange(from, to));
}

/// Appends `count` zero bytes.
fn put_zeros(writer: &mut Vec<u8>, count: usize)
    ensures
        final(writer)@ == old(writer)@ + zeros(count as nat),
{
    let ghost start = writer@;
    let mut i: usize = 0;
    while i < count
        invariant
            i <= count,
            writer@ == start + zeros(i as nat),
        decreases count - i,
    {
        put_u8(writer, 0);
        assert(writer@ =~= start + zeros((i + 1) as nat));
        i = i + 1;
    }
}

/// Appends one 32-bit floating-point channel.
fn put_f32(writer: &mut Vec<u8>, x: u64)
    ensures
        final(writer)@ == old(writer)@ + f32_bytes(x),
{
    put_u32_le(writer, to_binary32(x));
}

/// Appends the bytes of one pixel.
#[verifier::rlimit(50)]
fn put_pixel(writer: &mut Vec<u8>, format: DataFormat, pixel: Pixel)
    requires
        !stores_halves(format),
    ensures
        final(writer)@ == old(writer)@ + pixel_bytes(format, pixel),
{
    let ghost start = writer@;
    match format {
        DataFormat::R32F => {
            put_f32(writer, pixel.r);
        },
        DataFormat::RG32F => {
            put_f32(writer, pixel.r);
            put_f32(writer, pixel.g);
        },
        DataFormat::RGBA32F => {
            put_f32(writer, pixel.r);
            put_f32(writer, pixel.g);
            put_f32(writer, pixel.b);
            put_f32(writer, pixel.a);
        },
        DataFormat::R8 | DataFormat::PackedR8 => {
            put_u8(writer, to_unorm8(pixel.r));
        },
        DataFormat::RGBA8 => {
            put_u8(writer, to_unorm8(pixel.r));
            put_u8(writer, to_unorm8(pixel.g));
            put_u8(writer, to_unorm8(pixel.b));
            put_u8(writer, to_unorm8(pixel.a));
        },
        DataFormat::RGBE8 => {
            let bytes = to_rgbe8(pixel.r, pixel.g, pixel.b);
            put_u8(writer, bytes[0]);
            put_u8(writer, bytes[1]);
            put_u8(writer, bytes[2]);
            put_u8(writer, bytes[3]);
        },
        _ => {},
    }
    assert(writer@ =~= start + pixel_bytes(format, pixel));
}

/// Appends the bytes of one half-precision pixel.
fn put_half_pixel(writer: &mut Vec<u8>, format: DataFormat, half: HalfPixel)
    requires
        stores_halves(format),
    ensures
        final(writer)@ == old(writer)@ + half_pixel_bytes(format, half),
{
    let ghost start = writer@;
    match format {
        DataFormat::RG16F => {
            put_u16_le(writer, half.r);
            put_u16_le(writer, half.g);
        },
        DataFormat::RGBA16F => {
            put_u16_le(writer, half.r);
            put_u16_le(writer, half.g);
            put_u16_le(writer, half.b);
            put_u16_le(writer, half.a);
        },
        _ => {
            put_u16_le(writer, half.r);
        },
    }
    assert(writer@ =~= start + half_pixel_bytes(format, half));
}

/// Appends the texels of the pixels from `from` up to `to`.
fn store_run(writer: &mut Vec<u8>, format: DataFormat, pixels: &Vec<Pixel>, from: usize, to: usize)
    requires
        !stores_halves(format),
        from <= to <= pixels@.len(),
    ensures
        final(writer)@ == old(writer)@ + joined(
            texels(format, pixels@).subrange(from as int, to as int),
        ),
{
    let ghost start = writer@;
    let ghost all = texels(format, pixels@);
    let mut i: usize = from;
    proof {
        if from < pixels@.len() {
            lemma_joined_step(all, from as int, from as int);
        } else {
            assert(all.subrange(from as int, from as int) =~= Seq::<Seq<u8>>::empty());
        }
        assert(writer@ =~= start + joined(all.subrange(from as int, from as int)));
    }
    while i < to
        invariant
            !stores_halves(format),
            from <= i <= to <= pixels@.len(),
            all == texels(format, pixels@),
            writer@ == start + joined(all.subrange(from as int, i as int)),
        decreases to - i,
    {
        put_pixel(writer, format, pixels[i]);
        proof {
            lemma_joined_step(all, from as int, i as int);
            assert(writer@ =~= start + joined(all.subrange(from as int, i as int + 1)));
        }
        i = i + 1;
    }
}

/// Appends the texels of the half-precision pixels from `from` up to `to`.
fn store_half_run(
    writer: &mut Vec<u8>,
    format: DataFormat,
    halves: &Vec<HalfPixel>,
    from: usize,
    to: usize,
)
    requires
        stores_halves(format),
        from <= to <= halves@.len(),
    ensures
        final(writer)@ == old(writer)@ + joined(
            half_texels(format, halves@).subrange(from as int, to as int),
        ),
{
    let ghost start = writer@;
    let ghost all = half_texels(format, halves@);
    let mut i: usize = from;
    proof {
        if from < halves@.len() {
            lemma_joined_step(all, from as int, from as int);
        } else {
            assert(all.subrange(from as int, from as int) =~= Seq::<Seq<u8>>::empty());
        }
        assert(writer@ =~= start + joined(all.subrange(from as int, from as int)));
    }
    while i < to
        invariant
            stores_halves(format),
            from <= i <= to <= halves@.len(),
            all == half_texels(format, halves@),
            writer@ == start + joined(all.subrange(from as int, i as int)),
        decreases to - i,
    {
        put_half_pixel(writer, format, halves[i]);
        proof {
            lemma_joined_step(all, from as int, i as int);
            assert(writer@ =~= start + joined(all.subrange(from as int, i as int + 1)));
        }
        i = i + 1;
    }
}

/// Brings the pixels to half precision, as far as `format` stores them.
pub fn to_half_pixels<F: Fn(u64) -> u16>(format: DataFormat, pixels: &Vec<Pixel>, to_half: &F) -> (halves:
    Vec<HalfPixel>)
    requires
        stores_halves(format),
        converts_all(*to_half),
    ensures
        are_halves_of(format, pixels@, halves@, *to_half),
{
    let two = match format {
        DataFormat::RG16F | DataFormat::RGBA16F => true,
        _ => false,
    };
    let four = match format {
        DataFormat::RGBA16F => true,
        _ => false,
    };
    let mut halves: Vec<HalfPixel> = Vec::new();
    let mut i: usize = 0;
    while i < pixels.len()
        invariant
            i <= pixels@.len(),
            halves@.len() == i,
            converts_all(*to_half),
            two == (format == DataFormat::RG16F || format == DataFormat::RGBA16F),
            four == (format == DataFormat::RGBA16F),
            forall|j: int| 0 <= j < i ==> is_half_of(format, pixels@[j], #[trigger] halves@[j], *to_half),
        decreases pixels@.len() - i,
    {
        let pixel = pixels[i];
        let r = safe_f64_to_f16(pixel.r, to_half);
        let g = if two {
            safe_f64_to_f16(pixel.g, to_half)
        } else {
            0
        };
        let b = if four {
            safe_f64_to_f16(pixel.b, to_half)
        } else {
            0
        };
        let a = if four {
            safe_f64_to_f16(pixel.a, to_half)
        } else {
            0
        };
        halves.push(HalfPixel { r, g, b, a });
        i = i + 1;
    }
    halves
}

/// Returns the number of zero bytes that end a row of `width` pixels.
fn padding_of(format: DataFormat, width: usize) -> (count: usize)
    ensures
        count == padding(format, width as nat),
        count < 4,
{
    proof {
        lemma_rows_are_aligned(format, width as nat);
    }
    match format {
        DataFormat::R8 => (4 - width % 4) % 4,
        DataFormat::R16F => 2 * (width % 2),
        _ => 0,
    }
}

/// Returns the bytes of one row of an image: the texels of its pixels and,
/// in the formats `R8` and `R16F`, the zero bytes that fill the row up to a
/// multiple of four bytes.
#[verifier::rlimit(50)]
pub fn encode_row<F: Fn(u64) -> u16>(row: &Vec<Pixel>, format: DataFormat, to_half: &F) -> (bytes:
    Vec<u8>)
    requires
        stores_halves(format) ==> converts_all(*to_half),
    ensures
        is_row_data(format, row@, bytes@, *to_half),
{
    let mut bytes: Vec<u8> = Vec::new();
    let count = row.len();
    let is_half = match format {
        DataFormat::R16F | DataFormat::RG16F | DataFormat::RGBA16F | DataFormat::PackedR16F => true,
        _ => false,
    };
    if is_half {
        let halves = to_half_pixels(format, row, to_half);
        store_half_run(&mut bytes, format, &halves, 0, count);
        put_zeros(&mut bytes, padding_of(format, count));
        proof {
            let all = half_texels(format, halves@);
            assert(all.subrange(0, count as int) =~= all);
            assert(bytes@ =~= row_bytes(format, all));
            assert(are_halves_of(format, row@, halves@, *to_half));
            assert(are_texels_of(format, row@, all, *to_half));
        }
    } else {
        store_run(&mut bytes, format, row, 0, count);
        put_zeros(&mut bytes, padding_of(format, count));
        proof {
            let all = texels(format, row@);
            assert(all.subrange(0, count as int) =~= all);
            assert(bytes@ =~= row_bytes(format, all));
            assert(are_texels_of(format, row@, all, *to_half));
        }
    }
    bytes
}

/// Row `y` of an image lies within its pixels.
proof fn lemma_row_within(y: nat, width: nat, height: nat)
    requires
        y < height,
    ensures
        0 <= y * width,
        y * width + width == (y + 1) * width,
        (y + 1) * width <= height * width,
        height * width == width * height,
{
    assert(0 <= y * width) by (nonlinear_arith);
    assert(y * width + width == (y + 1) * width) by (nonlinear_arith);
    assert((y + 1) * width <= height * width) by (nonlinear_arith)
        requires
            y + 1 <= height,
    ;
    assert(height * width == width * height) by (nonlinear_arith);
}

/// Appends the texels of all the pixels, one row of `width` pixels after
/// the other where the format pads its rows.
#[verifier::rlimit(50)]
fn store_texels(writer: &mut Vec<u8>, format: DataFormat, pixels: &Vec<Pixel>, width: u32, height: u32)
    requires
        !stores_halves(format),
        pads_rows(format) ==> width * height <= pixels@.len(),
    ensures
        final(writer)@ == old(writer)@ + layout(
            format,
            texels(format, pixels@),
            width as nat,
            height as nat,
        ),
{
    let ghost start = writer@;
    let ghost all = texels(format, pixels@);
    let count = pixels.len();
    match format {
        DataFormat::R8 => {
            let width = width as usize;
            let height = height as usize;
            let row_padding = padding_of(format, width);
            let mut y: usize = 0;
            assert(writer@ =~= start + rows_bytes(format, all, width as nat, 0));
            while y < height
                invariant
                    y <= height,
                    !stores_halves(format),
                    count == pixels@.len(),
                    width * height <= count,
                    all == texels(format, pixels@),
                    row_padding == padding(format, width as nat),
                    writer@ == start + rows_bytes(format, all, width as nat, y as nat),
                decreases height - y,
            {
                proof {
                    lemma_row_within(y as nat, width as nat, height as nat);
                    assert(y * width + width <= count);
                }
                let from = y * width;
                store_run(writer, format, pixels, from, from + width);
                put_zeros(writer, row_padding);
                proof {
                    assert(all.subrange(from as int, from + width).len() == width);
                    assert(writer@ =~= start + rows_bytes(format, all, width as nat, (y + 1) as nat));
                }
                y = y + 1;
            }
        },
        _ => {
            store_run(writer, format, pixels, 0, count);
            assert(all.subrange(0, count as int) =~= all);
        },
    }
}

/// Appends the texels of all the half-precision pixels, one row of `width`
/// pixels after the other where the format pads its rows.
#[verifier::rlimit(50)]
fn store_half_texels(
    writer: &mut Vec<u8>,
    format: DataFormat,
    halves: &Vec<HalfPixel>,
    width: u32,
    height: u32,
)
    requires
        stores_halves(format),
        pads_rows(format) ==> width * height <= halves@.len(),
    ensures
        final(writer)@ == old(writer)@ + layout(
            format,
            half_texels(format, halves@),
            width as nat,
            height as nat,
        ),
{
    let ghost start = writer@;
    let ghost all = half_texels(format, halves@);
    let count = halves.len();
    match format {
        DataFormat::R16F => {
            let width = width as usize;
            let height = height as usize;
            let row_padding = padding_of(format, width);
            let mut y: usize = 0;
            assert(writer@ =~= start + rows_bytes(format, all, width as nat, 0));
            while y < height
                invariant
                    y <= height,
                    stores_halves(format),
                    count == halves@.len(),
                    width * height <= count,
                    all == half_texels(format, halves@),
                    row_padding == padding(format, width as nat),
                    writer@ == start + rows_bytes(format, all, width as nat, y as nat),
                decreases height - y,
            {
                proof {
                    lemma_row_within(y as nat, width as nat, height as nat);
                    assert(y * width + width <= count);
                }
                let from = y * width;
                store_half_run(writer, format, halves, from, from + width);
                put_zeros(writer, row_padding);
                proof {
                    assert(all.subrange(from as int, from + width).len() == width);
                    assert(writer@ =~= start + rows_bytes(format, all, width as nat, (y + 1) as nat));
                }
                y = y + 1;
            }
        },
        _ => {
            store_half_run(writer, format, halves, 0, count);
            assert(all.subrange(0, count as int) =~= all);
        },
    }
}

/// Appends the pixel data of `image` in a format that stores no half
/// precision.
fn store_plain(image: &Image, format: DataFormat, writer: &mut Vec<u8>)
    requires
        !stores_halves(format),
        pads_rows(format) ==> image.has_rows(),
    ensures
        final(writer)@ == old(writer)@ + pixel_data(format, *image),
{
    store_texels(writer, format, &image.pixels, image.width, image.height);
}

/// Appends the pixel data of `image` in a format that stores half
/// precision.
fn store_halves<F: Fn(u64) -> u16>(
    image: &Image,
    format: DataFormat,
    writer: &mut Vec<u8>,
    to_half: &F,
)
    requires
        stores_halves(format),
        pads_rows(format) ==> image.has_rows(),
        converts_all(*to_half),
    ensures
        exists|data: Seq<u8>|
            #![trigger is_pixel_data(format, *image, data, *to_half)]
            is_pixel_data(format, *image, data, *to_half) && final(writer)@ == old(writer)@ + data,
{
    let halves = to_half_pixels(format, &image.pixels, to_half);
    store_half_texels(writer, format, &halves, image.width, image.height);
    proof {
        let all = half_texels(format, halves@);
        let data = layout(format, all, image.width as nat, image.height as nat);
        assert(are_halves_of(format, image.pixels@, halves@, *to_half));
        assert(are_texels_of(format, image.pixels@, all, *to_half));
        assert(is_pixel_data(format, *image, data, *to_half));
        assert(writer@ == old(writer)@ + data);
    }
}

/// Appends the pixel data of `image` in the format `R32F`: the red
/// component of each pixel, in single precision.
pub fn store_r32f_pixels(image: &Image, writer: &mut Vec<u8>)
    ensures
        final(writer)@ == old(writer)@ + pixel_data(DataFormat::R32F, *image),
{
    store_plain(image, DataFormat::R32F, writer);
}

/// Appends the pixel data of `image` in the format `RG32F`: red and green
/// of each pixel, in single precision.
pub fn store_rg32f_pixels(image: &Image, writer: &mut Vec<u8>)
    ensures
        final(writer)@ == old(writer)@ + pixel_data(DataFormat::RG32F, *image),
{
    store_plain(image, DataFormat::RG32F, writer);
}

/// Appends the pixel data of `image` in the format `RGBA32F`: the four
/// components of each pixel, in single precision.
pub fn store_rgba32f_pixels(image: &Image, writer: &mut Vec<u8>)
    ensures
        final(writer)@ == old(writer)@ + pixel_data(DataFormat::RGBA32F, *image),
{
    store_plain(image, DataFormat::RGBA32F, writer);
}

/// Appends the pixel data of `image` in the format `R8`: the red component
/// of each pixel as a byte, each row filled up with zero bytes to a multiple
/// of four bytes.
pub fn store_r8_pixels(image: &Image, writer: &mut Vec<u8>)
    requires
        image.has_rows(),
    ensures
        final(writer)@ == old(writer)@ + pixel_data(DataFormat::R8, *image),
{
    store_plain(image, DataFormat::R8, writer);
}

/// Appends the pixel data of `image` in the format `PackedR8`: the red
/// component of each pixel as a byte, rows not padded.
pub fn store_packed_r8_pixels(image: &Image, writer: &mut Vec<u8>)
    ensures
        final(writer)@ == old(writer)@ + pixel_data(DataFormat::PackedR8, *image),
{
    store_plain(image, DataFormat::PackedR8, writer);
}

/// Appends the pixel data of `image` in the format `R16F`: the red
/// component of each pixel in half precision, each row filled up with zero
/// bytes to a multiple of four bytes.
pub fn store_r16f_pixels<F: Fn(u64) -> u16>(image: &Image, writer: &mut Vec<u8>, to_half: &F)
    requires
        image.has_rows(),
        converts_all(*to_half),
    ensures
        exists|data: Seq<u8>|
            #![trigger is_pixel_data(DataFormat::R16F, *image, data, *to_half)]
            is_pixel_data(DataFormat::R16F, *image, data, *to_half) && final(writer)@ == old(writer)@
                + data,
{
    store_halves(image, DataFormat::R16F, writer, to_half);
}

/// Appends the pixel data of `image` in the format `RG16F`: red and green
/// of each pixel, in half precision.
pub fn store_rg16f_pixels<F: Fn(u64) -> u16>(image: &Image, writer: &mut Vec<u8>, to_half: &F)
    requires
        converts_all(*to_half),
    ensures
        exists|data: Seq<u8>|
            #![trigger is_pixel_data(DataFormat::RG16F, *image, data, *to_half)]
            is_pixel_data(DataFormat::RG16F, *image, data, *to_half) && final(writer)@ == old(writer)@ + data,
{
    store_halves(image, DataFormat::RG16F, writer, to_half);
}

/// Appends the pixel data of `image` in the format `RGBA16F`: the four
/// components of each pixel, in half precision.
pub fn store_rgba16f_pixels<F: Fn(u64) -> u16>(image: &Image, writer: &mut Vec<u8>, to_half: &F)
    requires
        converts_all(*to_half),
    ensures
        exists|data: Seq<u8>|
            #![trigger is_pixel_data(DataFormat::RGBA16F, *image, data, *to_half)]
            is_pixel_data(DataFormat::RGBA16F, *image, data, *to_half) && final(writer)@ == old(writer)@ + data,
{
    store_halves(image, DataFormat::RGBA16F, writer, to_half);
}

/// Appends the pixel data of `image` in the format `PackedR16F`: the red
/// component of each pixel in half precision, rows not padded.
pub fn store_packed_r16f_pixels<F: Fn(u64) -> u16>(image: &Image, writer: &mut Vec<u8>, to_half: &F)
    requires
        converts_all(*to_half),
    ensures
        exists|data: Seq<u8>|
            #![trigger is_pixel_data(DataFormat::PackedR16F, *image, data, *to_half)]
            is_pixel_data(DataFormat::PackedR16F, *image, data, *to_half) && final(writer)@ == old(writer)@ + data,
{
    store_halves(image, DataFormat::PackedR16F, writer, to_half);
}

/// Appends the pixel data of `image` in the format `RGBE8`: red, green and
/// blue of each pixel as three bytes that share the exponent in the fourth.
pub fn store_rgbe8_pixels(image: &Image, writer: &mut Vec<u8>)
    ensures
        final(writer)@ == old(writer)@ + pixel_data(DataFormat::RGBE8, *image),
{
    store_plain(image, DataFormat::RGBE8, writer);
}

/// Appends the pixel data of `image` in the format `RGBA8`: the four
/// components of each pixel as bytes.
pub fn store_rgba8_pixels(image: &Image, writer: &mut Vec<u8>)
    ensures
        final(writer)@ == old(writer)@ + pixel_data(DataFormat::RGBA8, *image),
{
    store_plain(image, DataFormat::RGBA8, writer);
}

/// Appends the pixel data of `image` in the given format.
///
/// The formats that pad their rows, `R8` and `R16F`, need an image that
/// holds all the rows that its width and height say. The formats that store
/// half precision need `to_half`; the others never call it.
pub fn store_pixels<F: Fn(u64) -> u16>(
    image: &Image,
    format: DataFormat,
    writer: &mut Vec<u8>,
    to_half: &F,
)
    requires
        pads_rows(format) ==> image.has_rows(),
        stores_halves(format) ==> converts_all(*to_half),
    ensures
        exists|data: Seq<u8>|
            #![trigger is_pixel_data(format, *image, data, *to_half)]
            is_pixel_data(format, *image, data, *to_half) && final(writer)@ == old(writer)@ + data,
        !stores_halves(format) ==> final(writer)@ == old(writer)@ + pixel_data(format, *image),
{
    match format {
        DataFormat::R32F => store_r32f_pixels(image, writer),
        DataFormat::RG32F => store_rg32f_pixels(image, writer),
        DataFormat::RGBA32F => store_rgba32f_pixels(image, writer),
        DataFormat::R8 => store_r8_pixels(image, writer),
        DataFormat::PackedR8 => store_packed_r8_pixels(image, writer),
        DataFormat::R16F => store_r16f_pixels(image, writer, to_half),
        DataFormat::RG16F => store_rg16f_pixels(image, writer, to_half),
        DataFormat::RGBA16F => store_rgba16f_pixels(image, writer, to_half),
        DataFormat::PackedR16F => store_packed_r16f_pixels(image, writer, to_half),
        DataFormat::RGBE8 => store_rgbe8_pixels(image, writer),
        DataFormat::RGBA8 => store_rgba8_pixels(image, writer),
    }
    proof {
        if !stores_halves(format) {
            let data = pixel_data(format, *image);
            assert(are_texels_of(format, image.pixels@, texels(format, image.pixels@), *to_half));
            assert(is_pixel_data(format, *image, data, *to_half));
            assert(writer@ == old(writer)@ + data);
        }
    }
}

/// Returns the bytes of a whole file: the header, if one is asked for,
/// and the pixel data of `image` in the given format. The header names the
/// color space and the data format and holds the width and height of the
/// image.
pub fn encode<F: Fn(u64) -> u16>(
    image: &Image,
    color_space: ColorSpace,
    format: DataFormat,
    with_header: bool,
    to_half: &F,
) -> (bytes: Vec<u8>)
    requires
        pads_rows(format) ==> image.has_rows(),
        stores_halves(format) ==> converts_all(*to_half),
    ensures
        exists|data: Seq<u8>|
            #![trigger is_pixel_data(format, *image, data, *to_half)]
            is_pixel_data(format, *image, data, *to_half) && bytes@ == (if with_header {
                header_bytes(color_space.code(), format.code(), image.width, image.height)
            } else {
                Seq::<u8>::empty()
            }) + data,
{
    let mut bytes: Vec<u8> = Vec::new();
    if with_header {
        let header = Header::new(color_space, format, image.width, image.height);
        header.write_to(&mut bytes);
    }
    let ghost head = bytes@;
    store_pixels(image, format, &mut bytes, to_half);
    proof {
        assert(head =~= (if with_header {
            header_bytes(color_space.code(), format.code(), image.width, image.height)
        } else {
            Seq::<u8>::empty()
        }));
    }
    bytes
}

/// Every row takes a multiple of the format's row alignment. Padding is
/// less than four bytes, and only `R8` and `R16F` ever have any: in every
/// other format the pixels alone fill the row to its alignment.
#[verifier::rlimit(50)]
pub proof fn lemma_rows_are_aligned(format: DataFormat, width: nat)
    ensures
        stride(format, width) % row_alignment(format) == 0,
        padding(format, width) < 4,
        !pads_rows(format) ==> padding(format, width) == 0,
        format == DataFormat::R8 ==> padding(format, width) == (4 - width % 4) % 4,
        format == DataFormat::R16F ==> padding(format, width) == 2 * (width % 2),
{
    let per_pixel = bytes_per_pixel(format);
    let row = width * per_pixel;
    lemma_row_length(width, per_pixel);
    lemma_padding_fills(row);
    lemma_padding_fills(width);
    match format {
        DataFormat::R8 => {
            assert(row == width);
            assert(padding(format, width) == row_padding(width));
        },
        DataFormat::R16F => {
            assert(row == 2 * width);
            lemma_padding_of_pairs(width);
            assert(padding(format, width) == row_padding(row));
        },
        DataFormat::PackedR8 => {
            assert(stride(format, width) == row);
        },
        DataFormat::PackedR16F => {
            assert(row == 2 * width);
            assert(stride(format, width) == row);
            assert((2 * width) % 2 == 0);
        },
        DataFormat::R32F | DataFormat::RG16F | DataFormat::RGBE8 | DataFormat::RGBA8 => {
            assert(row == 4 * width);
            assert(stride(format, width) == row);
            assert((4 * width) % 4 == 0);
        },
        DataFormat::RG32F | DataFormat::RGBA16F => {
            assert(row == 4 * (2 * width));
            assert(stride(format, width) == row);
            assert((4 * (2 * width)) % 4 == 0);
        },
        DataFormat::RGBA32F => {
            assert(row == 4 * (4 * width));
            assert(stride(format, width) == row);
            assert((4 * (4 * width)) % 4 == 0);
        },
    }
}

/// The length of a row of pixels, for each number of bytes that a pixel
/// may take.
proof fn lemma_row_length(width: nat, per_pixel: nat)
    ensures
        per_pixel == 1 ==> width * per_pixel == width,
        per_pixel == 2 ==> width * per_pixel == 2 * width,
        per_pixel == 4 ==> width * per_pixel == 4 * width,
        per_pixel == 8 ==> width * per_pixel == 4 * (2 * width),
        per_pixel == 16 ==> width * per_pixel == 4 * (4 * width),
{
    assert(width * 1 == width && width * 2 == 2 * width && width * 4 == 4 * width && width * 8 == 4
        * (2 * width) && width * 16 == 4 * (4 * width));
}

/// Padding brings a length to a multiple of four and is less than four.
proof fn lemma_padding_fills(len: nat)
    ensures
        (len + row_padding(len)) % 4 == 0,
        row_padding(len) < 4,
        len % 4 == 0 ==> row_padding(len) == 0,
{
    let rest = len % 4;
    assert(len == 4 * (len / 4) + rest);
    if rest == 0 {
        assert(row_padding(len) == 0);
    } else {
        assert(row_padding(len) == 4 - rest);
        assert(len + (4 - rest) == 4 * (len / 4 + 1));
    }
}

/// A row of two-byte pixels is padded by two bytes where their number is
/// odd.
proof fn lemma_padding_of_pairs(width: nat)
    ensures
        row_padding(2 * width) == 2 * (width % 2),
{
    let half = width / 2;
    if width % 2 == 0 {
        assert(2 * width == 4 * half);
        assert((2 * width) % 4 == 0);
    } else {
        assert(2 * width == 4 * half + 2);
        assert((2 * width) % 4 == 2);
    }
}

/// Every texel takes the number of bytes that the format names, whatever
/// the samples.
pub proof fn lemma_texel_len<F: Fn(u64) -> u16>(
    format: DataFormat,
    pixels: Seq<Pixel>,
    texels: Seq<Seq<u8>>,
    to_half: F,
)
    requires
        are_texels_of(format, pixels, texels, to_half),
    ensures
        texels.len() == pixels.len(),
        forall|i: int| 0 <= i < texels.len() ==> (#[trigger] texels[i]).len() == bytes_per_pixel(format),
{
    assert forall|i: int| 0 <= i < texels.len() implies (#[trigger] texels[i]).len()
        == bytes_per_pixel(format) by {
        if stores_halves(format) {
            let halves = choose|halves: Seq<HalfPixel>|
                #![trigger are_halves_of(format, pixels, halves, to_half)]
                are_halves_of(format, pixels, halves, to_half) && texels == half_texels(
                    format,
                    halves,
                );
            lemma_half_pixel_bytes_len(format, halves[i]);
        } else {
            lemma_pixel_bytes_len(format, pixels[i]);
        }
    }
}

/// One pixel takes the number of bytes that the format names.
#[verifier::rlimit(50)]
proof fn lemma_pixel_bytes_len(format: DataFormat, pixel: Pixel)
    requires
        !stores_halves(format),
    ensures
        pixel_bytes(format, pixel).len() == bytes_per_pixel(format),
{
    let r = f32_bytes(pixel.r);
    let g = f32_bytes(pixel.g);
    let b = f32_bytes(pixel.b);
    let a = f32_bytes(pixel.a);
    assert(r.len() == 4 && g.len() == 4 && b.len() == 4 && a.len() == 4);
    match format {
        DataFormat::R32F => {},
        DataFormat::RG32F => {
            assert(pixel_bytes(format, pixel) == r + g);
        },
        DataFormat::RGBA32F => {
            assert(pixel_bytes(format, pixel) == r + g + b + a);
        },
        DataFormat::RGBE8 => {
            lemma_rgbe8_len(pixel.r, pixel.g, pixel.b);
        },
        _ => {},
    }
}

/// One half-precision pixel takes the number of bytes that the format
/// names.
proof fn lemma_half_pixel_bytes_len(format: DataFormat, half: HalfPixel)
    requires
        stores_halves(format),
    ensures
        half_pixel_bytes(format, half).len() == bytes_per_pixel(format),
{
}

/// Texels of one length, one after the other, take that length times
/// their number.
pub proof fn lemma_joined_len(texels: Seq<Seq<u8>>, each: nat)
    requires
        forall|i: int| 0 <= i < texels.len() ==> (#[trigger] texels[i]).len() == each,
    ensures
        joined(texels).len() == texels.len() * each,
    decreases texels.len(),
{
    if texels.len() > 0 {
        lemma_joined_len(texels.drop_last(), each);
        assert((texels.len() - 1) * each + each == texels.len() * each) by (nonlinear_arith);
    } else {
        assert(texels.len() * each == 0) by (nonlinear_arith)
            requires
                texels.len() == 0,
        ;
    }
}

/// Two runs of texels, joined, are the join of the two in one run.
pub proof fn lemma_joined_concat(first: Seq<Seq<u8>>, second: Seq<Seq<u8>>)
    ensures
        joined(first + second) == joined(first) + joined(second),
    decreases second.len(),
{
    if second.len() == 0 {
        assert(first + second =~= first);
        assert(joined(first) + joined(second) =~= joined(first));
    } else {
        lemma_joined_concat(first, second.drop_last());
        assert((first + second).drop_last() =~= first + second.drop_last());
        assert((first + second).last() == second.last());
        assert(joined(first + second) =~= joined(first) + joined(second));
    }
}

/// Rows of texels of one length take one stride each.
pub proof fn lemma_rows_len(format: DataFormat, texels: Seq<Seq<u8>>, width: nat, rows: nat)
    requires
        rows * width <= texels.len(),
        forall|i: int|
            0 <= i < texels.len() ==> (#[trigger] texels[i]).len() == bytes_per_pixel(format),
    ensures
        rows_bytes(format, texels, width, rows).len() == rows * stride(format, width),
    decreases rows,
{
    let step = stride(format, width);
    if rows > 0 {
        let above = (rows - 1) as nat;
        assert(0 <= above * width && above * width + width == rows * width) by (nonlinear_arith)
            requires
                above + 1 == rows,
        ;
        lemma_rows_len(format, texels, width, above);
        let row = texels.subrange((above * width) as int, (rows * width) as int);
        lemma_joined_len(row, bytes_per_pixel(format));
        assert(above * step + step == rows * step) by (nonlinear_arith)
            requires
                above + 1 == rows,
        ;
    } else {
        assert(rows * step == 0) by (nonlinear_arith)
            requires
                rows == 0,
        ;
    }
}

/// In a format that does not pad its rows, rows laid out one after the
/// other are simply their texels one after the other.
pub proof fn lemma_unpadded_rows(format: DataFormat, texels: Seq<Seq<u8>>, width: nat, rows: nat)
    requires
        !pads_rows(format),
        rows * width <= texels.len(),
    ensures
        rows_bytes(format, texels, width, rows) == joined(texels.subrange(0, (rows * width) as int)),
    decreases rows,
{
    if rows > 0 {
        let above = (rows - 1) as nat;
        assert(0 <= above * width && above * width + width == rows * width) by (nonlinear_arith)
            requires
                above + 1 == rows,
        ;
        lemma_unpadded_rows(format, texels, width, above);
        let before = texels.subrange(0, (above * width) as int);
        let row = texels.subrange((above * width) as int, (rows * width) as int);
        lemma_joined_concat(before, row);
        assert(before + row =~= texels.subrange(0, (rows * width) as int));
        assert(row_bytes(format, row) =~= joined(row));
    } else {
        assert(rows * width == 0) by (nonlinear_arith)
            requires
                rows == 0,
        ;
        assert(texels.subrange(0, 0) =~= Seq::<Seq<u8>>::empty());
    }
}

/// The pixel data of an image that holds as many pixels as its width and
/// height say is its rows one after the other, in every format, and takes one
/// stride for each row, whatever the samples.
#[verifier::rlimit(50)]
pub proof fn lemma_pixel_data_is_rows<F: Fn(u64) -> u16>(
    format: DataFormat,
    image: Image,
    data: Seq<u8>,
    to_half: F,
)
    requires
        image.wf(),
        is_pixel_data(format, image, data, to_half),
    ensures
        exists|texels: Seq<Seq<u8>>|
            #![trigger are_texels_of(format, image.pixels@, texels, to_half)]
            are_texels_of(format, image.pixels@, texels, to_half) && data == rows_bytes(
                format,
                texels,
                image.width as nat,
                image.height as nat,
            ),
        data.len() == image.height * stride(format, image.width as nat),
{
    let width = image.width as nat;
    let height = image.height as nat;
    let all = choose|texels: Seq<Seq<u8>>|
        #![trigger are_texels_of(format, image.pixels@, texels, to_half)]
        are_texels_of(format, image.pixels@, texels, to_half) && data == layout(
            format,
            texels,
            width,
            height,
        );
    lemma_texel_len(format, image.pixels@, all, to_half);
    assert(height * width == width * height) by (nonlinear_arith);
    if !pads_rows(format) {
        lemma_unpadded_rows(format, all, width, height);
        assert(all.subrange(0, (height * width) as int) =~= all);
    }
    lemma_rows_len(format, all, width, height);
}

} // verus!
