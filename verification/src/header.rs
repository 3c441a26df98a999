//! The header that may stand before the pixel data.
//!
//! A header is sixteen bytes: the code of the color space, the code of the
//! data format, the width and the height, each a 32-bit integer stored least
//! significant byte first. Any sixteen bytes are a header; whether its two
//! codes stand for known variants is asked separately.

use crate::sink::{le_bytes_u32, lemma_le_bytes_u32_round_trip, put_u32_le, u32_from_le_bytes};
use crate::variant::{ColorSpace, DataFormat, UnknownVariant};
use vstd::prelude::*;

verus! {

/// Number of bytes in a header.
pub const HEADER_LEN: usize = 16;

/// Color space information stored in a header.
///
/// The header might not be valid, so this is an intermediate struct which
/// holds any 32-bit code, whether or not a color space has it.
#[derive(Clone, Copy, Debug, PartialEq, Eq, Hash, Structural)]
pub struct ColorSpaceInfo(u32);

impl ColorSpaceInfo {
    /// The code held.
    pub closed spec fn code(self) -> u32 {
        self.0
    }

    /// Wraps a code as read from a header.
    pub fn from_u32(value: u32) -> (info: ColorSpaceInfo)
        ensures
            info.code() == value,
    {
        ColorSpaceInfo(value)
    }

    /// Returns the code held.
    pub fn to_u32(self) -> (value: u32)
        ensures
            value == self.code(),
    {
        self.0
    }

    /// Returns the inner color space if it is valid.
    pub fn try_parse(self) -> (found: Option<ColorSpace>)
        ensures
            found == ColorSpace::from_code(self.code()),
            found is None <==> self.code() > 3,
    {
        ColorSpace::try_from_u32(self.0)
    }

    /// Two values that hold the same code are the same value.
    pub proof fn lemma_code_determines(a: ColorSpaceInfo, b: ColorSpaceInfo)
        requires
            a.code() == b.code(),
        ensures
            a == b,
    {
    }
}

impl From<ColorSpace> for ColorSpaceInfo {
    fn from(color_space: ColorSpace) -> (info: ColorSpaceInfo) {
        ColorSpaceInfo(color_space.to_u32())
    }
}

impl vstd::std_specs::convert::FromSpecImpl<ColorSpace> for ColorSpaceInfo {
    open spec fn obeys_from_spec() -> bool {
        true
    }

    closed spec fn from_spec(color_space: ColorSpace) -> ColorSpaceInfo {
        ColorSpaceInfo(color_space.code())
    }
}

/// Data format information stored in a header.
///
/// The header might not be valid, so this is an intermediate struct which
/// holds any 32-bit code, whether or not a data format has it.
#[derive(Clone, Copy, Debug, PartialEq, Eq, Hash, Structural)]
pub struct DataFormatInfo(u32);

impl DataFormatInfo {
    /// The code held.
    pub closed spec fn code(self) -> u32 {
        self.0
    }

    /// Wraps a code as read from a header.
    pub fn from_u32(value: u32) -> (info: DataFormatInfo)
        ensures
            info.code() == value,
    {
        DataFormatInfo(value)
    }

    /// Returns the code held.
    pub fn to_u32(self) -> (value: u32)
        ensures
            value == self.code(),
    {
        self.0
    }

    /// Returns the inner data format if it is valid.
    pub fn try_parse(self) -> (found: Option<DataFormat>)
        ensures
            found == DataFormat::from_code(self.code()),
            found is None <==> self.code() > 10,
    {
        DataFormat::try_from_u32(self.0)
    }

    /// Two values that hold the same code are the same value.
    pub proof fn lemma_code_determines(a: DataFormatInfo, b: DataFormatInfo)
        requires
            a.code() == b.code(),
        ensures
            a == b,
    {
    }
}

impl From<DataFormat> for DataFormatInfo {
    fn from(data_format: DataFormat) -> (info: DataFormatInfo) {
        DataFormatInfo(data_format.to_u32())
    }
}

impl vstd::std_specs::convert::FromSpecImpl<DataFormat> for DataFormatInfo {
    open spec fn obeys_from_spec() -> bool {
        true
    }

    closed spec fn from_spec(data_format: DataFormat) -> DataFormatInfo {
        DataFormatInfo(data_format.code())
    }
}

/// What `From` gives for a color space or a data format holds its code.
pub proof fn lemma_info_from_variant(color_space: ColorSpace, data_format: DataFormat)
    ensures
        <ColorSpaceInfo as vstd::std_specs::convert::FromSpec<ColorSpace>>::from_spec(
            color_space,
        ).code() == color_space.code(),
        <DataFormatInfo as vstd::std_specs::convert::FromSpec<DataFormat>>::from_spec(
            data_format,
        ).code() == data_format.code(),
{
}

/// The sixteen bytes of a header with the given codes and dimensions: four
/// 32-bit integers, each least significant byte first.
pub open spec fn header_bytes(color_space: u32, data_format: u32, width: u32, height: u32) -> Seq<
    u8,
> {
    le_bytes_u32(color_space) + le_bytes_u32(data_format) + le_bytes_u32(width) + le_bytes_u32(
        height,
    )
}

/// Header optionally prepended to the pixel data.
#[derive(Clone, Copy, Debug)]
pub struct Header {
    /// The color space of the subsequent pixel data.
    pub color_space: ColorSpaceInfo,
    /// The data format of the subsequent pixel data.
    pub data_format: DataFormatInfo,
    /// The image width and height in pixels.
    pub dimensions: [u32; 2],
}

impl Header {
    /// The sixteen bytes that stand for this header.
    pub open spec fn bytes(self) -> Seq<u8> {
        header_bytes(
            self.color_space.code(),
            self.data_format.code(),
            self.dimensions[0],
            self.dimensions[1],
        )
    }

    /// Whether `header` is what sixteen bytes stand for.
    pub open spec fn decodes(bytes: Seq<u8>, header: Header) -> bool {
        &&& header.color_space.code() == u32_from_le_bytes(bytes.subrange(0, 4))
        &&& header.data_format.code() == u32_from_le_bytes(bytes.subrange(4, 8))
        &&& header.dimensions[0] == u32_from_le_bytes(bytes.subrange(8, 12))
        &&& header.dimensions[1] == u32_from_le_bytes(bytes.subrange(12, 16))
    }

    /// Makes the header of pixel data in a known color space and data format.
    pub fn new(color_space: ColorSpace, data_format: DataFormat, width: u32, height: u32) -> (header:
        Header)
        ensures
            header.color_space.code() == color_space.code(),
            header.data_format.code() == data_format.code(),
            header.dimensions[0] == width,
            header.dimensions[1] == height,
    {
        Header {
            color_space: ColorSpaceInfo(color_space.to_u32()),
            data_format: DataFormatInfo(data_format.to_u32()),
            dimensions: [width, height],
        }
    }

    /// Makes a header from raw codes. No code is refused: whether it stands
    /// for a variant is found out by whoever reads the header.
    pub fn from_codes(color_space: u32, data_format: u32, width: u32, height: u32) -> (header:
        Header)
        ensures
            header.color_space.code() == color_space,
            header.data_format.code() == data_format,
            header.dimensions[0] == width,
            header.dimensions[1] == height,
    {
        Header {
            color_space: ColorSpaceInfo(color_space),
            data_format: DataFormatInfo(data_format),
            dimensions: [width, height],
        }
    }

    /// Returns the image width in pixels.
    pub fn width(&self) -> (width: u32)
        ensures
            width == self.dimensions[0],
    {
        self.dimensions[0]
    }

    /// Returns the image height in pixels.
    pub fn height(&self) -> (height: u32)
        ensures
            height == self.dimensions[1],
    {
        self.dimensions[1]
    }

    /// Resolves the stored color space code.
    pub fn color_space(&self) -> (found: Result<ColorSpace, UnknownVariant>)
        ensures
            found matches Ok(space) ==> ColorSpace::from_code(self.color_space.code()) == Some(
                space,
            ),
            found is Err <==> self.color_space.code() > 3,
    {
        match self.color_space.try_parse() {
            Some(space) => Ok(space),
            None => Err(UnknownVariant {}),
        }
    }

    /// Resolves the stored data format code.
    pub fn data_format(&self) -> (found: Result<DataFormat, UnknownVariant>)
        ensures
            found matches Ok(format) ==> DataFormat::from_code(self.data_format.code()) == Some(
                format,
            ),
            found is Err <==> self.data_format.code() > 10,
    {
        match self.data_format.try_parse() {
            Some(format) => Ok(format),
            None => Err(UnknownVariant {}),
        }
    }

    /// Appends the sixteen bytes of this header to `writer`.
    pub fn write_to(&self, writer: &mut Vec<u8>)
        ensures
            final(writer)@ == old(writer)@ + self.bytes(),
            self.bytes().len() == HEADER_LEN,
    {
        put_u32_le(writer, self.color_space.0);
        put_u32_le(writer, self.data_format.0);
        put_u32_le(writer, self.dimensions[0]);
        put_u32_le(writer, self.dimensions[1]);
        assert(writer@ =~= old(writer)@ + self.bytes());
    }

    /// Returns the sixteen bytes of this header.
    pub fn to_bytes(&self) -> (bytes: Vec<u8>)
        ensures
            bytes@ == self.bytes(),
            bytes@.len() == HEADER_LEN,
    {
        let mut bytes = Vec::new();
        self.write_to(&mut bytes);
        assert(bytes@ =~= self.bytes());
        bytes
    }

    /// Reads a header from exactly sixteen bytes. Any other number of bytes
    /// is no header.
    pub fn from_bytes(bytes: &[u8]) -> (parsed: Option<Header>)
        ensures
            parsed is Some <==> bytes@.len() == HEADER_LEN,
            parsed matches Some(header) ==> Header::decodes(bytes@, header) && header.bytes()
                == bytes@,
    {
        if bytes.len() != HEADER_LEN {
            return None;
        }
        let header = Header {
            color_space: ColorSpaceInfo(read_u32_le(bytes, 0)),
            data_format: DataFormatInfo(read_u32_le(bytes, 4)),
            dimensions: [read_u32_le(bytes, 8), read_u32_le(bytes, 12)],
        };
        proof {
            Header::lemma_round_trip(header, bytes@);
        }
        Some(header)
    }

    /// Reads a header from sixteen bytes. This cannot fail.
    pub fn from_array(bytes: &[u8; 16]) -> (header: Header)
        ensures
            Header::decodes(bytes@, header),
            header.bytes() == bytes@,
    {
        let header = Header {
            color_space: ColorSpaceInfo(join_u32_le(bytes[0], bytes[1], bytes[2], bytes[3])),
            data_format: DataFormatInfo(join_u32_le(bytes[4], bytes[5], bytes[6], bytes[7])),
            dimensions: [
                join_u32_le(bytes[8], bytes[9], bytes[10], bytes[11]),
                join_u32_le(bytes[12], bytes[13], bytes[14], bytes[15]),
            ],
        };
        proof {
            assert(bytes@.subrange(0, 4) =~= seq![bytes[0], bytes[1], bytes[2], bytes[3]]);
            assert(bytes@.subrange(4, 8) =~= seq![bytes[4], bytes[5], bytes[6], bytes[7]]);
            assert(bytes@.subrange(8, 12) =~= seq![bytes[8], bytes[9], bytes[10], bytes[11]]);
            assert(bytes@.subrange(12, 16) =~= seq![bytes[12], bytes[13], bytes[14], bytes[15]]);
            Header::lemma_round_trip(header, bytes@);
        }
        header
    }

    /// A header is read back from its own bytes, and only one header is; and
    /// a header read from sixteen bytes is written out as those bytes.
    #[verifier::rlimit(50)]
    pub proof fn lemma_round_trip(header: Header, bytes: Seq<u8>)
        ensures
            header.bytes().len() == HEADER_LEN,
            Header::decodes(header.bytes(), header),
            forall|other: Header|
                Header::decodes(header.bytes(), other) ==> other.color_space == header.color_space
                    && other.data_format == header.data_format && other.dimensions@
                    == header.dimensions@,
            bytes.len() == HEADER_LEN && Header::decodes(bytes, header) ==> header.bytes() == bytes,
    {
        let b = header.bytes();
        assert(b.subrange(0, 4) =~= le_bytes_u32(header.color_space.code()));
        assert(b.subrange(4, 8) =~= le_bytes_u32(header.data_format.code()));
        assert(b.subrange(8, 12) =~= le_bytes_u32(header.dimensions[0]));
        assert(b.subrange(12, 16) =~= le_bytes_u32(header.dimensions[1]));
        lemma_le_bytes_u32_round_trip(header.color_space.code(), bytes.subrange(0, 4));
        lemma_le_bytes_u32_round_trip(header.data_format.code(), bytes.subrange(4, 8));
        lemma_le_bytes_u32_round_trip(header.dimensions[0], bytes.subrange(8, 12));
        lemma_le_bytes_u32_round_trip(header.dimensions[1], bytes.subrange(12, 16));
        assert forall|other: Header| Header::decodes(header.bytes(), other) implies other.color_space
            == header.color_space && other.data_format == header.data_format && other.dimensions@
            == header.dimensions@ by {
            assert(other.dimensions@ =~= header.dimensions@);
        }
        if bytes.len() == HEADER_LEN && Header::decodes(bytes, header) {
            assert(header.bytes() =~= bytes.subrange(0, 4) + bytes.subrange(4, 8) + bytes.subrange(
                8,
                12,
            ) + bytes.subrange(12, 16));
            assert(bytes =~= bytes.subrange(0, 4) + bytes.subrange(4, 8) + bytes.subrange(8, 12)
                + bytes.subrange(12, 16));
        }
    }
}

/// Puts four bytes, least significant first, together to a 32-bit integer.
fn join_u32_le(b0: u8, b1: u8, b2: u8, b3: u8) -> (n: u32)
    ensures
        n == u32_from_le_bytes(seq![b0, b1, b2, b3]),
{
    b0 as u32 + 256 * (b1 as u32) + 65536 * (b2 as u32) + 16777216 * (b3 as u32)
}

/// Reads the 32-bit integer stored least significant byte first at `at`.
fn read_u32_le(bytes: &[u8], at: usize) -> (n: u32)
    requires
        at + 4 <= bytes@.len(),
    ensures
        n == u32_from_le_bytes(bytes@.subrange(at as int, at + 4)),
{
    let n = join_u32_le(bytes[at], bytes[at + 1], bytes[at + 2], bytes[at + 3]);
    assert(bytes@.subrange(at as int, at + 4) =~= seq![
        bytes[at as int],
        bytes[at + 1],
        bytes[at + 2],
        bytes[at + 3],
    ]);
    n
}

} // verus!
