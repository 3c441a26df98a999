//! The enumerations carried by a header: color spaces and data formats.
//!
//! Every variant has a fixed numeric code, which is what is stored on disk,
//! and a canonical name, which is what a human types. Codes are never
//! renumbered: a new variant takes the next unused integer.

use vstd::prelude::*;

verus! {

/// Error returned when a name or a code matches no variant.
#[derive(Clone, Copy, Debug, PartialEq, Eq, Structural)]
pub struct UnknownVariant {}

/// Whether an owned string and a string slice hold the same characters.
fn same_text(owned: &String, name: &str) -> (same: bool)
    ensures
        same == (owned@ == name@),
{
    let other = name.to_owned();
    *owned == other
}

/// Available color spaces for the pixel data.
#[derive(Clone, Copy, Debug, PartialEq, Eq, Hash, Structural)]
pub enum ColorSpace {
    /// The pixel data does not contain color information.
    NonColor,
    /// The CIE XYZ 1931 color space using the D65 illuminant.
    CIEXYZ,
    /// The sRGB color space as defined by IEC 61966-2-1:1999.
    SRGB,
    /// The sRGB color space but without gamma correction, i.e. linear.
    LinearSRGB,
}

impl ColorSpace {
    /// The code under which this color space is stored.
    pub open spec fn code(self) -> u32 {
        match self {
            ColorSpace::NonColor => 0,
            ColorSpace::CIEXYZ => 1,
            ColorSpace::SRGB => 2,
            ColorSpace::LinearSRGB => 3,
        }
    }

    /// The color space that a code stands for, if any.
    pub open spec fn from_code(value: u32) -> Option<ColorSpace> {
        if value == 0 {
            Some(ColorSpace::NonColor)
        } else if value == 1 {
            Some(ColorSpace::CIEXYZ)
        } else if value == 2 {
            Some(ColorSpace::SRGB)
        } else if value == 3 {
            Some(ColorSpace::LinearSRGB)
        } else {
            None
        }
    }

    /// The canonical name of this color space.
    pub open spec fn name(self) -> Seq<char> {
        match self {
            ColorSpace::NonColor => "NonColor"@,
            ColorSpace::CIEXYZ => "CIEXYZ"@,
            ColorSpace::SRGB => "SRGB"@,
            ColorSpace::LinearSRGB => "LinearSRGB"@,
        }
    }

    /// The color space that a piece of text names, if any. Names are matched
    /// exactly, letter case included.
    pub open spec fn from_name(text: Seq<char>) -> Option<ColorSpace> {
        if text == "NonColor"@ {
            Some(ColorSpace::NonColor)
        } else if text == "CIEXYZ"@ {
            Some(ColorSpace::CIEXYZ)
        } else if text == "SRGB"@ {
            Some(ColorSpace::SRGB)
        } else if text == "LinearSRGB"@ {
            Some(ColorSpace::LinearSRGB)
        } else {
            None
        }
    }

    /// Returns the code under which this color space is stored.
    pub fn to_u32(self) -> (value: u32)
        ensures
            value == self.code(),
            ColorSpace::from_code(value) == Some(self),
    {
        match self {
            ColorSpace::NonColor => 0,
            ColorSpace::CIEXYZ => 1,
            ColorSpace::SRGB => 2,
            ColorSpace::LinearSRGB => 3,
        }
    }

    /// Returns the color space stored under `value`, or `None` if no variant
    /// has that code.
    pub fn try_from_u32(value: u32) -> (found: Option<ColorSpace>)
        ensures
            found == ColorSpace::from_code(value),
            found matches Some(variant) ==> variant.code() == value,
            found is None <==> value > 3,
    {
        match value {
            0 => Some(ColorSpace::NonColor),
            1 => Some(ColorSpace::CIEXYZ),
            2 => Some(ColorSpace::SRGB),
            3 => Some(ColorSpace::LinearSRGB),
            _ => None,
        }
    }

    /// Returns the canonical name of this color space.
    pub fn as_str(self) -> (text: &'static str)
        ensures
            text@ == self.name(),
    {
        match self {
            ColorSpace::NonColor => "NonColor",
            ColorSpace::CIEXYZ => "CIEXYZ",
            ColorSpace::SRGB => "SRGB",
            ColorSpace::LinearSRGB => "LinearSRGB",
        }
    }

    /// Returns the canonical name of this color space as an owned string.
    pub fn to_string(self) -> (text: String)
        ensures
            text@ == self.name(),
    {
        self.as_str().to_owned()
    }

    /// Parses the canonical name of a color space. Any other text is rejected.
    pub fn from_str(text: &str) -> (parsed: Result<ColorSpace, UnknownVariant>)
        ensures
            parsed matches Ok(variant) ==> ColorSpace::from_name(text@) == Some(variant)
                && text@ == variant.name(),
            parsed is Err <==> ColorSpace::from_name(text@) is None,
    {
        let owned = text.to_owned();
        if same_text(&owned, "NonColor") {
            Ok(ColorSpace::NonColor)
        } else if same_text(&owned, "CIEXYZ") {
            Ok(ColorSpace::CIEXYZ)
        } else if same_text(&owned, "SRGB") {
            Ok(ColorSpace::SRGB)
        } else if same_text(&owned, "LinearSRGB") {
            Ok(ColorSpace::LinearSRGB)
        } else {
            Err(UnknownVariant {})
        }
    }

    /// Every color space is found again under its own code, and a code stands
    /// for a color space only if it is that one's code.
    pub proof fn lemma_code_round_trip(variant: ColorSpace, value: u32)
        ensures
            ColorSpace::from_code(variant.code()) == Some(variant),
            ColorSpace::from_code(value) == Some(variant) ==> value == variant.code(),
            ColorSpace::from_code(value) is None <==> value > 3,
    {
    }

    /// Every color space is found again under its own name, and a piece of text
    /// names a color space only if it is that one's canonical name.
    #[verifier::rlimit(50)]
    pub proof fn lemma_name_round_trip(variant: ColorSpace, text: Seq<char>)
        ensures
            ColorSpace::from_name(variant.name()) == Some(variant),
            ColorSpace::from_name(text) == Some(variant) <==> text == variant.name(),
            ColorSpace::from_name(text) is None <==> forall|other: ColorSpace| text != other.name(),
    {
        ColorSpace::lemma_names_differ();
        assert(ColorSpace::NonColor.name() == "NonColor"@);
        assert(ColorSpace::CIEXYZ.name() == "CIEXYZ"@);
        assert(ColorSpace::SRGB.name() == "SRGB"@);
        assert(ColorSpace::LinearSRGB.name() == "LinearSRGB"@);
        if ColorSpace::from_name(text) is None {
            assert forall|other: ColorSpace| text != other.name() by {
                match other {
                    ColorSpace::NonColor => {},
                    ColorSpace::CIEXYZ => {},
                    ColorSpace::SRGB => {},
                    ColorSpace::LinearSRGB => {},
                }
            }
        }
    }

    /// No two variants share a name.
    #[verifier::rlimit(50)]
    pub proof fn lemma_names_differ()
        ensures
            forall|a: ColorSpace, b: ColorSpace| a.name() == b.name() ==> a == b,
    {
        reveal_strlit("NonColor");
        reveal_strlit("CIEXYZ");
        reveal_strlit("SRGB");
        reveal_strlit("LinearSRGB");
        assert forall|a: ColorSpace, b: ColorSpace| a.name() == b.name() implies a == b by {
            if a != b {
                assert(a.name().len() != b.name().len() || a.name()[0] != b.name()[0]
                    || a.name()[1] != b.name()[1] || a.name()[2] != b.name()[2]
                    || a.name()[3] != b.name()[3] || a.name()[4] != b.name()[4]);
            }
        }
    }
}

impl core::str::FromStr for ColorSpace {
    type Err = UnknownVariant;

    /// Parses the canonical name of a color space, as [`ColorSpace::from_str`]
    /// does.
    fn from_str(text: &str) -> (parsed: Result<ColorSpace, UnknownVariant>)
        ensures
            parsed matches Ok(variant) ==> ColorSpace::from_name(text@) == Some(variant)
                && text@ == variant.name(),
            parsed is Err <==> ColorSpace::from_name(text@) is None,
    {
        ColorSpace::from_str(text)
    }
}

/// Available data formats for the pixel data.
#[derive(Clone, Copy, Debug, PartialEq, Eq, Hash, Structural)]
pub enum DataFormat {
    /// 32-bit floating-point, 4-byte row alignment.
    R32F,
    /// 32-bit floating-point, 4-byte row alignment.
    RG32F,
    /// 32-bit floating-point, 4-byte row alignment.
    RGBA32F,
    /// 8-bit fixed-point, 4-byte row alignment.
    R8,
    /// 8-bit fixed-point, 1-byte row alignment.
    PackedR8,
    /// 16-bit floating-point, 4-byte row alignment.
    R16F,
    /// 16-bit floating-point, 4-byte row alignment.
    RG16F,
    /// 16-bit floating-point, 4-byte row alignment.
    RGBA16F,
    /// 16-bit floating-point, 2-byte row alignment.
    PackedR16F,
    /// 8-bit RGBE, alpha is exponent, 4-byte row alignment.
    RGBE8,
    /// 8-bit fixed-point, 4-byte row alignment.
    RGBA8,
}

impl DataFormat {
    /// The code under which this data format is stored.
    pub open spec fn code(self) -> u32 {
        match self {
            DataFormat::R32F => 0,
            DataFormat::RG32F => 1,
            DataFormat::RGBA32F => 2,
            DataFormat::R8 => 3,
            DataFormat::PackedR8 => 4,
            DataFormat::R16F => 5,
            DataFormat::RG16F => 6,
            DataFormat::RGBA16F => 7,
            DataFormat::PackedR16F => 8,
            DataFormat::RGBE8 => 9,
            DataFormat::RGBA8 => 10,
        }
    }

    /// The data format that a code stands for, if any.
    pub open spec fn from_code(value: u32) -> Option<DataFormat> {
        if value == 0 {
            Some(DataFormat::R32F)
        } else if value == 1 {
            Some(DataFormat::RG32F)
        } else if value == 2 {
            Some(DataFormat::RGBA32F)
        } else if value == 3 {
            Some(DataFormat::R8)
        } else if value == 4 {
            Some(DataFormat::PackedR8)
        } else if value == 5 {
            Some(DataFormat::R16F)
        } else if value == 6 {
            Some(DataFormat::RG16F)
        } else if value == 7 {
            Some(DataFormat::RGBA16F)
        } else if value == 8 {
            Some(DataFormat::PackedR16F)
        } else if value == 9 {
            Some(DataFormat::RGBE8)
        } else if value == 10 {
            Some(DataFormat::RGBA8)
        } else {
            None
        }
    }

    /// The canonical name of this data format.
    pub open spec fn name(self) -> Seq<char> {
        match self {
            DataFormat::R32F => "R32F"@,
            DataFormat::RG32F => "RG32F"@,
            DataFormat::RGBA32F => "RGBA32F"@,
            DataFormat::R8 => "R8"@,
            DataFormat::PackedR8 => "PackedR8"@,
            DataFormat::R16F => "R16F"@,
            DataFormat::RG16F => "RG16F"@,
            DataFormat::RGBA16F => "RGBA16F"@,
            DataFormat::PackedR16F => "PackedR16F"@,
            DataFormat::RGBE8 => "RGBE8"@,
            DataFormat::RGBA8 => "RGBA8"@,
        }
    }

    /// The data format that a piece of text names, if any. Names are matched
    /// exactly, letter case included.
    pub open spec fn from_name(text: Seq<char>) -> Option<DataFormat> {
        if text == "R32F"@ {
            Some(DataFormat::R32F)
        } else if text == "RG32F"@ {
            Some(DataFormat::RG32F)
        } else if text == "RGBA32F"@ {
            Some(DataFormat::RGBA32F)
        } else if text == "R8"@ {
            Some(DataFormat::R8)
        } else if text == "PackedR8"@ {
            Some(DataFormat::PackedR8)
        } else if text == "R16F"@ {
            Some(DataFormat::R16F)
        } else if text == "RG16F"@ {
            Some(DataFormat::RG16F)
        } else if text == "RGBA16F"@ {
            Some(DataFormat::RGBA16F)
        } else if text == "PackedR16F"@ {
            Some(DataFormat::PackedR16F)
        } else if text == "RGBE8"@ {
            Some(DataFormat::RGBE8)
        } else if text == "RGBA8"@ {
            Some(DataFormat::RGBA8)
        } else {
            None
        }
    }

    /// Returns the code under which this data format is stored.
    pub fn to_u32(self) -> (value: u32)
        ensures
            value == self.code(),
            DataFormat::from_code(value) == Some(self),
    {
        match self {
            DataFormat::R32F => 0,
            DataFormat::RG32F => 1,
            DataFormat::RGBA32F => 2,
            DataFormat::R8 => 3,
            DataFormat::PackedR8 => 4,
            DataFormat::R16F => 5,
            DataFormat::RG16F => 6,
            DataFormat::RGBA16F => 7,
            DataFormat::PackedR16F => 8,
            DataFormat::RGBE8 => 9,
            DataFormat::RGBA8 => 10,
        }
    }

    /// Returns the data format stored under `value`, or `None` if no variant
    /// has that code.
    pub fn try_from_u32(value: u32) -> (found: Option<DataFormat>)
        ensures
            found == DataFormat::from_code(value),
            found matches Some(variant) ==> variant.code() == value,
            found is None <==> value > 10,
    {
        match value {
            0 => Some(DataFormat::R32F),
            1 => Some(DataFormat::RG32F),
            2 => Some(DataFormat::RGBA32F),
            3 => Some(DataFormat::R8),
            4 => Some(DataFormat::PackedR8),
            5 => Some(DataFormat::R16F),
            6 => Some(DataFormat::RG16F),
            7 => Some(DataFormat::RGBA16F),
            8 => Some(DataFormat::PackedR16F),
            9 => Some(DataFormat::RGBE8),
            10 => Some(DataFormat::RGBA8),
            _ => None,
        }
    }

    /// Returns the canonical name of this data format.
    pub fn as_str(self) -> (text: &'static str)
        ensures
            text@ == self.name(),
    {
        match self {
            DataFormat::R32F => "R32F",
            DataFormat::RG32F => "RG32F",
            DataFormat::RGBA32F => "RGBA32F",
            DataFormat::R8 => "R8",
            DataFormat::PackedR8 => "PackedR8",
            DataFormat::R16F => "R16F",
            DataFormat::RG16F => "RG16F",
            DataFormat::RGBA16F => "RGBA16F",
            DataFormat::PackedR16F => "PackedR16F",
            DataFormat::RGBE8 => "RGBE8",
            DataFormat::RGBA8 => "RGBA8",
        }
    }

    /// Returns the canonical name of this data format as an owned string.
    pub fn to_string(self) -> (text: String)
        ensures
            text@ == self.name(),
    {
        self.as_str().to_owned()
    }

    /// Parses the canonical name of a data format. Any other text is rejected.
    pub fn from_str(text: &str) -> (parsed: Result<DataFormat, UnknownVariant>)
        ensures
            parsed matches Ok(variant) ==> DataFormat::from_name(text@) == Some(variant)
                && text@ == variant.name(),
            parsed is Err <==> DataFormat::from_name(text@) is None,
    {
        let owned = text.to_owned();
        if same_text(&owned, "R32F") {
            Ok(DataFormat::R32F)
        } else if same_text(&owned, "RG32F") {
            Ok(DataFormat::RG32F)
        } else if same_text(&owned, "RGBA32F") {
            Ok(DataFormat::RGBA32F)
        } else if same_text(&owned, "R8") {
            Ok(DataFormat::R8)
        } else if same_text(&owned, "PackedR8") {
            Ok(DataFormat::PackedR8)
        } else if same_text(&owned, "R16F") {
            Ok(DataFormat::R16F)
        } else if same_text(&owned, "RG16F") {
            Ok(DataFormat::RG16F)
        } else if same_text(&owned, "RGBA16F") {
            Ok(DataFormat::RGBA16F)
        } else if same_text(&owned, "PackedR16F") {
            Ok(DataFormat::PackedR16F)
        } else if same_text(&owned, "RGBE8") {
            Ok(DataFormat::RGBE8)
        } else if same_text(&owned, "RGBA8") {
            Ok(DataFormat::RGBA8)
        } else {
            Err(UnknownVariant {})
        }
    }

    /// Every data format is found again under its own code, and a code stands
    /// for a data format only if it is that one's code.
    pub proof fn lemma_code_round_trip(variant: DataFormat, value: u32)
        ensures
            DataFormat::from_code(variant.code()) == Some(variant),
            DataFormat::from_code(value) == Some(variant) ==> value == variant.code(),
            DataFormat::from_code(value) is None <==> value > 10,
    {
    }

    /// Every data format is found again under its own name, and a piece of text
    /// names a data format only if it is that one's canonical name.
    #[verifier::rlimit(50)]
    pub proof fn lemma_name_round_trip(variant: DataFormat, text: Seq<char>)
        ensures
            DataFormat::from_name(variant.name()) == Some(variant),
            DataFormat::from_name(text) == Some(variant) <==> text == variant.name(),
            DataFormat::from_name(text) is None <==> forall|other: DataFormat| text != other.name(),
    {
        DataFormat::lemma_names_differ();
        assert(DataFormat::R32F.name() == "R32F"@);
        assert(DataFormat::RG32F.name() == "RG32F"@);
        assert(DataFormat::RGBA32F.name() == "RGBA32F"@);
        assert(DataFormat::R8.name() == "R8"@);
        assert(DataFormat::PackedR8.name() == "PackedR8"@);
        assert(DataFormat::R16F.name() == "R16F"@);
        assert(DataFormat::RG16F.name() == "RG16F"@);
        assert(DataFormat::RGBA16F.name() == "RGBA16F"@);
        assert(DataFormat::PackedR16F.name() == "PackedR16F"@);
        assert(DataFormat::RGBE8.name() == "RGBE8"@);
        assert(DataFormat::RGBA8.name() == "RGBA8"@);
        if DataFormat::from_name(text) is None {
            assert forall|other: DataFormat| text != other.name() by {
                match other {
                    DataFormat::R32F => {},
                    DataFormat::RG32F => {},
                    DataFormat::RGBA32F => {},
                    DataFormat::R8 => {},
                    DataFormat::PackedR8 => {},
                    DataFormat::R16F => {},
                    DataFormat::RG16F => {},
                    DataFormat::RGBA16F => {},
                    DataFormat::PackedR16F => {},
                    DataFormat::RGBE8 => {},
                    DataFormat::RGBA8 => {},
                }
            }
        }
    }

    /// No two variants share a name.
    #[verifier::rlimit(50)]
    pub proof fn lemma_names_differ()
        ensures
            forall|a: DataFormat, b: DataFormat| a.name() == b.name() ==> a == b,
    {
        reveal_strlit("R32F");
        reveal_strlit("RG32F");
        reveal_strlit("RGBA32F");
        reveal_strlit("R8");
        reveal_strlit("PackedR8");
        reveal_strlit("R16F");
        reveal_strlit("RG16F");
        reveal_strlit("RGBA16F");
        reveal_strlit("PackedR16F");
        reveal_strlit("RGBE8");
        reveal_strlit("RGBA8");
        assert forall|a: DataFormat, b: DataFormat| a.name() == b.name() implies a == b by {
            if a != b {
                assert(a.name().len() != b.name().len() || a.name()[0] != b.name()[0]
                    || a.name()[1] != b.name()[1] || a.name()[2] != b.name()[2]
                    || a.name()[3] != b.name()[3] || a.name()[4] != b.name()[4]);
            }
        }
    }
}
impl core::str::FromStr for DataFormat {
    type Err = UnknownVariant;

    /// Parses the canonical name of a data format, as [`DataFormat::from_str`]
    /// does.
    fn from_str(text: &str) -> (parsed: Result<DataFormat, UnknownVariant>)
        ensures
            parsed matches Ok(variant) ==> DataFormat::from_name(text@) == Some(variant)
                && text@ == variant.name(),
            parsed is Err <==> DataFormat::from_name(text@) is None,
    {
        DataFormat::from_str(text)
    }
}

} // verus!
