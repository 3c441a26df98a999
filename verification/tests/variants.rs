//! Codes and names of color spaces and data formats.

use img2raw::{ColorSpace, DataFormat, UnknownVariant};

const COLOR_SPACES: [(ColorSpace, u32, &str); 4] = [
    (ColorSpace::NonColor, 0, "NonColor"),
    (ColorSpace::CIEXYZ, 1, "CIEXYZ"),
    (ColorSpace::SRGB, 2, "SRGB"),
    (ColorSpace::LinearSRGB, 3, "LinearSRGB"),
];

const DATA_FORMATS: [(DataFormat, u32, &str); 11] = [
    (DataFormat::R32F, 0, "R32F"),
    (DataFormat::RG32F, 1, "RG32F"),
    (DataFormat::RGBA32F, 2, "RGBA32F"),
    (DataFormat::R8, 3, "R8"),
    (DataFormat::PackedR8, 4, "PackedR8"),
    (DataFormat::R16F, 5, "R16F"),
    (DataFormat::RG16F, 6, "RG16F"),
    (DataFormat::RGBA16F, 7, "RGBA16F"),
    (DataFormat::PackedR16F, 8, "PackedR16F"),
    (DataFormat::RGBE8, 9, "RGBE8"),
    (DataFormat::RGBA8, 10, "RGBA8"),
];

#[test]
fn color_space_codes_are_fixed() {
    for (space, code, _) in COLOR_SPACES {
        assert_eq!(space.to_u32(), code);
        assert_eq!(ColorSpace::try_from_u32(code), Some(space));
    }
}

#[test]
fn color_space_rejects_unknown_codes() {
    for code in 4..1000u32 {
        assert_eq!(ColorSpace::try_from_u32(code), None);
    }
    for code in [u32::MAX, u32::MAX - 1, 0x8000_0000, 0x100, 0x1_0000, 0x0100_0000, 0x0200_0000] {
        assert_eq!(ColorSpace::try_from_u32(code), None);
    }
}

#[test]
fn data_format_codes_are_fixed() {
    for (format, code, _) in DATA_FORMATS {
        assert_eq!(format.to_u32(), code);
        assert_eq!(DataFormat::try_from_u32(code), Some(format));
    }
}

#[test]
fn data_format_rejects_unknown_codes() {
    for code in 11..1000u32 {
        assert_eq!(DataFormat::try_from_u32(code), None);
    }
    assert_eq!(DataFormat::try_from_u32(u32::MAX), None);
    assert_eq!(DataFormat::try_from_u32(0x0a00_0000), None);
}

#[test]
fn color_space_names_round_trip() {
    for (space, _, name) in COLOR_SPACES {
        assert_eq!(space.as_str(), name);
        assert_eq!(space.to_string(), name);
        assert_eq!(ColorSpace::from_str(name), Ok(space));
        assert_eq!(ColorSpace::from_str(&space.to_string()), Ok(space));
    }
}

#[test]
fn data_format_names_round_trip() {
    for (format, _, name) in DATA_FORMATS {
        assert_eq!(format.as_str(), name);
        assert_eq!(format.to_string(), name);
        assert_eq!(DataFormat::from_str(name), Ok(format));
        assert_eq!(DataFormat::from_str(&format.to_string()), Ok(format));
    }
}

#[test]
fn names_are_matched_exactly() {
    for text in ["", "srgb", "sRGB", "SRGB ", " SRGB", "Srgb", "LinearSrgb", "CIE XYZ", "XYZ", "R8", "2", "NonColor\n"] {
        assert_eq!(ColorSpace::from_str(text), Err(UnknownVariant {}), "{:?}", text);
    }
    for text in ["", "r8", "R8 ", "R16", "RGBA", "RGBA16f", "packedR8", "Packed R8", "RGBE", "SRGB", "10", "R32F\0"] {
        assert_eq!(DataFormat::from_str(text), Err(UnknownVariant {}), "{:?}", text);
    }
}

#[test]
fn a_name_of_one_enumeration_is_none_of_the_other() {
    for (_, _, name) in COLOR_SPACES {
        assert!(DataFormat::from_str(name).is_err());
    }
    for (_, _, name) in DATA_FORMATS {
        assert!(ColorSpace::from_str(name).is_err());
    }
}

#[test]
fn names_parse_through_the_standard_trait() {
    for (space, _, name) in COLOR_SPACES {
        assert_eq!(name.parse::<ColorSpace>(), Ok(space));
    }
    for (format, _, name) in DATA_FORMATS {
        assert_eq!(name.parse::<DataFormat>(), Ok(format));
    }
    assert_eq!("ciexyz".parse::<ColorSpace>(), Err(UnknownVariant {}));
    assert_eq!("RGBA 8".parse::<DataFormat>(), Err(UnknownVariant {}));
}
