//! The sixteen-byte header.

use img2raw::{ColorSpace, ColorSpaceInfo, DataFormat, DataFormatInfo, Header, UnknownVariant, HEADER_LEN};

#[test]
fn header_is_sixteen_bytes_least_significant_first() {
    let header = Header::new(ColorSpace::SRGB, DataFormat::RGBA16F, 640, 480);
    let bytes = header.to_bytes();
    assert_eq!(bytes.len(), HEADER_LEN);
    assert_eq!(
        bytes,
        vec![2, 0, 0, 0, 7, 0, 0, 0, 0x80, 0x02, 0, 0, 0xe0, 0x01, 0, 0]
    );
}

#[test]
fn header_bytes_of_wide_values() {
    let header = Header::from_codes(0x0403_0201, 0x0807_0605, 0x0c0b_0a09, 0xfffe_fdfc);
    assert_eq!(
        header.to_bytes(),
        vec![1, 2, 3, 4, 5, 6, 7, 8, 9, 10, 11, 12, 0xfc, 0xfd, 0xfe, 0xff]
    );
}

#[test]
fn header_is_appended_to_what_is_there() {
    let header = Header::new(ColorSpace::LinearSRGB, DataFormat::R8, 1, 2);
    let mut bytes = vec![0xaa, 0xbb];
    header.write_to(&mut bytes);
    assert_eq!(
        bytes,
        vec![0xaa, 0xbb, 3, 0, 0, 0, 3, 0, 0, 0, 1, 0, 0, 0, 2, 0, 0, 0]
    );
}

#[test]
fn header_round_trips() {
    let header = Header::new(ColorSpace::CIEXYZ, DataFormat::RGBE8, 1920, 1080);
    let bytes = header.to_bytes();
    let back = Header::from_bytes(&bytes).unwrap();
    assert_eq!(back.color_space, header.color_space);
    assert_eq!(back.data_format, header.data_format);
    assert_eq!(back.dimensions, [1920, 1080]);
    assert_eq!(back.width(), 1920);
    assert_eq!(back.height(), 1080);
    assert_eq!(back.color_space(), Ok(ColorSpace::CIEXYZ));
    assert_eq!(back.data_format(), Ok(DataFormat::RGBE8));
    assert_eq!(back.to_bytes(), bytes);
}

#[test]
fn any_sixteen_bytes_are_a_header() {
    let bytes: Vec<u8> = (0..16).map(|i| (i * 17 + 3) as u8).collect();
    let header = Header::from_bytes(&bytes).unwrap();
    assert_eq!(header.to_bytes(), bytes);
    assert_eq!(header.color_space.to_u32(), u32::from_le_bytes([3, 20, 37, 54]));
    assert_eq!(header.data_format.to_u32(), u32::from_le_bytes([71, 88, 105, 122]));
    assert_eq!(header.width(), u32::from_le_bytes([139, 156, 173, 190]));
    assert_eq!(header.height(), u32::from_le_bytes([207, 224, 241, 2]));
    let all_ones = [0xffu8; 16];
    let header = Header::from_bytes(&all_ones).unwrap();
    assert_eq!(header.color_space(), Err(UnknownVariant {}));
    assert_eq!(header.data_format(), Err(UnknownVariant {}));
    assert_eq!(header.dimensions, [u32::MAX, u32::MAX]);
}

#[test]
fn other_lengths_are_no_header() {
    for len in [0usize, 1, 15, 17, 32] {
        let bytes = vec![0u8; len];
        assert!(Header::from_bytes(&bytes).is_none(), "{}", len);
    }
}

#[test]
fn unknown_codes_are_kept_and_reported() {
    let header = Header::from_codes(4, 11, 7, 9);
    assert_eq!(header.color_space.to_u32(), 4);
    assert_eq!(header.data_format.to_u32(), 11);
    assert_eq!(header.color_space.try_parse(), None);
    assert_eq!(header.data_format.try_parse(), None);
    assert_eq!(header.color_space(), Err(UnknownVariant {}));
    assert_eq!(header.data_format(), Err(UnknownVariant {}));
    let back = Header::from_bytes(&header.to_bytes()).unwrap();
    assert_eq!(back.color_space.to_u32(), 4);
    assert_eq!(back.data_format.to_u32(), 11);
}

#[test]
fn the_two_codes_are_resolved_independently() {
    let header = Header::from_codes(2, 1000, 1, 1);
    assert_eq!(header.color_space(), Ok(ColorSpace::SRGB));
    assert_eq!(header.data_format(), Err(UnknownVariant {}));
    let header = Header::from_codes(1000, 10, 1, 1);
    assert_eq!(header.color_space(), Err(UnknownVariant {}));
    assert_eq!(header.data_format(), Ok(DataFormat::RGBA8));
}

#[test]
fn info_try_parse() {
    for code in 0..20u32 {
        assert_eq!(ColorSpaceInfo::from_u32(code).try_parse(), ColorSpace::try_from_u32(code));
        assert_eq!(DataFormatInfo::from_u32(code).try_parse(), DataFormat::try_from_u32(code));
        assert_eq!(ColorSpaceInfo::from_u32(code).try_parse().is_some(), code < 4);
        assert_eq!(DataFormatInfo::from_u32(code).try_parse().is_some(), code < 11);
    }
    assert_eq!(ColorSpaceInfo::from_u32(3).try_parse(), Some(ColorSpace::LinearSRGB));
    assert_eq!(DataFormatInfo::from_u32(9).try_parse(), Some(DataFormat::RGBE8));
}

#[test]
fn info_from_variant() {
    assert_eq!(ColorSpaceInfo::from(ColorSpace::SRGB), ColorSpaceInfo::from_u32(2));
    assert_eq!(DataFormatInfo::from(DataFormat::PackedR16F), DataFormatInfo::from_u32(8));
    let info: ColorSpaceInfo = ColorSpace::NonColor.into();
    assert_eq!(info.to_u32(), 0);
    let info: DataFormatInfo = DataFormat::RGBA8.into();
    assert_eq!(info.try_parse(), Some(DataFormat::RGBA8));
}

#[test]
fn sixteen_bytes_in_an_array_are_a_header() {
    let bytes: [u8; 16] = [2, 0, 0, 0, 7, 0, 0, 0, 0x80, 0x02, 0, 0, 0xe0, 0x01, 0, 0];
    let header = Header::from_array(&bytes);
    assert_eq!(header.color_space(), Ok(ColorSpace::SRGB));
    assert_eq!(header.data_format(), Ok(DataFormat::RGBA16F));
    assert_eq!(header.dimensions, [640, 480]);
    assert_eq!(header.to_bytes(), bytes.to_vec());
    let odd: [u8; 16] = [0xff, 0xee, 0xdd, 0xcc, 1, 2, 3, 4, 5, 6, 7, 8, 9, 10, 11, 12];
    let header = Header::from_array(&odd);
    assert_eq!(header.color_space.to_u32(), 0xccdd_eeff);
    assert_eq!(header.data_format.to_u32(), 0x0403_0201);
    assert_eq!(header.dimensions, [0x0807_0605, 0x0c0b_0a09]);
    assert_eq!(header.to_bytes(), odd.to_vec());
    let same = Header::from_bytes(&odd).unwrap();
    assert_eq!(same.to_bytes(), header.to_bytes());
}
