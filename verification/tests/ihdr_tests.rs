use pngmanip::ihdr_data::ColorType;
use pngmanip::ihdr_data::CompressionMethod;
use pngmanip::ihdr_data::FilterMethod;
use pngmanip::ihdr_data::IhdrData;
use pngmanip::ihdr_data::InterlaceMethod;
use pngmanip::DecodeError;

fn ihdr_payload() -> Vec<u8> {
    vec![
        0x00, 0x00, 0x00, 0x20, 0x00, 0x00, 0x00, 0x20, 0x01, 0x00, 0x00, 0x00, 0x01,
    ]
}

fn invalid_ihdr_payload() -> Vec<u8> {
    vec![
        0x00, 0x00, 0x00, 0x20, 0x00, 0x00, 0x00, 0x20, 0x01, 0x0A, 0x00, 0x00, 0x01,
    ]
}

#[test]
fn test_color_type_conversion_for_all_u8() {
    for i in 0..=u8::MAX {
        let ct: ColorType = i.into();
        let val: u8 = ct.into();
        assert_eq!(i, val);
    }
}

#[test]
fn test_compression_method_conversion_for_all_u8() {
    for i in 0..=u8::MAX {
        let ct: CompressionMethod = i.into();
        let val: u8 = ct.into();
        assert_eq!(i, val);
    }
}

#[test]
fn test_filter_method_conversion_for_all_u8() {
    for i in 0..=u8::MAX {
        let ct: FilterMethod = i.into();
        let val: u8 = ct.into();
        assert_eq!(i, val);
    }
}

#[test]
fn test_interlace_method_conversion_for_all_u8() {
    for i in 0..=u8::MAX {
        let ct: InterlaceMethod = i.into();
        let val: u8 = ct.into();
        assert_eq!(i, val);
    }
}

#[test]
fn test_valid_ihdr_parse() {
    let parsed = IhdrData::parse(&ihdr_payload()).unwrap().1;
    assert_eq!(
        parsed,
        IhdrData {
            width: 0x20,
            height: 0x20,
            bit_depth: 1.into(),
            color_type: 0.into(),
            compression_method: 0.into(),
            filter_method: 0.into(),
            interlace_method: 1.into(),
        }
    );
}

#[test]
fn test_valid_ihdr_verify() {
    let parsed = IhdrData::parse(&ihdr_payload()).unwrap().1;
    assert!(parsed.verify());
}

#[test]
fn test_valid_ihdr_serializes() {
    let parsed = IhdrData::parse(&ihdr_payload()).unwrap().1;
    let buf = parsed.serialize();
    assert_eq!(buf, ihdr_payload());
}

#[test]
fn test_ihdr_parse_color_type_invalid() {
    let parsed = IhdrData::parse(&invalid_ihdr_payload()).unwrap().1;
    assert_eq!(
        parsed,
        IhdrData {
            width: 0x20,
            height: 0x20,
            bit_depth: 1.into(),
            color_type: 10.into(),
            compression_method: 0.into(),
            filter_method: 0.into(),
            interlace_method: 1.into(),
        }
    );
}

#[test]
fn test_invalid_ihdr_doesnt_verify() {
    let parsed = IhdrData::parse(&invalid_ihdr_payload()).unwrap().1;
    assert!(!parsed.verify());
}

#[test]
fn test_invalid_ihdr_serializes() {
    let parsed = IhdrData::parse(&invalid_ihdr_payload()).unwrap().1;
    let buf = parsed.serialize();
    assert_eq!(buf, invalid_ihdr_payload());
}

#[test]
fn test_ihdr_parse_incomplete() {
    assert_eq!(IhdrData::parse(&[]), Err(DecodeError::IncompleteInput));
    assert_eq!(
        IhdrData::parse(&ihdr_payload()[..12]),
        Err(DecodeError::IncompleteInput)
    );
}

#[test]
fn test_ihdr_parse_leaves_remaining_bytes() {
    let mut bytes = ihdr_payload();
    bytes.push(0x77);
    let (rest, parsed) = IhdrData::parse(&bytes).unwrap();
    assert_eq!(rest, &[0x77][..]);
    assert_eq!(parsed.width, 0x20);
}

#[test]
fn test_header_round_trip_with_out_of_spec_codes() {
    // every single-byte field out of spec: still reproduced byte for byte
    let bytes = vec![
        0xFF, 0xFF, 0xFF, 0xFF, 0x00, 0x00, 0x00, 0x00, 0x07, 0x09, 0x05, 0x03, 0x02,
    ];
    let parsed = IhdrData::parse(&bytes).unwrap().1;
    assert_eq!(parsed.color_type, ColorType::Unrecognized(9));
    assert_eq!(parsed.compression_method, CompressionMethod::Unrecognized(5));
    assert_eq!(parsed.filter_method, FilterMethod::Unrecognized(3));
    assert_eq!(parsed.interlace_method, InterlaceMethod::Unrecognized(2));
    assert_eq!(parsed.serialize(), bytes);
}

fn valid_fields() -> IhdrData {
    IhdrData {
        width: 32,
        height: 32,
        bit_depth: 8,
        color_type: ColorType::GreyScale,
        compression_method: CompressionMethod::Flate,
        filter_method: FilterMethod::Adaptive,
        interlace_method: InterlaceMethod::NoInterlace,
    }
}

#[test]
fn test_header_validity_table() {
    // bit depth against color type
    let mut d = valid_fields();
    d.bit_depth = 1;
    d.color_type = ColorType::GreyScale;
    assert!(d.verify());
    d.bit_depth = 8;
    d.color_type = ColorType::RGB;
    assert!(d.verify());
    d.bit_depth = 16;
    d.color_type = ColorType::Palette;
    assert!(!d.verify());
    d.bit_depth = 1;
    d.color_type = ColorType::RGB;
    assert!(!d.verify());

    // dimension boundaries
    let mut d = valid_fields();
    d.width = 0;
    assert!(!d.verify());
    d.width = 1 << 31;
    assert!(d.verify());
    d.width = (1u32 << 31) + 1;
    assert!(!d.verify());
    let mut d = valid_fields();
    d.height = 0;
    assert!(!d.verify());

    // interlace codes: none and Adam7 pass, anything else fails
    let mut d = valid_fields();
    d.interlace_method = InterlaceMethod::Adam7;
    assert!(d.verify());
    d.interlace_method = InterlaceMethod::Unrecognized(2);
    assert!(!d.verify());

    // the single known compression and filter codes
    let mut d = valid_fields();
    d.compression_method = CompressionMethod::Unrecognized(1);
    assert!(!d.verify());
    let mut d = valid_fields();
    d.filter_method = FilterMethod::Unrecognized(1);
    assert!(!d.verify());
}
