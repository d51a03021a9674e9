use pngmanip::ihdr_data::ColorType;
use pngmanip::ihdr_data::CompressionMethod;
use pngmanip::ihdr_data::FilterMethod;
use pngmanip::ihdr_data::IhdrData;
use pngmanip::ihdr_data::InterlaceMethod;
use pngmanip::Chunk;
use pngmanip::DecodeError;
use pngmanip::Image;

const SIGNATURE: [u8; 8] = [0x89, 0x50, 0x4E, 0x47, 0x0D, 0x0A, 0x1A, 0x0A];

fn ihdr_chunk_bytes() -> Vec<u8> {
    vec![
        0x00, 0x00, 0x00, 0x0D, 0x49, 0x48, 0x44, 0x52, 0x00, 0x00, 0x00, 0x20, 0x00, 0x00, 0x00,
        0x20, 0x01, 0x00, 0x00, 0x00, 0x01, 0x2C, 0x06, 0x77, 0xCF,
    ]
}

fn iend_chunk_bytes() -> Vec<u8> {
    vec![
        0x00, 0x00, 0x00, 0x00, 0x49, 0x45, 0x4E, 0x44, 0xAE, 0x42, 0x60, 0x82,
    ]
}

fn sample_png() -> Vec<u8> {
    let mut bytes = SIGNATURE.to_vec();
    bytes.extend(ihdr_chunk_bytes());
    bytes.extend(iend_chunk_bytes());
    bytes
}

#[test]
fn test_image_parse_and_round_trip() {
    let bytes = sample_png();
    let image = Image::parse(&bytes).unwrap();
    assert_eq!(image.chunks.len(), 2);
    assert_eq!(image.chunks[0].chunk_type, b"IHDR".to_vec());
    assert_eq!(image.chunks[1].chunk_type, b"IEND".to_vec());
    assert_eq!(image.serialize(), bytes);
}

#[test]
fn test_concrete_header_scenario() {
    // the 25-byte record: an IHDR chunk of a 32x32, 1-bit grayscale,
    // deflate, adaptive, Adam7-interlaced image with a matching checksum
    let bytes = ihdr_chunk_bytes();
    let (rest, chunk) = Chunk::parse(&bytes).unwrap();
    assert!(rest.is_empty());
    assert_eq!(chunk.chunk_type, b"IHDR".to_vec());
    assert_eq!(chunk.length, 13);
    assert!(chunk.verify());

    let fields = IhdrData::parse(&chunk.chunk_data).unwrap().1;
    assert_eq!(fields.width, 32);
    assert_eq!(fields.height, 32);
    assert_eq!(fields.bit_depth, 1);
    assert_eq!(fields.color_type, ColorType::GreyScale);
    assert_eq!(fields.compression_method, CompressionMethod::Flate);
    assert_eq!(fields.filter_method, FilterMethod::Adaptive);
    assert_eq!(fields.interlace_method, InterlaceMethod::Adam7);

    assert_eq!(chunk.serialize(), bytes);
}

#[test]
fn test_signature_mismatch_vs_incomplete() {
    // seven bytes that already diverge: the mismatch wins
    let diverging = [0x89, 0x50, 0x4E, 0x47, 0x0D, 0x0A, 0xFF];
    assert_eq!(Image::parse(&diverging), Err(DecodeError::SignatureMismatch));

    // seven bytes that agree so far: only the input ended too early
    let short = &SIGNATURE[..7];
    assert_eq!(Image::parse(short), Err(DecodeError::IncompleteInput));

    // all eight present but the last one wrong
    let mut wrong_last = SIGNATURE;
    wrong_last[7] = 0x00;
    assert_eq!(Image::parse(&wrong_last), Err(DecodeError::SignatureMismatch));

    // a wrong first byte
    let mut wrong_first = sample_png();
    wrong_first[0] = 0x88;
    assert_eq!(Image::parse(&wrong_first), Err(DecodeError::SignatureMismatch));
}

#[test]
fn test_image_parse_requires_a_chunk() {
    // the signature alone decodes zero chunks: incomplete input
    assert_eq!(Image::parse(&SIGNATURE), Err(DecodeError::IncompleteInput));
}

#[test]
fn test_image_parse_fails_mid_stream() {
    // a trailing byte that no chunk covers
    let mut bytes = sample_png();
    bytes.push(0x00);
    assert_eq!(Image::parse(&bytes), Err(DecodeError::IncompleteInput));

    // a chunk with a non-ASCII type tag mid-stream
    let mut bytes = SIGNATURE.to_vec();
    bytes.extend(ihdr_chunk_bytes());
    let mut bad = iend_chunk_bytes();
    bad[4] = 0xC3;
    bytes.extend(bad);
    assert_eq!(Image::parse(&bytes), Err(DecodeError::MalformedTypeTag));
}

#[test]
fn test_verify_reports_first_invalid_chunk() {
    let image = Image::parse(&sample_png()).unwrap();
    assert_eq!(image.verify(), Ok(()));

    // corrupt one payload byte of the first chunk, checksum left alone
    let mut tampered = image.clone();
    tampered.chunks[0].chunk_data[0] ^= 0x01;
    assert_eq!(tampered.verify(), Err(0));
    // the other chunk's verification is untouched
    assert!(tampered.chunks[1].verify());

    // corrupt the second chunk's stored checksum instead
    let mut tampered = image.clone();
    tampered.chunks[1].crc ^= 0x8000_0000;
    assert_eq!(tampered.verify(), Err(1));
    assert!(tampered.chunks[0].verify());
}

#[test]
fn test_fix_crc_after_tampering() {
    let mut image = Image::parse(&sample_png()).unwrap();
    image.chunks[0].chunk_data[8] = 0x08;
    assert_eq!(image.verify(), Err(0));
    image.chunks[0].fix_crc();
    assert_eq!(image.verify(), Ok(()));
}

#[test]
fn test_get_first_chunk() {
    let image = Image::parse(&sample_png()).unwrap();
    let iend = image.get_first_chunk(b"IEND").unwrap();
    assert_eq!(iend.length, 0);
    assert!(image.get_first_chunk(b"PLTE").is_none());
}

#[test]
fn test_get_first_chunk_mut() {
    let mut image = Image::parse(&sample_png()).unwrap();
    {
        let ihdr = image.get_first_chunk_mut(b"IHDR").unwrap();
        ihdr.chunk_data[12] = 0x00; // interlace off
        ihdr.fix_crc();
    }
    assert_eq!(image.verify(), Ok(()));
    let fields = IhdrData::parse(&image.chunks[0].chunk_data).unwrap().1;
    assert_eq!(fields.interlace_method, InterlaceMethod::NoInterlace);
    assert!(image.get_first_chunk_mut(b"tEXt").is_none());
}

#[test]
fn test_image_new_from_chunks() {
    let mut first = Chunk {
        length: 13,
        chunk_type: b"IHDR".to_vec(),
        chunk_data: vec![
            0x00, 0x00, 0x00, 0x20, 0x00, 0x00, 0x00, 0x20, 0x01, 0x00, 0x00, 0x00, 0x01,
        ],
        crc: 0,
    };
    first.fix_crc();
    let mut last = Chunk {
        length: 0,
        chunk_type: b"IEND".to_vec(),
        chunk_data: vec![],
        crc: 0,
    };
    last.fix_crc();
    let image = Image::new(vec![first, last]);
    assert_eq!(image.verify(), Ok(()));
    assert_eq!(image.serialize(), sample_png());
}
