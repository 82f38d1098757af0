use pngme::chunk::Chunk;
use pngme::chunk_type::ChunkType;
use pngme::commands;
use pngme::png::Png;
use pngme::PngError;

const SIGNATURE: [u8; 8] = [0x89, 0x50, 0x4e, 0x47, 0x0d, 0x0a, 0x1a, 0x0a];

fn chunk(tag: &str, data: &[u8]) -> Chunk {
    Chunk::new(ChunkType::from_str(tag).unwrap(), data.to_vec())
}

fn minimal_png_bytes() -> Vec<u8> {
    let png = Png::from_chunks(vec![
        chunk("IHDR", &[1, 2, 3, 4]),
        chunk("IEND", &[]),
    ]);
    png.as_bytes()
}

#[test]
fn test_chunk_round_trip() {
    let original = chunk("TeSt", b"some payload");
    let bytes = original.as_bytes();
    let reparsed = Chunk::parse(bytes.as_slice()).unwrap();
    assert_eq!(reparsed.length(), original.length());
    assert_eq!(reparsed.chunk_type().bytes(), original.chunk_type().bytes());
    assert_eq!(reparsed.data(), original.data());
    assert_eq!(reparsed.crc(), original.crc());
}

#[test]
fn test_png_round_trip() {
    let bytes = minimal_png_bytes();
    let png = Png::parse(bytes.as_slice()).unwrap();
    assert_eq!(png.chunks().len(), 2);
    assert_eq!(png.as_bytes(), bytes);
}

#[test]
fn test_png_header() {
    let bytes = minimal_png_bytes();
    assert_eq!(&bytes[0..8], &SIGNATURE);
    let png = Png::parse(bytes.as_slice()).unwrap();
    assert_eq!(png.header(), SIGNATURE);
}

#[test]
fn test_bad_signature() {
    let mut bytes = minimal_png_bytes();
    bytes[0] = 0x88;
    assert_eq!(Png::parse(bytes.as_slice()).unwrap_err(), PngError::BadSignature);
    let short: [u8; 3] = [0x89, 0x50, 0x4e];
    assert_eq!(Png::parse(&short).unwrap_err(), PngError::BadSignature);
}

#[test]
fn test_oversized_length_is_parse_error() {
    // A declared length far past the end of the buffer must be rejected
    // before any slicing happens.
    let mut bytes: Vec<u8> = Vec::new();
    bytes.extend_from_slice(&[0xff, 0xff, 0xff, 0xff]);
    bytes.extend_from_slice(b"RuSt");
    bytes.extend_from_slice(&[0, 0, 0, 0]);
    assert_eq!(Chunk::parse(bytes.as_slice()).unwrap_err(), PngError::Truncated);

    let mut png_bytes = minimal_png_bytes();
    png_bytes.extend_from_slice(&[0xff, 0xff, 0xff, 0xff]);
    png_bytes.extend_from_slice(b"RuSt");
    assert_eq!(Png::parse(png_bytes.as_slice()).unwrap_err(), PngError::Truncated);
}

#[test]
fn test_single_bit_flips_are_detected() {
    // Flipping any single bit of a serialized chunk's length, type,
    // payload or checksum makes the chunk fail to parse.
    let original = chunk("RuSt", b"This is where your secret message will be!");
    let bytes = original.as_bytes();
    for byte_idx in 0..bytes.len() {
        for bit in 0..8 {
            let mut tampered = bytes.clone();
            tampered[byte_idx] ^= 1u8 << bit;
            let result = Chunk::parse(tampered.as_slice());
            assert!(
                result.is_err(),
                "bit {} of byte {} flipped without a parse error",
                bit,
                byte_idx
            );
        }
    }
}

#[test]
fn test_invalid_tag_in_chunk() {
    let mut bytes: Vec<u8> = Vec::new();
    bytes.extend_from_slice(&[0, 0, 0, 0]);
    bytes.extend_from_slice(b"Ru1t");
    bytes.extend_from_slice(&[0, 0, 0, 0]);
    assert_eq!(Chunk::parse(bytes.as_slice()).unwrap_err(), PngError::InvalidTag);
}

#[test]
fn test_append_find_remove() {
    let bytes = minimal_png_bytes();
    let mut png = Png::parse(bytes.as_slice()).unwrap();
    assert!(png.chunk_by_type("ruSt").is_none());

    png.append_chunk(chunk("ruSt", b"hidden"));
    let found = png.chunk_by_type("ruSt").expect("appended chunk not found");
    assert_eq!(found.data(), b"hidden");

    png.remove_chunk("ruSt").unwrap();
    assert!(png.chunk_by_type("ruSt").is_none());
    assert_eq!(png.remove_chunk("ruSt").unwrap_err(), PngError::NotFound);
    assert_eq!(png.chunks().len(), 2);
}

#[test]
fn test_first_match_wins() {
    let mut png = Png::from_chunks(vec![
        chunk("ruSt", b"first"),
        chunk("ruSt", b"second"),
    ]);
    assert_eq!(png.chunk_by_type("ruSt").unwrap().data(), b"first");
    png.remove_chunk("ruSt").unwrap();
    assert_eq!(png.chunk_by_type("ruSt").unwrap().data(), b"second");
}

#[test]
fn test_encode_then_decode() {
    let bytes = minimal_png_bytes();
    let encoded = commands::encode(bytes.as_slice(), "ruSt", "hello").unwrap();
    let message = commands::decode(encoded.as_slice(), "ruSt").unwrap();
    assert_eq!(message, "hello");
}

#[test]
fn test_encode_errors() {
    let bytes = minimal_png_bytes();
    assert_eq!(
        commands::encode(bytes.as_slice(), "Ru1t", "hello").unwrap_err(),
        PngError::InvalidTag
    );
    let garbage: [u8; 4] = [1, 2, 3, 4];
    assert_eq!(
        commands::encode(&garbage, "ruSt", "hello").unwrap_err(),
        PngError::BadSignature
    );
}

#[test]
fn test_decode_errors() {
    let bytes = minimal_png_bytes();
    assert_eq!(
        commands::decode(bytes.as_slice(), "ruSt").unwrap_err(),
        PngError::NotFound
    );
    let mut png = Png::parse(bytes.as_slice()).unwrap();
    png.append_chunk(chunk("ruSt", &[0xff, 0xfe]));
    let with_binary = png.as_bytes();
    assert_eq!(
        commands::decode(with_binary.as_slice(), "ruSt").unwrap_err(),
        PngError::NotUtf8
    );
}

#[test]
fn test_remove_command() {
    let bytes = minimal_png_bytes();
    let encoded = commands::encode(bytes.as_slice(), "ruSt", "hello").unwrap();
    let removed = commands::remove(encoded.as_slice(), "ruSt").unwrap();
    assert_eq!(removed, bytes);
    assert_eq!(
        commands::remove(bytes.as_slice(), "ruSt").unwrap_err(),
        PngError::NotFound
    );
}

#[test]
fn test_data_as_string_rejects_bad_utf8() {
    let c = chunk("ruSt", &[0xc3, 0x28]);
    assert_eq!(c.data_as_string().unwrap_err(), PngError::NotUtf8);
}

#[test]
fn test_chunk_render() {
    let c = chunk("RuSt", b"hi");
    let expected_crc = c.crc();
    let expected = format!("Chunk {{\n  Length: 2\n  Type: RuSt\n  Data: hi\n  Crc: {}\n}}\n", expected_crc);
    assert_eq!(c.render(), expected);
}

#[test]
fn test_print_command() {
    let bytes = minimal_png_bytes();
    let summary = commands::print(bytes.as_slice()).unwrap();
    assert!(summary.contains("Type: IHDR"));
    assert!(summary.contains("Type: IEND"));
    let garbage: [u8; 2] = [0, 1];
    assert_eq!(commands::print(&garbage).unwrap_err(), PngError::BadSignature);
}

#[test]
fn test_checksum_matches_known_value() {
    // CRC-32 (ISO-HDLC) over the tag bytes followed by the payload.
    let c = chunk("RuSt", b"This is where your secret message will be!");
    assert_eq!(c.crc(), 2882656334);
    assert_eq!(c.length(), 42);
}

#[test]
fn test_from_str_length_check() {
    assert!(ChunkType::from_str("RuS").is_err());
    assert!(ChunkType::from_str("RuStx").is_err());
    assert!(ChunkType::from_str("").is_err());
}
