use pngme::chunk::Chunk;
use pngme::chunk_type::ChunkType;
use pngme::errors::Error;
use pngme::png::Png;

const SIGNATURE: [u8; 8] = [137, 80, 78, 71, 13, 10, 26, 10];

fn chunk_from(type_code: &str, data: &[u8]) -> Chunk {
    let chunk_type = ChunkType::from_str(type_code).unwrap();
    Chunk::new(chunk_type, data.to_vec())
}

fn minimal_png_bytes() -> Vec<u8> {
    // Signature plus one IHDR-shaped chunk (13-byte payload) with its CRC.
    let ihdr = chunk_from("IHDR", &[0, 0, 0, 1, 0, 0, 0, 1, 8, 0, 0, 0, 0]);
    let mut bytes = SIGNATURE.to_vec();
    bytes.extend_from_slice(&ihdr.encode());
    bytes
}

#[test]
fn round_trip_reproduces_bytes() {
    let mut png = Png::new();
    png.append_chunk(chunk_from("IHDR", &[0, 0, 0, 1, 0, 0, 0, 1, 8, 0, 0, 0, 0]));
    png.append_chunk(chunk_from("teXt", b"some text"));
    png.append_chunk(chunk_from("IEND", &[]));
    let bytes = png.as_bytes();
    let reparsed = Png::parse(&bytes).unwrap();
    assert_eq!(reparsed.as_bytes(), bytes);
}

#[test]
fn chunk_encode_decode_round_trip() {
    let chunk = chunk_from("ruSt", b"payload bytes");
    let encoded = chunk.encode();
    let decoded = Chunk::decode(&encoded).unwrap();
    assert_eq!(decoded.chunk_type().bytes(), chunk.chunk_type().bytes());
    assert_eq!(decoded.data(), chunk.data());
    assert_eq!(decoded.crc(), chunk.crc());
    assert_eq!(decoded.encode(), encoded);
}

#[test]
fn crc_known_value() {
    // The CRC-32/ISO-HDLC checksum of the 4 bytes "IEND" alone.
    let chunk = chunk_from("IEND", &[]);
    assert_eq!(chunk.crc(), 0xAE426082);
    assert_eq!(chunk.length(), 0);
}

#[test]
fn crc_flip_in_payload_fails() {
    let chunk = chunk_from("teSt", b"hello");
    let mut encoded = chunk.encode();
    encoded[8] ^= 0x01; // first payload byte
    assert!(matches!(Chunk::decode(&encoded), Err(Error::BadChunkCrc)));
}

#[test]
fn crc_flip_in_type_fails() {
    let chunk = chunk_from("RuSt", b"hello");
    let mut encoded = chunk.encode();
    encoded[4] ^= 0x20; // 'R' -> 'r': the type stays legal, the CRC does not
    assert!(matches!(Chunk::decode(&encoded), Err(Error::BadChunkCrc)));
}

#[test]
fn type_validation_accepts_letters_only() {
    assert!(ChunkType::from_bytes([b'a', b'Z', b'q', b'M']).is_ok());
    assert_eq!(
        ChunkType::from_bytes([b'a', b'Z', b'1', b'M']),
        Err(Error::InvalidChunkType)
    );
    assert_eq!(
        ChunkType::from_bytes([b'a', b'Z', b'!', b'M']),
        Err(Error::InvalidChunkType)
    );
    assert_eq!(
        ChunkType::from_bytes([b'a', 0xC3, b'q', b'M']),
        Err(Error::InvalidChunkType)
    );
    assert_eq!(ChunkType::from_str("abc"), Err(Error::InvalidChunkType));
    assert_eq!(ChunkType::from_str("abcde"), Err(Error::InvalidChunkType));
    assert_eq!(ChunkType::from_str("ab\u{e9}d"), Err(Error::InvalidChunkType));
}

#[test]
fn property_bits() {
    let rust_mixed = ChunkType::from_str("RuSt").unwrap();
    assert!(rust_mixed.is_critical());
    assert!(!rust_mixed.is_public());
    assert!(rust_mixed.is_reserved_bit_valid());
    assert!(rust_mixed.is_safe_to_copy());

    let rust_lower = ChunkType::from_str("Rust").unwrap();
    assert!(!rust_lower.is_reserved_bit_valid());
}

#[test]
fn lookup_and_removal() {
    let mut png = Png::new();
    png.append_chunk(chunk_from("teSt", b"hello"));
    let removed = png.remove_chunk("teSt").unwrap();
    assert_eq!(removed.data_as_text().unwrap(), "hello");
    assert!(png.chunk_by_type("teSt").is_none());
}

#[test]
fn duplicate_types_remove_first_only() {
    let mut png = Png::new();
    png.append_chunk(chunk_from("teSt", b"first"));
    png.append_chunk(chunk_from("teSt", b"second"));
    let removed = png.remove_chunk("teSt").unwrap();
    assert_eq!(removed.data_as_text().unwrap(), "first");
    assert_eq!(png.chunks().len(), 1);
    let left = png.chunk_by_type("teSt").unwrap();
    assert_eq!(left.data_as_text().unwrap(), "second");
}

#[test]
fn remove_from_empty_fails() {
    let mut png = Png::new();
    assert!(matches!(png.remove_chunk("abcd"), Err(Error::NoSuchChunk)));
    assert!(matches!(png.remove_chunk("ab"), Err(Error::NoSuchChunk)));
}

#[test]
fn malformed_inputs() {
    assert!(matches!(Png::parse(&[137, 80, 78]), Err(Error::FileTooShort)));
    assert!(matches!(
        Png::parse(&[1, 2, 3, 4, 5, 6, 7, 8]),
        Err(Error::InvalidHeader)
    ));
    // Valid signature, then a length field larger than what remains.
    let mut bytes = SIGNATURE.to_vec();
    bytes.extend_from_slice(&[0, 0, 0, 100, b'I', b'H', b'D', b'R', 0, 0, 0, 0]);
    assert!(matches!(Png::parse(&bytes), Err(Error::ChunkLengthInvalid)));
}

#[test]
fn decode_framing_errors() {
    assert!(matches!(Chunk::decode(&[0, 0, 0, 0, 0]), Err(Error::ChunkTooShort)));
    assert!(matches!(
        Chunk::decode(&[0, 0, 0, 0, b'1', b'H', b'D', b'R', 0, 0, 0, 0]),
        Err(Error::InvalidChunkType)
    ));
}

#[test]
fn end_to_end_hidden_message() {
    let bytes = minimal_png_bytes();
    let mut png = Png::parse(&bytes).unwrap();
    png.append_chunk(chunk_from("ruSt", b"secret message"));
    let serialized = png.as_bytes();
    let reparsed = Png::parse(&serialized).unwrap();
    let found = reparsed.chunk_by_type("ruSt").unwrap();
    assert_eq!(found.data_as_text().unwrap(), "secret message");
}

#[test]
fn data_as_text_decodes_utf8() {
    // A two-byte encoding: the text differs from the raw bytes, so decoding
    // really happened.
    let chunk = chunk_from("teXt", &[0xC3, 0xA9]);
    assert_eq!(chunk.data_as_text().unwrap(), "\u{e9}");

    let binary = chunk_from("teXt", &[0xFF, 0x00]);
    assert!(binary.data_as_text().is_none());
}

#[test]
fn error_messages() {
    assert_eq!(Error::FileTooShort.message(), "File too short");
    assert_eq!(Error::BadChunkCrc.message(), "Bad CRC");
    assert_eq!(Error::NoSuchChunk.message(), "Could not find chunk with given type");
}
