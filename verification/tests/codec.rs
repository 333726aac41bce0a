use pngme::Chunk;
use pngme::ChunkDecodingError;
use pngme::ChunkType;
use pngme::ChunkTypeDecodingError;

fn sample_chunk() -> Chunk {
    let ty = ChunkType::from_str("ruSt").unwrap();
    Chunk::new(ty, b"hello".to_vec())
}

#[test]
fn test_chunk_round_trip() {
    let chunk = sample_chunk();
    let bytes = chunk.as_bytes();
    let back = Chunk::decode(bytes.as_ref()).unwrap();
    assert_eq!(back.length(), chunk.length());
    assert_eq!(back.chunk_type().bytes(), chunk.chunk_type().bytes());
    assert_eq!(back.data(), chunk.data());
    assert_eq!(back.crc(), chunk.crc());
}

#[test]
fn test_chunk_round_trip_empty_data() {
    let ty = ChunkType::from_str("teXt").unwrap();
    let chunk = Chunk::new(ty, Vec::new());
    let bytes = chunk.as_bytes();
    assert_eq!(bytes.len(), 12);
    let back = Chunk::decode(bytes.as_ref()).unwrap();
    assert_eq!(back.length(), 0);
    assert_eq!(back.crc(), chunk.crc());
}

#[test]
fn test_crc_field_tamper_detected() {
    let chunk = sample_chunk();
    let bytes = chunk.as_bytes();
    let crc_start = bytes.len() - 4;
    for byte in crc_start..bytes.len() {
        for bit in 0..8 {
            let mut tampered = bytes.clone();
            tampered[byte] ^= 1 << bit;
            let r = Chunk::decode(tampered.as_ref());
            assert!(matches!(r, Err(ChunkDecodingError::CrcMismatch(_, _))));
        }
    }
}

#[test]
fn test_data_tamper_detected() {
    let chunk = sample_chunk();
    let bytes = chunk.as_bytes();
    for byte in 8..bytes.len() - 4 {
        for bit in 0..8 {
            let mut tampered = bytes.clone();
            tampered[byte] ^= 1 << bit;
            let r = Chunk::decode(tampered.as_ref());
            assert!(matches!(r, Err(ChunkDecodingError::CrcMismatch(_, _))));
        }
    }
}

#[test]
fn test_type_tamper_detected() {
    let chunk = sample_chunk();
    let bytes = chunk.as_bytes();
    for byte in 4..8 {
        for bit in 0..8 {
            let mut tampered = bytes.clone();
            tampered[byte] ^= 1 << bit;
            // The flip either leaves the letter ranges (rejected as a bad
            // byte) or changes the type code under an unchanged checksum
            // (rejected as a mismatch); it is never accepted.
            assert!(Chunk::decode(tampered.as_ref()).is_err());
        }
    }
    // Flipping bit 5 keeps a type byte inside the letter ranges, so that
    // flip must be caught by the checksum alone.
    let mut tampered = bytes.clone();
    tampered[4] ^= 1 << 5;
    let r = Chunk::decode(tampered.as_ref());
    assert!(matches!(r, Err(ChunkDecodingError::CrcMismatch(_, _))));
}

#[test]
fn test_length_bound_rejected() {
    // A declared length of 2^31 is over the bound, whatever follows.
    let mut bytes: Vec<u8> = 0x8000_0000u32.to_be_bytes().to_vec();
    bytes.extend_from_slice(b"RuSt");
    let r = Chunk::decode(bytes.as_ref());
    assert!(matches!(
        r,
        Err(ChunkDecodingError::LengthTooLarge(0x8000_0000))
    ));
}

#[test]
fn test_length_bound_accepted() {
    // A declared length of 2^31 - 1 passes the bound check: the decoder
    // goes on to read the data and only then reports the short buffer.
    let mut bytes: Vec<u8> = 0x7fff_ffffu32.to_be_bytes().to_vec();
    bytes.extend_from_slice(b"RuSt");
    let r = Chunk::decode(bytes.as_ref());
    assert!(matches!(r, Err(ChunkDecodingError::Truncated)));
}

#[test]
fn test_truncated_input() {
    let r = Chunk::decode(&[0, 0, 0]);
    assert!(matches!(r, Err(ChunkDecodingError::Truncated)));
    let r = Chunk::decode(&[0, 0, 0, 5, b'R', b'u']);
    assert!(matches!(r, Err(ChunkDecodingError::Truncated)));
}

#[test]
fn test_decode_bad_type_byte() {
    let mut bytes: Vec<u8> = 2u32.to_be_bytes().to_vec();
    bytes.extend_from_slice(b"Ru1t");
    bytes.extend_from_slice(&[0, 0]);
    bytes.extend_from_slice(&[0, 0, 0, 0]);
    let r = Chunk::decode(bytes.as_ref());
    assert!(matches!(r, Err(ChunkDecodingError::BadByte(b'1'))));
}

#[test]
fn test_from_str_bad_length() {
    let r = ChunkType::from_str("Rus");
    assert!(matches!(r, Err(ChunkTypeDecodingError::BadLength(3))));
    let r = ChunkType::from_str("Rusty");
    assert!(matches!(r, Err(ChunkTypeDecodingError::BadLength(5))));
}

#[test]
fn test_from_bytes_reports_first_bad_byte() {
    let r = ChunkType::from_bytes([b'R', b'1', b'2', b't']);
    assert!(matches!(r, Err(ChunkTypeDecodingError::BadByte(b'1'))));
}

#[test]
fn test_data_as_string_invalid_utf8() {
    let ty = ChunkType::from_str("ruSt").unwrap();
    let chunk = Chunk::new(ty, vec![0xff, 0xfe, 0xfd]);
    assert!(chunk.data_as_string().is_err());
    // The best-effort rendering falls back to a placeholder.
    assert_eq!(chunk.to_string(), "ruSt\t[data]");
}

#[test]
fn test_chunk_to_string() {
    let chunk = sample_chunk();
    assert_eq!(chunk.to_string(), "ruSt\thello");
}

#[test]
fn test_decode_ignores_trailing_bytes() {
    let chunk = sample_chunk();
    let mut bytes = chunk.as_bytes();
    bytes.extend_from_slice(&[1, 2, 3]);
    let back = Chunk::decode(bytes.as_ref()).unwrap();
    assert_eq!(back.crc(), chunk.crc());
}
