use edmipng::chunk::Chunk;
use edmipng::chunk_type::ChunkType;
use edmipng::error::PngError;

fn testing_chunk() -> Chunk {
    let data_length: u32 = 42;
    let chunk_type = "RuSt".as_bytes();
    let message_bytes = "This is where your secret message will be!".as_bytes();
    let crc: u32 = 2882656334;

    let chunk_data: Vec<u8> = data_length
        .to_be_bytes()
        .iter()
        .chain(chunk_type.iter())
        .chain(message_bytes.iter())
        .chain(crc.to_be_bytes().iter())
        .copied()
        .collect();

    Chunk::parse(chunk_data.as_ref()).unwrap()
}

#[test]
fn test_new_chunk() {
    let chunk_type = ChunkType::parse_str("RuSt").unwrap();
    let data = "This is where your secret message will be!"
        .as_bytes()
        .to_vec();
    let chunk = Chunk::new(chunk_type, data);
    assert_eq!(chunk.length(), 42);
    assert_eq!(chunk.crc(), 2882656334);
}

#[test]
fn test_chunk_length() {
    let chunk = testing_chunk();
    assert_eq!(chunk.length(), 42);
}

#[test]
fn test_chunk_type() {
    let chunk = testing_chunk();
    assert_eq!(chunk.chunk_type().to_string(), String::from("RuSt"));
}

#[test]
fn test_chunk_string() {
    let chunk = testing_chunk();
    let chunk_string = chunk.data_as_string().unwrap();
    let expected_chunk_string = String::from("This is where your secret message will be!");
    assert_eq!(chunk_string, expected_chunk_string);
}

#[test]
fn test_chunk_crc() {
    let chunk = testing_chunk();
    assert_eq!(chunk.crc(), 2882656334);
}

#[test]
fn test_valid_chunk_from_bytes() {
    let data_length: u32 = 42;
    let chunk_type = "RuSt".as_bytes();
    let message_bytes = "This is where your secret message will be!".as_bytes();
    let crc: u32 = 2882656334;

    let chunk_data: Vec<u8> = data_length
        .to_be_bytes()
        .iter()
        .chain(chunk_type.iter())
        .chain(message_bytes.iter())
        .chain(crc.to_be_bytes().iter())
        .copied()
        .collect();

    let chunk = Chunk::parse(chunk_data.as_ref()).unwrap();

    let chunk_string = chunk.data_as_string().unwrap();
    let expected_chunk_string = String::from("This is where your secret message will be!");

    assert_eq!(chunk.length(), 42);
    assert_eq!(chunk.chunk_type().to_string(), String::from("RuSt"));
    assert_eq!(chunk_string, expected_chunk_string);
    assert_eq!(chunk.crc(), 2882656334);
}

#[test]
fn test_invalid_chunk_from_bytes() {
    let data_length: u32 = 42;
    let chunk_type = "RuSt".as_bytes();
    let message_bytes = "This is where your secret message will be!".as_bytes();
    let crc: u32 = 2882656333;

    let chunk_data: Vec<u8> = data_length
        .to_be_bytes()
        .iter()
        .chain(chunk_type.iter())
        .chain(message_bytes.iter())
        .chain(crc.to_be_bytes().iter())
        .copied()
        .collect();

    let chunk = Chunk::parse(chunk_data.as_ref());

    assert!(chunk.is_err());
}

#[test]
pub fn test_chunk_trait_impls() {
    let data_length: u32 = 42;
    let chunk_type = "RuSt".as_bytes();
    let message_bytes = "This is where your secret message will be!".as_bytes();
    let crc: u32 = 2882656334;

    let chunk_data: Vec<u8> = data_length
        .to_be_bytes()
        .iter()
        .chain(chunk_type.iter())
        .chain(message_bytes.iter())
        .chain(crc.to_be_bytes().iter())
        .copied()
        .collect();

    let chunk: Chunk = Chunk::parse(chunk_data.as_ref()).unwrap();

    let _chunk_string = format!("{}", chunk.data_as_string().unwrap());
}

#[test]
fn test_chunk_round_trip() {
    let chunk_type = ChunkType::parse_str("ruSt").unwrap();
    let chunk = Chunk::new(chunk_type, vec![1, 2, 3, 4, 5]);
    let bytes = chunk.as_bytes();
    let reparsed = Chunk::parse(&bytes).unwrap();
    assert_eq!(reparsed.chunk_type().bytes(), chunk.chunk_type().bytes());
    assert_eq!(reparsed.data(), chunk.data());
    assert_eq!(reparsed.length(), chunk.length());
    assert_eq!(reparsed.crc(), chunk.crc());
}

#[test]
fn test_chunk_empty_payload_round_trip() {
    let chunk_type = ChunkType::parse_str("teXt").unwrap();
    let chunk = Chunk::new(chunk_type, Vec::new());
    assert_eq!(chunk.length(), 0);
    let bytes = chunk.as_bytes();
    assert_eq!(bytes.len(), 12);
    let reparsed = Chunk::parse(&bytes).unwrap();
    assert_eq!(reparsed.data(), chunk.data());
    assert_eq!(reparsed.crc(), chunk.crc());
}

#[test]
fn test_checksum_sensitive_to_every_bit() {
    // Flipping any single bit in the type or data region must be caught by
    // the checksum.
    let chunk = testing_chunk();
    let bytes = chunk.as_bytes();
    for byte_index in 4..(bytes.len() - 4) {
        for bit in 0..8 {
            let mut corrupted = bytes.clone();
            corrupted[byte_index] ^= 1 << bit;
            match Chunk::parse(&corrupted) {
                Err(PngError::ChecksumMismatch) => {}
                // A flip in the type region can also break the letters-only
                // rule before the checksum is ever compared.
                Err(PngError::InvalidEncoding) => assert!(byte_index < 8),
                other => panic!("corrupted chunk accepted: {:?}", other.is_ok()),
            }
        }
    }
}

#[test]
fn test_any_other_stored_checksum_rejected() {
    let chunk = testing_chunk();
    let mut bytes = chunk.as_bytes();
    let n = bytes.len();
    bytes[n - 1] = bytes[n - 1].wrapping_add(1);
    assert_eq!(Chunk::parse(&bytes).err(), Some(PngError::ChecksumMismatch));
}

#[test]
fn test_chunk_truncation_errors() {
    assert_eq!(Chunk::parse(&[]).err(), Some(PngError::TruncatedLength));
    assert_eq!(Chunk::parse(&[0, 0, 0]).err(), Some(PngError::TruncatedLength));
    assert_eq!(Chunk::parse(&[0, 0, 0, 0, 82, 117]).err(), Some(PngError::TruncatedType));
    assert_eq!(
        Chunk::parse(&[0, 0, 0, 9, 82, 117, 83, 116, 1, 2]).err(),
        Some(PngError::TruncatedData)
    );
    assert_eq!(
        Chunk::parse(&[0, 0, 0, 1, 82, 117, 83, 116, 1, 2, 3]).err(),
        Some(PngError::TruncatedCrc)
    );
}

#[test]
fn test_chunk_data_not_utf8() {
    let chunk_type = ChunkType::parse_str("ruSt").unwrap();
    let chunk = Chunk::new(chunk_type, vec![0xff, 0xfe, 0x00]);
    assert_eq!(chunk.data_as_string(), Err(PngError::NotUtf8));
}
