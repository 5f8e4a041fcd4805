use edmipng::chunk_type::ChunkType;
use edmipng::error::PngError;

#[test]
pub fn test_chunk_type_from_bytes() {
    let expected = [82, 117, 83, 116];
    let actual = ChunkType::parse([82, 117, 83, 116]).unwrap();

    assert_eq!(expected, actual.bytes());
}

#[test]
pub fn test_chunk_type_from_str() {
    let expected = ChunkType::parse([82, 117, 83, 116]).unwrap();
    let actual = ChunkType::parse_str("RuSt").unwrap();
    assert_eq!(expected, actual);
}

#[test]
pub fn test_chunk_type_is_critical() {
    let chunk = ChunkType::parse_str("RuSt").unwrap();
    assert!(chunk.is_critical());
}

#[test]
pub fn test_chunk_type_is_not_critical() {
    let chunk = ChunkType::parse_str("ruSt").unwrap();
    assert!(!chunk.is_critical());
}

#[test]
pub fn test_chunk_type_is_public() {
    let chunk = ChunkType::parse_str("RUSt").unwrap();
    assert!(chunk.is_public());
}

#[test]
pub fn test_chunk_type_is_not_public() {
    let chunk = ChunkType::parse_str("RuSt").unwrap();
    assert!(!chunk.is_public());
}

#[test]
pub fn test_chunk_type_is_reserved_bit_valid() {
    let chunk = ChunkType::parse_str("RuSt").unwrap();
    assert!(chunk.is_reserved_bit_valid());
}

#[test]
pub fn test_chunk_type_is_reserved_bit_invalid() {
    let chunk = ChunkType::parse_str("Rust").unwrap();
    assert!(!chunk.is_reserved_bit_valid());
}

#[test]
pub fn test_chunk_type_is_safe_to_copy() {
    let chunk = ChunkType::parse_str("RuSt").unwrap();
    assert!(chunk.is_safe_to_copy());
}

#[test]
pub fn test_chunk_type_is_unsafe_to_copy() {
    let chunk = ChunkType::parse_str("RuST").unwrap();
    assert!(!chunk.is_safe_to_copy());
}

#[test]
pub fn test_valid_chunk_is_valid() {
    let chunk = ChunkType::parse_str("RuSt").unwrap();
    assert!(chunk.is_valid());
}

#[test]
pub fn test_invalid_chunk_is_valid() {
    let chunk = ChunkType::parse_str("Rust").unwrap();
    assert!(!chunk.is_valid());

    let chunk = ChunkType::parse_str("Ru1t");
    assert!(chunk.is_err());
}

#[test]
pub fn test_chunk_type_string() {
    let chunk = ChunkType::parse_str("RuSt").unwrap();
    assert_eq!(&chunk.to_string(), "RuSt");
}

#[test]
pub fn test_chunk_type_trait_impls() {
    let chunk_type_1: ChunkType = ChunkType::parse([82, 117, 83, 116]).unwrap();
    let chunk_type_2: ChunkType = ChunkType::parse_str("RuSt").unwrap();
    let _chunk_string = format!("{}", chunk_type_1.to_string());
    let _are_chunks_equal = chunk_type_1 == chunk_type_2;
}

#[test]
fn test_reserved_bit_independent_of_other_cases() {
    // Validity tracks the third byte's case alone, for every combination of
    // cases in the other three bytes.
    for code in ["ruSt", "rUSt", "RUSt", "RuST"] {
        let t = ChunkType::parse_str(code).unwrap();
        assert!(t.is_valid());
    }
    for code in ["rust", "rUst", "RUst", "RusT"] {
        let t = ChunkType::parse_str(code).unwrap();
        assert!(!t.is_valid());
    }
}

#[test]
fn test_chunk_type_wrong_length_str() {
    assert_eq!(ChunkType::parse_str("abc"), Err(PngError::InvalidLength));
    assert_eq!(ChunkType::parse_str("abcde"), Err(PngError::InvalidLength));
    assert_eq!(ChunkType::parse_str(""), Err(PngError::InvalidLength));
}

#[test]
fn test_chunk_type_rejects_non_letters() {
    assert_eq!(ChunkType::parse([82, 117, 49, 116]), Err(PngError::InvalidEncoding));
    assert_eq!(ChunkType::parse_str("Ru1t"), Err(PngError::InvalidEncoding));
    assert_eq!(ChunkType::parse([0, 0, 0, 0]), Err(PngError::InvalidEncoding));
}
