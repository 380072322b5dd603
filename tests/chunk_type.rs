use pngme::chunk_type::ChunkType;
use pngme::error::PngError;
use std::convert::TryFrom;

#[test]
pub fn test_chunk_type_from_bytes() {
    let expected = [82, 117, 83, 116];
    let actual = ChunkType::try_from([82, 117, 83, 116]).unwrap();

    assert_eq!(expected, actual.bytes());
}

#[test]
pub fn test_chunk_type_from_str() {
    let expected = ChunkType::try_from([82, 117, 83, 116]).unwrap();
    let actual = ChunkType::from_str("RuSt").unwrap();
    assert_eq!(expected, actual);
}

#[test]
pub fn test_chunk_type_is_critical() {
    let chunk = ChunkType::from_str("RuSt").unwrap();
    assert!(chunk.is_critical());
}

#[test]
pub fn test_chunk_type_is_not_critical() {
    let chunk = ChunkType::from_str("ruSt").unwrap();
    assert!(!chunk.is_critical());
}

#[test]
pub fn test_chunk_type_is_public() {
    let chunk = ChunkType::from_str("RUSt").unwrap();
    assert!(chunk.is_public());
}

#[test]
pub fn test_chunk_type_is_not_public() {
    let chunk = ChunkType::from_str("RuSt").unwrap();
    assert!(!chunk.is_public());
}

#[test]
pub fn test_chunk_type_is_reserved_bit_valid() {
    let chunk = ChunkType::from_str("RuSt").unwrap();
    assert!(chunk.is_reserved_bit_valid());
}

#[test]
pub fn test_chunk_type_is_reserved_bit_invalid() {
    let chunk = ChunkType::from_str("Rust").unwrap();
    assert!(!chunk.is_reserved_bit_valid());
}

#[test]
pub fn test_chunk_type_is_safe_to_copy() {
    let chunk = ChunkType::from_str("RuSt").unwrap();
    assert!(chunk.is_safe_to_copy());
}

#[test]
pub fn test_chunk_type_is_unsafe_to_copy() {
    let chunk = ChunkType::from_str("RuST").unwrap();
    assert!(!chunk.is_safe_to_copy());
}

#[test]
fn tag_properties_of_rust() {
    let t = ChunkType::from_str("RuSt").unwrap();
    assert!(t.is_critical());
    assert!(!t.is_public());
    assert!(t.is_reserved_bit_valid());
    assert!(t.is_safe_to_copy());
}

#[test]
fn tag_text_round_trip() {
    let t = ChunkType::from_str("ruSt").unwrap();
    assert_eq!(t.to_string(), String::from("ruSt"));
    assert_eq!(t.bytes(), [114, 117, 83, 116]);
}

#[test]
fn tag_from_bytes_keeps_bytes() {
    let t = ChunkType::from_bytes([1, 2, 3, 4]);
    assert_eq!(t.bytes(), [1, 2, 3, 4]);
    assert!(!t.is_critical());
}

#[test]
fn tag_equality_is_case_sensitive() {
    let a = ChunkType::from_str("RuSt").unwrap();
    let b = ChunkType::from_str("rust").unwrap();
    assert_ne!(a, b);
}

#[test]
fn tag_text_of_wrong_length_is_refused() {
    assert_eq!(ChunkType::from_str("Rus"), Err(PngError::FormatError));
    assert_eq!(ChunkType::from_str("RuStX"), Err(PngError::FormatError));
    assert_eq!(ChunkType::from_str(""), Err(PngError::FormatError));
}

#[test]
fn tag_text_with_non_letters_is_refused() {
    assert_eq!(ChunkType::from_str("Ru1t"), Err(PngError::FormatError));
    assert_eq!(ChunkType::from_str("R St"), Err(PngError::FormatError));
}
