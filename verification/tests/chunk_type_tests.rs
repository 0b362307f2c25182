use pngme::chunk_type::{ChunkType, ChunkTypeError};

#[test]
pub fn test_chunk_type_from_bytes() {
    let expected = [82, 117, 83, 116];
    let actual = ChunkType::try_from([82, 117, 83, 116]).unwrap();

    assert_eq!(expected, actual.bytes());
}

#[test]
pub fn test_chunk_type_from_str() {
    let expected = ChunkType::try_from([82, 117, 83, 116]).unwrap();
    let actual = ChunkType::from_str("RuSt").unwrap();
    assert_eq!(expected, actual);
}

#[test]
pub fn test_chunk_type_is_critical() {
    let chunk = ChunkType::from_str("RuSt").unwrap();
    assert!(chunk.is_critical());
}

#[test]
pub fn test_chunk_type_is_not_critical() {
    let chunk = ChunkType::from_str("ruSt").unwrap();
    assert!(!chunk.is_critical());
}

#[test]
pub fn test_chunk_type_is_public() {
    let chunk = ChunkType::from_str("RUSt").unwrap();
    assert!(chunk.is_public());
}

#[test]
pub fn test_chunk_type_is_not_public() {
    let chunk = ChunkType::from_str("RuSt").unwrap();
    assert!(!chunk.is_public());
}

#[test]
pub fn test_chunk_type_is_reserved_bit_valid() {
    let chunk = ChunkType::from_str("Rust").unwrap();
    assert!(chunk.is_reserved_bit_valid());
}

#[test]
pub fn test_chunk_type_is_reserved_bit_invalid() {
    let chunk = ChunkType::from_str("RuSt").unwrap();
    assert!(!chunk.is_reserved_bit_valid());
}

#[test]
pub fn test_chunk_type_is_safe_to_copy() {
    let chunk = ChunkType::from_str("RuSt").unwrap();
    assert!(chunk.is_safe_to_copy());
}

#[test]
pub fn test_chunk_type_is_unsafe_to_copy() {
    let chunk = ChunkType::from_str("RuST").unwrap();
    assert!(!chunk.is_safe_to_copy());
}

#[test]
pub fn test_valid_chunk_is_valid() {
    let chunk = ChunkType::from_str("RuSt").unwrap();
    assert!(chunk.is_valid().is_ok());
}

#[test]
pub fn test_invalid_chunk_is_valid() {
    let chunk = ChunkType::from_str("Rust").unwrap();
    assert!(chunk.is_valid().is_ok());

    let chunk = ChunkType::from_str("Ru1t");
    assert!(chunk.is_err());
}

#[test]
pub fn test_chunk_type_string() {
    let chunk = ChunkType::from_str("RuSt").unwrap();
    assert_eq!(&chunk.to_string(), "RuSt");
}

#[test]
pub fn test_chunk_type_trait_impls() {
    let chunk_type_1: ChunkType = ChunkType::try_from([82, 117, 83, 116]).unwrap();
    let chunk_type_2: ChunkType = ChunkType::from_str("RuSt").unwrap();
    let _chunk_string = format!("{}", chunk_type_1.to_string());
    let _are_chunks_equal = chunk_type_1 == chunk_type_2;
}

#[test]
pub fn parse_accepts_four_letters() {
    let parsed = ChunkType::from_str("Rust").unwrap();
    assert_eq!(parsed.bytes(), [b'R', b'u', b's', b't']);
}

#[test]
pub fn parse_reports_first_invalid_character() {
    assert_eq!(
        ChunkType::from_str("Ru1t"),
        Err(ChunkTypeError::InvalidCharacter(2, b'1'))
    );
    assert_eq!(
        ChunkType::from_str("R_1t"),
        Err(ChunkTypeError::InvalidCharacter(1, b'_'))
    );
    assert_eq!(
        ChunkType::try_from([0, 1, 2, 3]),
        Err(ChunkTypeError::InvalidCharacter(0, 0))
    );
    assert_eq!(
        ChunkType::try_from([b'a', b'b', b'c', b'{']),
        Err(ChunkTypeError::InvalidCharacter(3, b'{'))
    );
}

#[test]
pub fn parse_reports_wrong_length() {
    assert_eq!(
        ChunkType::from_str("Ru"),
        Err(ChunkTypeError::InvalidCharacterLength(2))
    );
    assert_eq!(
        ChunkType::from_str(""),
        Err(ChunkTypeError::InvalidCharacterLength(0))
    );
    assert_eq!(
        ChunkType::from_str("RuStX"),
        Err(ChunkTypeError::InvalidCharacterLength(5))
    );
}

#[test]
pub fn parse_counts_bytes_not_characters() {
    // Two characters of two bytes each: four bytes, none of them a letter.
    assert_eq!(
        ChunkType::from_str("\u{e9}\u{e9}"),
        Err(ChunkTypeError::InvalidCharacter(0, 0xc3))
    );
    // Four characters, five bytes.
    assert_eq!(
        ChunkType::from_str("Ru\u{e9}t"),
        Err(ChunkTypeError::InvalidCharacterLength(5))
    );
}

#[test]
pub fn letters_at_the_edges_of_the_alphabet() {
    assert!(ChunkType::try_from([b'A', b'Z', b'a', b'z']).is_ok());
    assert_eq!(
        ChunkType::try_from([b'@', b'Z', b'a', b'z']),
        Err(ChunkTypeError::InvalidCharacter(0, b'@'))
    );
    assert_eq!(
        ChunkType::try_from([b'A', b'[', b'a', b'z']),
        Err(ChunkTypeError::InvalidCharacter(1, b'['))
    );
    assert_eq!(
        ChunkType::try_from([b'A', b'Z', b'`', b'z']),
        Err(ChunkTypeError::InvalidCharacter(2, b'`'))
    );
}

#[test]
pub fn derived_properties_of_rust_code() {
    let code = ChunkType::try_from([82, 117, 83, 116]).unwrap();
    assert!(code.is_critical());
    assert!(!code.is_public());
    assert!(!code.is_reserved_bit_valid());
    assert!(code.is_safe_to_copy());
}

#[test]
pub fn has_text_compares_the_four_letters() {
    let code = ChunkType::from_str("teSt").unwrap();
    assert!(code.has_text("teSt"));
    assert!(!code.has_text("test"));
    assert!(!code.has_text("teS"));
    assert!(!code.has_text("teSt "));
    assert!(!code.has_text(""));
}

#[test]
pub fn to_string_gives_back_what_was_parsed() {
    for text in ["IHDR", "IDAT", "IEND", "teSt", "abcd", "ZZZZ"] {
        let code = ChunkType::from_str(text).unwrap();
        assert_eq!(code.to_string(), text);
        assert_eq!(code.bytes().to_vec(), text.as_bytes().to_vec());
    }
}
