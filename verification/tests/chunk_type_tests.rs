use pngme::chunk::ChunkError;
use pngme::chunk_type::ChunkType;

#[test]
fn test_rust_mixed_case_flags() {
    let t = ChunkType::from_str("RuSt").unwrap();
    assert!(t.is_valid());
    assert!(t.is_critical());
    assert!(!t.is_public());
    assert!(t.is_reserved_bit_clear());
    assert!(t.is_safe_to_copy());
}

#[test]
fn test_reserved_bit_set_parses_but_invalid() {
    let t = ChunkType::from_str("Rust").unwrap();
    assert!(!t.is_reserved_bit_clear());
    assert!(!t.is_valid());
}

#[test]
fn test_non_alphabetic_rejected() {
    let r = ChunkType::from_str("Ru1t");
    assert_eq!(r.unwrap_err(), ChunkError::InvalidFormat);
}

#[test]
fn test_wrong_length_rejected() {
    assert_eq!(
        ChunkType::from_str("RuS").unwrap_err(),
        ChunkError::InvalidFormat
    );
    assert_eq!(
        ChunkType::from_str("RuStX").unwrap_err(),
        ChunkError::InvalidFormat
    );
    assert_eq!(
        ChunkType::from_str("").unwrap_err(),
        ChunkError::InvalidFormat
    );
}

#[test]
fn test_from_bytes_any_bytes() {
    let t = ChunkType::from_bytes([0x00, 0xff, 0x20, 0x5f]);
    assert_eq!(t.as_bytes(), [0x00, 0xff, 0x20, 0x5f]);
    assert!(!t.is_valid());
    assert!(t.is_critical());
    assert!(!t.is_public());
    assert!(!t.is_safe_to_copy());
}

#[test]
fn test_ancillary_trial_type() {
    let t = ChunkType::from_str("rUSt").unwrap();
    assert!(!t.is_critical());
    assert!(t.is_public());
    assert!(t.is_valid());
    assert!(t.is_safe_to_copy());
}

#[test]
fn test_round_trip_text() {
    let t = ChunkType::from_str("bLOb").unwrap();
    assert_eq!(t.to_string(), "bLOb");
    let u = ChunkType::from_bytes(t.as_bytes());
    assert_eq!(u, t);
}
