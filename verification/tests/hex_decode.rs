//! Tests of the hex decoding utility: round values, case-insensitivity, and
//! the two error conditions with their exact positions.

use simd_needle::hex::decode;
use simd_needle::hex::FromHexError;

#[test]
fn decode_simple_pairs() {
    assert_eq!(decode(b"48656c6c6f"), Ok(b"Hello".to_vec()));
    assert_eq!(decode(b"00ff10"), Ok(vec![0x00, 0xff, 0x10]));
}

#[test]
fn decode_is_case_insensitive() {
    assert_eq!(decode(b"DEADBEEF"), Ok(vec![0xde, 0xad, 0xbe, 0xef]));
    assert_eq!(decode(b"deadbeef"), Ok(vec![0xde, 0xad, 0xbe, 0xef]));
    assert_eq!(decode(b"DeAdBeEf"), Ok(vec![0xde, 0xad, 0xbe, 0xef]));
}

#[test]
fn decode_empty_input() {
    assert_eq!(decode(b""), Ok(Vec::new()));
}

#[test]
fn decode_odd_length() {
    assert_eq!(decode(b"abc"), Err(FromHexError::OddLength));
    assert_eq!(decode(b"0"), Err(FromHexError::OddLength));
}

#[test]
fn decode_invalid_character_reports_position() {
    assert_eq!(
        decode(b"abgh"),
        Err(FromHexError::InvalidHexCharacter { c: 'g', index: 2 })
    );
    assert_eq!(
        decode(b"zz"),
        Err(FromHexError::InvalidHexCharacter { c: 'z', index: 0 })
    );
    assert_eq!(
        decode(b"0a1x"),
        Err(FromHexError::InvalidHexCharacter { c: 'x', index: 3 })
    );
}

#[test]
fn decode_reports_first_invalid_character() {
    assert_eq!(
        decode(b"a!b!"),
        Err(FromHexError::InvalidHexCharacter { c: '!', index: 1 })
    );
}
