//! Hex decoding: a standalone, pure utility that converts an ASCII hex
//! string (pairs of digits, case-insensitive) into bytes, reporting the
//! position of the first invalid character or an odd input length.

use vstd::prelude::*;

verus! {

/// `c` is an ASCII hex digit (0-9, a-f, or A-F).
pub open spec fn is_hex_digit(c: u8) -> bool {
    ||| 48 <= c <= 57
    ||| 97 <= c <= 102
    ||| 65 <= c <= 70
}

/// Numeric value of an ASCII hex digit.
pub open spec fn hex_digit_value(c: u8) -> u8 {
    if 48 <= c <= 57 {
        (c - 48) as u8
    } else if 97 <= c <= 102 {
        (c - 97 + 10) as u8
    } else {
        (c - 65 + 10) as u8
    }
}

/// The bytes denoted by a hex string: one byte per digit pair.
pub open spec fn decoded_bytes(s: Seq<u8>) -> Seq<u8> {
    Seq::new((s.len() / 2) as nat, |k: int| (hex_digit_value(s[2 * k]) * 16 + hex_digit_value(s[2 * k + 1])) as u8)
}

/// Errors that can occur when decoding hex strings
#[derive(Debug, Clone, Copy, PartialEq, Eq, Structural)]
pub enum FromHexError {
    /// Invalid character found at specified index
    InvalidHexCharacter { c: char, index: usize },
    /// Input string has an odd length
    OddLength,
    /// Input length cannot be represented
    InvalidStringLength,
}

/// Converts a hex character to its numeric value, reporting the character
/// and its position on failure.
fn val(c: u8, idx: usize) -> (r: Result<u8, FromHexError>)
    ensures
        match r {
            Ok(v) => is_hex_digit(c) && v == hex_digit_value(c) && v < 16,
            Err(e) => !is_hex_digit(c) && e == (FromHexError::InvalidHexCharacter {
                c: c as char,
                index: idx,
            }),
        },
{
    if 65 <= c && c <= 70 {
        Ok(c - 65 + 10)
    } else if 97 <= c && c <= 102 {
        Ok(c - 97 + 10)
    } else if 48 <= c && c <= 57 {
        Ok(c - 48)
    } else {
        Err(FromHexError::InvalidHexCharacter { c: c as char, index: idx })
    }
}

/// Decodes a hex string into a vector of bytes.
///
/// Succeeds exactly when the input has even length and every character is a
/// hex digit; the result then holds one byte per digit pair. An odd-length
/// input yields `OddLength`; otherwise the first invalid character is
/// reported with its position.
pub fn decode(data: &[u8]) -> (r: Result<Vec<u8>, FromHexError>)
    ensures
        match r {
            Ok(v) => {
                &&& data@.len() % 2 == 0
                &&& forall|i: int| 0 <= i < data@.len() ==> is_hex_digit(#[trigger] data@[i])
                &&& v@ == decoded_bytes(data@)
            },
            Err(e) => match e {
                FromHexError::OddLength => data@.len() % 2 != 0,
                FromHexError::InvalidHexCharacter { c, index } => {
                    &&& data@.len() % 2 == 0
                    &&& index < data@.len()
                    &&& !is_hex_digit(data@[index as int])
                    &&& c == data@[index as int] as char
                    &&& forall|i: int| 0 <= i < index ==> is_hex_digit(#[trigger] data@[i])
                },
                FromHexError::InvalidStringLength => false,
            },
        },
{
    let len = data.len();
    if len % 2 != 0 {
        return Err(FromHexError::OddLength);
    }
    let mut out: Vec<u8> = Vec::new();
    let mut i: usize = 0;
    while i < len
        invariant
            len == data@.len(),
            len % 2 == 0,
            i % 2 == 0,
            0 <= i <= len,
            out@.len() == i / 2,
            forall|t: int| 0 <= t < i ==> is_hex_digit(#[trigger] data@[t]),
            forall|k: int| 0 <= k < i / 2 ==> out@[k] == decoded_bytes(data@)[k],
        decreases len - i,
    {
        let hi = match val(data[i], i) {
            Ok(v) => v,
            Err(e) => return Err(e),
        };
        let lo = match val(data[i + 1], i + 1) {
            Ok(v) => v,
            Err(e) => return Err(e),
        };
        out.push(hi * 16 + lo);
        i += 2;
    }
    proof {
        assert(out@ =~= decoded_bytes(data@));
    }
    Ok(out)
}

} // verus!
