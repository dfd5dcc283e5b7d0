//! Hexadecimal text: what it encodes, and the calls that encode and decode
//! it.
//!
//! Seeds and board digests are shown as lower-case hexadecimal. The text is
//! read and written by the `hex` crate; this module states, over plain
//! sequences, what those calls return.

use vstd::prelude::*;
use vstd::utf8::{encode_utf8, is_ascii_chars, is_ascii_chars_encode_utf8};

verus! {

/// Why a text is no hexadecimal encoding of bytes.
#[derive(Debug, PartialEq, Eq, Structural, Clone, Copy)]
pub enum FromHexError {
    /// The byte at `index`, read as the character `c`, is no hexadecimal
    /// digit.
    InvalidHexCharacter { c: char, index: usize },
    /// The text has an odd number of bytes: half a digit pair is left over.
    OddLength,
    /// The text does not have the length that a fixed-size result asks for.
    InvalidStringLength,
}

/// The value of a hexadecimal digit given as an ASCII byte, in either case;
/// `None` for any other byte.
pub open spec fn digit_value(b: u8) -> Option<int> {
    if 0x30 <= b <= 0x39 {
        Some(b - 0x30)
    } else if 0x61 <= b <= 0x66 {
        Some(b - 0x61 + 10)
    } else if 0x41 <= b <= 0x46 {
        Some(b - 0x41 + 10)
    } else {
        None
    }
}

/// Whether `text` encodes bytes: an even number of hexadecimal digits.
pub open spec fn is_hex(text: Seq<u8>) -> bool {
    text.len() % 2 == 0 && forall|i: int| 0 <= i < text.len() ==> digit_value(#[trigger] text[i])
        is Some
}

/// The bytes that `text` encodes, two digits to the byte, high digit first.
pub open spec fn decoded(text: Seq<u8>) -> Seq<u8> {
    Seq::new(
        text.len() / 2,
        |k: int| (16 * digit_value(text[2 * k]).unwrap() + digit_value(text[2 * k + 1]).unwrap()) as u8,
    )
}

impl FromHexError {
    /// Whether this is the error that decoding `text` ends in: odd length
    /// comes before everything else, and otherwise the first byte that is no
    /// digit is named.
    pub open spec fn explains(self, text: Seq<u8>) -> bool {
        match self {
            FromHexError::OddLength => text.len() % 2 == 1,
            FromHexError::InvalidHexCharacter { c, index } => {
                &&& text.len() % 2 == 0
                &&& index < text.len()
                &&& digit_value(text[index as int]) is None
                &&& forall|i: int| 0 <= i < index ==> digit_value(#[trigger] text[i]) is Some
                &&& c == text[index as int] as char
            },
            FromHexError::InvalidStringLength => false,
        }
    }
}

/// The lower-case hexadecimal digit for a value below sixteen.
pub open spec fn digit_char(v: int) -> char {
    if v < 10 {
        (0x30 + v) as u8 as char
    } else {
        (0x61 + v - 10) as u8 as char
    }
}

/// The lower-case hexadecimal text for `data`: two digits for every byte,
/// high digit first.
pub open spec fn hex_text(data: Seq<u8>) -> Seq<char> {
    Seq::new(
        2 * data.len(),
        |i: int|
            if i % 2 == 0 {
                digit_char(data[i / 2] as int / 16)
            } else {
                digit_char(data[i / 2] as int % 16)
            },
    )
}

/// Calls `hex::decode` on the bytes of a text. The call succeeds exactly on
/// an even number of hexadecimal digits, upper or lower case, and then
/// returns one byte for every pair, high digit first. It fails with
/// `OddLength` on any text of odd length, and otherwise with the position
/// and value of the first byte that is no digit; `InvalidStringLength` is
/// not among its errors. The error is handed on variant by variant.
#[verifier::external_body]
pub(crate) fn decode(text: &[u8]) -> (res: Result<Vec<u8>, FromHexError>)
    ensures
        match res {
            Ok(bytes) => is_hex(text@) && bytes@ == decoded(text@),
            Err(e) => e.explains(text@),
        },
{
    match hex::decode(text) {
        Ok(bytes) => Ok(bytes),
        Err(hex::FromHexError::InvalidHexCharacter { c, index }) => {
            Err(FromHexError::InvalidHexCharacter { c, index })
        },
        Err(hex::FromHexError::OddLength) => Err(FromHexError::OddLength),
        Err(hex::FromHexError::InvalidStringLength) => Err(FromHexError::InvalidStringLength),
    }
}

/// Calls `hex::encode`, which writes every byte as two lower-case
/// hexadecimal digits, high digit first.
#[verifier::external_body]
pub(crate) fn encode(data: &[u8]) -> (text: String)
    ensures
        text@ == hex_text(data@),
{
    hex::encode(data)
}

/// Every digit that encoding writes is a digit that decoding reads, with
/// the value that it was written for.
pub proof fn lemma_digit_round_trip(v: int)
    requires
        0 <= v < 16,
    ensures
        digit_value(digit_char(v) as u8) == Some(v),
        '\0' <= digit_char(v) <= '\u{7f}',
{
}

/// Decoding undoes encoding: the text that encoding writes for `data` is
/// plain ASCII, its bytes are an even number of hexadecimal digits, and
/// they decode to `data` again.
pub proof fn lemma_decode_undoes_encode(data: Seq<u8>)
    ensures
        is_ascii_chars(hex_text(data)),
        is_hex(encode_utf8(hex_text(data))),
        decoded(encode_utf8(hex_text(data))) == data,
{
    let text = hex_text(data);
    assert forall|i: int| 0 <= i < text.len() implies '\0' <= #[trigger] text[i] <= '\u{7f}' by {
        let b = data[i / 2] as int;
        if i % 2 == 0 {
            lemma_digit_round_trip(b / 16);
        } else {
            lemma_digit_round_trip(b % 16);
        }
    }
    is_ascii_chars_encode_utf8(text);
    let bytes = encode_utf8(text);
    assert forall|i: int| 0 <= i < bytes.len() implies digit_value(#[trigger] bytes[i])
        is Some by {
        let b = data[i / 2] as int;
        assert(text[i] as u8 == bytes[i]);
        if i % 2 == 0 {
            lemma_digit_round_trip(b / 16);
        } else {
            lemma_digit_round_trip(b % 16);
        }
    }
    assert forall|k: int| 0 <= k < data.len() implies #[trigger] decoded(bytes)[k] == data[k] by {
        let b = data[k] as int;
        assert(text[2 * k] as u8 == bytes[2 * k]);
        assert(text[2 * k + 1] as u8 == bytes[2 * k + 1]);
        assert((2 * k) / 2 == k && (2 * k) % 2 == 0);
        assert((2 * k + 1) / 2 == k && (2 * k + 1) % 2 == 1);
        lemma_digit_round_trip(b / 16);
        lemma_digit_round_trip(b % 16);
    }
    assert(decoded(bytes) =~= data);
}

} // verus!
