//! Hexadecimal text to bytes and back, through the `hex` crate.

use crate::text::{dec, dec_usize, hex_text, text, upper};
use vstd::prelude::*;
use vstd::string::StringExecFns;
use vstd::utf8::{encode_utf8, is_ascii_chars};

verus! {

/// Why text is not hexadecimal.
#[derive(Debug, Clone, Copy)]
pub enum HexError {
    InvalidHexCharacter { c: char, index: usize },
    OddLength,
    InvalidStringLength,
}

/// The value of one hexadecimal digit, in either case.
pub open spec fn hex_digit_value(b: u8) -> Option<int> {
    if 48 <= b <= 57 {
        Some(b - 48)
    } else if 97 <= b <= 102 {
        Some(b - 87)
    } else if 65 <= b <= 70 {
        Some(b - 55)
    } else {
        None
    }
}

/// Every byte is a hexadecimal digit.
pub open spec fn all_hex(s: Seq<u8>) -> bool {
    forall|i: int| 0 <= i < s.len() ==> (#[trigger] hex_digit_value(s[i])) is Some
}

/// Each pair of digits as one byte.
pub open spec fn hex_pairs(s: Seq<u8>) -> Seq<u8> {
    Seq::new(
        s.len() / 2,
        |i: int|
            (16 * hex_digit_value(s[2 * i])->0 + hex_digit_value(s[2 * i + 1])->0) as u8,
    )
}

/// The position of the first byte from `from` on that is no hexadecimal digit.
pub open spec fn first_non_hex(s: Seq<u8>, from: int) -> int
    decreases s.len() - from,
{
    if from < 0 || from >= s.len() || hex_digit_value(s[from]) is None {
        from
    } else {
        first_non_hex(s, from + 1)
    }
}

/// The bytes that the hexadecimal digits `s` stand for.
pub open spec fn hex_decoded(s: Seq<u8>) -> Result<Seq<u8>, HexError> {
    if s.len() % 2 != 0 {
        Err(HexError::OddLength)
    } else if all_hex(s) {
        Ok(hex_pairs(s))
    } else {
        let i = first_non_hex(s, 0);
        Err(HexError::InvalidHexCharacter { c: s[i] as char, index: i as usize })
    }
}

/// What a reader is told about text that is not hexadecimal.
pub open spec fn hex_error_text(e: HexError) -> Seq<char> {
    match e {
        HexError::InvalidHexCharacter { c, index } => "Invalid character "@ + char_debug(c)
            + " at position "@ + dec(index as int),
        HexError::OddLength => "Odd number of digits"@,
        HexError::InvalidStringLength => "Invalid string length"@,
    }
}

/// `hex::decode` on the UTF-8 bytes of `s`, with the error as a message.
pub open spec fn hex_parsed(s: Seq<char>) -> Result<Seq<u8>, Seq<char>> {
    match hex_decoded(encode_utf8(s)) {
        Ok(b) => Ok(b),
        Err(e) => Err(hex_error_text(e)),
    }
}

/// How std's `Debug` shows a character: quoted, with escapes.
pub uninterp spec fn char_debug(c: char) -> Seq<char>;

/// std's `Debug` for `char`, whose text depends on the character alone.
#[verifier::external_body]
fn debug_of_char(c: char) -> (r: String)
    ensures
        r@ == char_debug(c),
{
    format!("{:?}", c)
}

/// `hex::encode` writes two lower-case digits for every byte.
#[verifier::external_body]
pub(crate) fn hex_encode(bytes: &[u8]) -> (r: String)
    ensures
        r@ == hex_text(bytes@),
{
    hex::encode(bytes)
}

/// `hex::decode` accepts an even number of digits of either case; otherwise it
/// reports the odd length first, and then the first byte that is no digit.
#[verifier::external_body]
fn hex_decode_bytes(s: &[u8]) -> (r: Result<Vec<u8>, HexError>)
    ensures
        match r {
            Ok(b) => hex_decoded(s@) == Ok::<Seq<u8>, HexError>(b@),
            Err(e) => hex_decoded(s@) == Err::<Seq<u8>, HexError>(e),
        },
{
    hex::decode(s).map_err(
        |e|
            match e {
                hex::FromHexError::InvalidHexCharacter { c, index } =>
                    HexError::InvalidHexCharacter { c, index },
                hex::FromHexError::OddLength => HexError::OddLength,
                hex::FromHexError::InvalidStringLength => HexError::InvalidStringLength,
            },
    )
}

fn describe_hex_error(e: HexError) -> (r: String)
    ensures
        r@ == hex_error_text(e),
{
    match e {
        HexError::InvalidHexCharacter { c, index } => text("Invalid character ").concat(
            debug_of_char(c).as_str(),
        ).concat(" at position ").concat(dec_usize(index).as_str()),
        HexError::OddLength => text("Odd number of digits"),
        HexError::InvalidStringLength => text("Invalid string length"),
    }
}

/// The bytes that hexadecimal text stands for, or a message.
pub(crate) fn hex_decode(s: &str) -> (r: Result<Vec<u8>, String>)
    ensures
        match r {
            Ok(b) => hex_parsed(s@) == Ok::<Seq<u8>, Seq<char>>(b@),
            Err(e) => hex_parsed(s@) == Err::<Seq<u8>, Seq<char>>(e@),
        },
{
    match hex_decode_bytes(s.as_bytes()) {
        Ok(b) => Ok(b),
        Err(e) => Err(describe_hex_error(e)),
    }
}

/// Decoding the hexadecimal text of bytes gives the bytes again.
pub proof fn law_hex_roundtrip(bytes: Seq<u8>)
    ensures
        hex_parsed(hex_text(bytes)) == Ok::<Seq<u8>, Seq<char>>(bytes),
{
    let t = hex_text(bytes);
    assert(is_ascii_chars(t));
    vstd::utf8::is_ascii_chars_encode_utf8(t);
    let s = encode_utf8(t);
    assert forall|i: int| 0 <= i < s.len() implies (#[trigger] hex_digit_value(s[i])) is Some by {
        assert(s[i] == t[i] as u8);
    }
    assert forall|i: int| 0 <= i < bytes.len() implies hex_pairs(s)[i] == bytes[i] by {
        assert(s[2 * i] == t[2 * i] as u8);
        assert(s[2 * i + 1] == t[2 * i + 1] as u8);
        assert((2 * i) / 2 == i && (2 * i + 1) / 2 == i);
        assert(hex_digit_value(s[2 * i]) == Some(bytes[i] as int / 16));
        assert(hex_digit_value(s[2 * i + 1]) == Some(bytes[i] as int % 16));
    }
    assert(hex_pairs(s) =~= bytes);
}

/// Text is hexadecimal exactly if it has an even number of bytes and all are
/// digits of either case; two digits make a byte, the high one first.
pub proof fn law_hex_reading(s: Seq<char>)
    ensures
        hex_parsed(s) is Ok <==> {
            let b = encode_utf8(s);
            &&& b.len() % 2 == 0
            &&& forall|i: int|
                0 <= i < b.len() ==> 48 <= #[trigger] b[i] <= 57 || 65 <= b[i] <= 70 || 97 <= b[i]
                    <= 102
        },
        hex_parsed(s) matches Ok(r) ==> r.len() * 2 == encode_utf8(s).len(),
{
    let b = encode_utf8(s);
    if b.len() % 2 == 0 && all_hex(b) {
        assert forall|i: int| 0 <= i < b.len() implies 48 <= #[trigger] b[i] <= 57 || 65 <= b[i]
            <= 70 || 97 <= b[i] <= 102 by {
            assert(hex_digit_value(b[i]) is Some);
        }
    }
}

/// Upper-case digits mean the same as lower-case ones.
pub proof fn law_hex_ignores_case(bytes: Seq<u8>)
    ensures
        hex_parsed(upper(hex_text(bytes))) == Ok::<Seq<u8>, Seq<char>>(bytes),
{
    let t = upper(hex_text(bytes));
    let l = hex_text(bytes);
    assert forall|i: int| 0 <= i < t.len() implies (#[trigger] t[i] as u32) < 128 by {
        assert(l[i] as u32 <= 102);
    }
    assert(is_ascii_chars(t));
    vstd::utf8::is_ascii_chars_encode_utf8(t);
    let s = encode_utf8(t);
    assert forall|i: int| 0 <= i < s.len() implies (#[trigger] hex_digit_value(s[i])) is Some by {
        assert(s[i] == t[i] as u8);
        assert(t[i] == crate::text::ascii_upper(l[i]));
    }
    assert forall|i: int| 0 <= i < bytes.len() implies hex_pairs(s)[i] == bytes[i] by {
        assert(s[2 * i] == t[2 * i] as u8);
        assert(s[2 * i + 1] == t[2 * i + 1] as u8);
        assert((2 * i) / 2 == i && (2 * i + 1) / 2 == i);
        assert(t[2 * i] == crate::text::ascii_upper(l[2 * i]));
        assert(t[2 * i + 1] == crate::text::ascii_upper(l[2 * i + 1]));
        assert(hex_digit_value(s[2 * i]) == Some(bytes[i] as int / 16));
        assert(hex_digit_value(s[2 * i + 1]) == Some(bytes[i] as int % 16));
    }
    assert(hex_pairs(s) =~= bytes);
}

} // verus!
