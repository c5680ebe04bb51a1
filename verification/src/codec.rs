//! The byte-level text encodings the pipeline leans on: base64 in both
//! directions, hex decoding of tabular-feed serials, and UTF-8 decoding
//! of attribute values. Each outside call sits behind one trusted
//! wrapper; everything downstream of them is verified.

use vstd::prelude::*;

verus! {

/// The standard, padded base64 encoding of `b`, as `base64::encode`
/// produces it.
pub uninterp spec fn b64_of(b: Seq<u8>) -> Seq<char>;

/// What `base64::decode` gives back for `s`: the decoded bytes, or
/// nothing when `s` is not valid base64.
pub uninterp spec fn b64_decoded(s: Seq<char>) -> Option<Seq<u8>>;

/// What `String::from_utf8` gives back for `b`: the decoded characters,
/// or nothing when `b` is not valid UTF-8.
pub uninterp spec fn utf8_str(b: Seq<u8>) -> Option<Seq<char>>;

/// `c` is an ASCII hex digit.
pub open spec fn is_hex_digit(c: char) -> bool {
    ('0' <= c && c <= '9') || ('a' <= c && c <= 'f') || ('A' <= c && c <= 'F')
}

/// The numeric value of the hex digit `c`.
pub open spec fn hex_digit_val(c: char) -> int {
    if '0' <= c && c <= '9' {
        c as int - '0' as int
    } else if 'a' <= c && c <= 'f' {
        c as int - 'a' as int + 10
    } else {
        c as int - 'A' as int + 10
    }
}

/// `s` is a well-formed hex string: an even number of hex digits.
pub open spec fn is_hex(s: Seq<char>) -> bool {
    s.len() % 2 == 0 && (forall|i: int| 0 <= i < s.len() ==> is_hex_digit(s[i]))
}

/// The bytes a well-formed hex string stands for, two digits per byte.
pub open spec fn hex_bytes(s: Seq<char>) -> Seq<u8> {
    Seq::new((s.len() / 2) as nat, |i: int| (hex_digit_val(s[2 * i]) * 16 + hex_digit_val(s[2 * i + 1])) as u8)
}

/// Relies on `base64::encode`: the standard, padded encoding, a function
/// of the input bytes alone.
#[verifier::external_body]
pub(crate) fn b64_encode(b: &[u8]) -> (r: String)
    ensures
        r@ == b64_of(b@),
{
    base64::encode(b)
}

/// Relies on `base64::decode`: recovers the bytes behind a base64 string,
/// a function of the input string alone; fails exactly on input that is
/// not valid base64.
#[verifier::external_body]
pub(crate) fn b64_decode(s: &str) -> (r: Option<Vec<u8>>)
    ensures
        match r {
            Some(b) => b64_decoded(s@) == Some(b@),
            None => b64_decoded(s@) is None,
        },
{
    match base64::decode(s) {
        Ok(v) => Some(v),
        Err(_) => None,
    }
}

/// Relies on `hex::decode`: succeeds exactly on an even number of hex
/// digits (either case), giving one byte per digit pair.
#[verifier::external_body]
pub(crate) fn hex_decode(s: &str) -> (r: Option<Vec<u8>>)
    ensures
        match r {
            Some(b) => is_hex(s@) && b@ == hex_bytes(s@),
            None => !is_hex(s@),
        },
{
    match hex::decode(s) {
        Ok(v) => Some(v),
        Err(_) => None,
    }
}

/// Relies on `String::from_utf8`: succeeds exactly on valid UTF-8, and
/// the characters are a function of the bytes alone.
#[verifier::external_body]
pub(crate) fn bytes_to_string(b: Vec<u8>) -> (r: Option<String>)
    ensures
        match r {
            Some(s) => utf8_str(b@) == Some(s@),
            None => utf8_str(b@) is None,
        },
{
    match String::from_utf8(b) {
        Ok(s) => Some(s),
        Err(_) => None,
    }
}

} // verus!
