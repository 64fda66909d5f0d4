//! Decoding submitted rule text into pattern bytes, and the stored text form.
use vstd::prelude::*;

use crate::rule::RuleTypeDTO;

verus! {

#[verifier::external_type_specification]
#[verifier::external_body]
pub struct ExFromHexError(hex::FromHexError);

#[verifier::external_type_specification]
#[verifier::external_body]
pub struct ExDecodeError(base64::DecodeError);

/// The value of an ASCII hex digit of either case.
pub open spec fn hex_digit_value(c: char) -> Option<int> {
    if '0' <= c && c <= '9' {
        Some(c as int - '0' as int)
    } else if 'a' <= c && c <= 'f' {
        Some(c as int - 'a' as int + 10)
    } else if 'A' <= c && c <= 'F' {
        Some(c as int - 'A' as int + 10)
    } else {
        None
    }
}

/// Strict hex: an even number of hex digits, two to a byte, high digit first.
pub open spec fn hex_decoded(s: Seq<char>) -> Option<Seq<u8>> {
    if s.len() % 2 == 0 && forall|i: int| 0 <= i < s.len() ==> (#[trigger] hex_digit_value(s[i])) is Some {
        Some(
            Seq::new(
                (s.len() / 2) as nat,
                |i: int| (hex_digit_value(s[2 * i])->0 * 16 + hex_digit_value(s[2 * i + 1])->0) as u8,
            ),
        )
    } else {
        None
    }
}

/// The bytes that standard base64 (with padding) decodes `s` to, if it is valid.
pub uninterp spec fn base64_decoded(s: Seq<char>) -> Option<Seq<u8>>;

/// The standard base64 text (with padding) of `b`.
pub uninterp spec fn base64_encoded(b: Seq<u8>) -> Seq<char>;

/// The pattern that `text` stands for under `kind`, or `None` where it does not decode.
pub open spec fn decoded_pattern(text: Seq<char>, kind: RuleTypeDTO) -> Option<Seq<u8>> {
    match kind {
        RuleTypeDTO::Ascii => Some(vstd::utf8::encode_utf8(text)),
        RuleTypeDTO::Hex => hex_decoded(text),
        RuleTypeDTO::Base64 => base64_decoded(text),
    }
}

/// Relies on hex::decode: pairs of hex digits of either case become bytes; an odd
/// length or any other character is an error.
#[verifier::external_body]
fn hex_decode(text: &str) -> (r: Result<Vec<u8>, hex::FromHexError>)
    ensures
        r is Ok <==> hex_decoded(text@) is Some,
        r matches Ok(b) ==> hex_decoded(text@) == Some(b@),
{
    hex::decode(text)
}

/// Relies on base64's standard engine `decode`: the result is a function of the text.
#[verifier::external_body]
fn base64_decode(text: &str) -> (r: Result<Vec<u8>, base64::DecodeError>)
    ensures
        r is Ok <==> base64_decoded(text@) is Some,
        r matches Ok(b) ==> base64_decoded(text@) == Some(b@),
{
    base64::Engine::decode(&base64::prelude::BASE64_STANDARD, text)
}

/// Relies on base64's standard engine `encode`: the text is a function of the
/// bytes, and the same engine's `decode` gives the bytes back.
#[verifier::external_body]
pub(crate) fn base64_encode(bytes: &[u8]) -> (r: String)
    ensures
        r@ == base64_encoded(bytes@),
        base64_decoded(r@) == Some(bytes@),
{
    base64::Engine::encode(&base64::prelude::BASE64_STANDARD, bytes)
}

/// Why a submitted rule text was refused.
#[derive(Clone, Copy, Debug, PartialEq, Eq, Structural)]
pub enum DecodeFailure {
    InvalidHex,
    InvalidBase64,
}

/// Decodes `text` according to `kind`: UTF-8 bytes for ASCII, strict hex, or
/// standard base64.
pub fn decode_rule_text(text: &String, kind: RuleTypeDTO) -> (r: Result<Vec<u8>, DecodeFailure>)
    ensures
        match r {
            Ok(b) => decoded_pattern(text@, kind) == Some(b@),
            Err(e) => decoded_pattern(text@, kind) is None && e == (match kind {
                RuleTypeDTO::Hex => DecodeFailure::InvalidHex,
                _ => DecodeFailure::InvalidBase64,
            }),
        },
{
    match kind {
        RuleTypeDTO::Ascii => Ok(vstd::slice::slice_to_vec(text.as_str().as_bytes())),
        RuleTypeDTO::Hex => match hex_decode(text.as_str()) {
            Ok(b) => Ok(b),
            Err(_) => Err(DecodeFailure::InvalidHex),
        },
        RuleTypeDTO::Base64 => match base64_decode(text.as_str()) {
            Ok(b) => Ok(b),
            Err(_) => Err(DecodeFailure::InvalidBase64),
        },
    }
}

} // verus!
