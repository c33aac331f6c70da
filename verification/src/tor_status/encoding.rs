//! Base64 and hexadecimal encodings of relay identities, done by the
//! `base64` and `hex` crates.

use vstd::prelude::*;
use base64::Engine;

verus! {

/// What the `base64` crate's `STANDARD_NO_PAD` engine decodes the text
/// `input` to (standard alphabet, no `=` padding accepted, non-zero
/// trailing bits rejected), or `None` where it reports an error.
pub uninterp spec fn base64_standard_no_pad(input: Seq<char>) -> Option<Seq<u8>>;

/// `bytes` followed by zero bytes up to a length of 20.
pub open spec fn zero_padded(bytes: Seq<u8>) -> Seq<u8> {
    bytes + Seq::new((20 - bytes.len()) as nat, |i: int| 0u8)
}

/// `Engine::decode_slice` of `base64::prelude::BASE64_STANDARD_NO_PAD` into a
/// zeroed 20-byte buffer. The crate writes exactly the decoded bytes at the
/// front of the buffer and reports an error when the text is not valid base64
/// for that engine or when the decoded bytes do not fit in the buffer; the
/// contract says that the buffer is returned in the first case and nothing in
/// the others.
#[verifier::external_body]
pub(crate) fn decode_base64_20(token: &[char]) -> (r: Option<[u8; 20]>)
    ensures
        match r {
            Some(a) => base64_standard_no_pad(token@) matches Some(d) && d.len() <= 20
                && a@ == zero_padded(d),
            None => !(base64_standard_no_pad(token@) matches Some(d) && d.len() <= 20),
        },
{
    let text: String = token.iter().collect();
    let mut out = [0u8; 20];
    match base64::prelude::BASE64_STANDARD_NO_PAD.decode_slice(text.as_bytes(), &mut out) {
        Ok(_) => Some(out),
        Err(_) => None,
    }
}

/// The value of a hexadecimal digit in either case, as the `hex` crate
/// reads it.
pub open spec fn hex_digit_value(c: char) -> Option<u8> {
    if '0' <= c && c <= '9' {
        Some((c as int - '0' as int) as u8)
    } else if 'a' <= c && c <= 'f' {
        Some((c as int - 'a' as int + 10) as u8)
    } else if 'A' <= c && c <= 'F' {
        Some((c as int - 'A' as int + 10) as u8)
    } else {
        None
    }
}

/// The bytes that the hexadecimal text `s` denotes, two digits per byte, or
/// `None` when `s` has an odd length or a character that is no hex digit.
pub open spec fn hex_decode(s: Seq<char>) -> Option<Seq<u8>>
    decreases s.len(),
{
    if s.len() == 0 {
        Some(seq![])
    } else if s.len() == 1 {
        None
    } else {
        match (hex_digit_value(s[0]), hex_digit_value(s[1]), hex_decode(s.skip(2))) {
            (Some(hi), Some(lo), Some(rest)) => Some(seq![(hi * 16 + lo) as u8] + rest),
            _ => None,
        }
    }
}

/// The hexadecimal digit for `v < 16`, in lower or upper case.
pub open spec fn hex_char(v: int, upper: bool) -> char {
    if v < 10 {
        ('0' as int + v) as char
    } else if upper {
        ('A' as int + v - 10) as char
    } else {
        ('a' as int + v - 10) as char
    }
}

/// Two hexadecimal digits per byte, most significant digit first.
pub open spec fn hex_encode(bytes: Seq<u8>, upper: bool) -> Seq<char>
    decreases bytes.len(),
{
    if bytes.len() == 0 {
        seq![]
    } else {
        seq![hex_char(bytes[0] as int / 16, upper), hex_char(bytes[0] as int % 16, upper)] + hex_encode(
            bytes.drop_first(),
            upper,
        )
    }
}

/// `<[u8; 20] as hex::FromHex>::from_hex`: the text must be exactly forty
/// hex digits (upper or lower case); the contract states the bytes that the
/// crate's source computes, and that every other text is refused.
#[verifier::external_body]
pub(crate) fn decode_hex_20(s: &[char]) -> (r: Option<[u8; 20]>)
    ensures
        match r {
            Some(a) => hex_decode(s@) == Some(a@),
            None => !(hex_decode(s@) matches Some(d) && d.len() == 20),
        },
{
    let text: String = s.iter().collect();
    match <[u8; 20] as hex::FromHex>::from_hex(text.as_bytes()) {
        Ok(a) => Some(a),
        Err(_) => None,
    }
}

/// `hex::encode`: two lower-case hex digits per byte.
#[verifier::external_body]
pub(crate) fn encode_hex_lower(bytes: &[u8; 20]) -> (r: String)
    ensures
        r@ == hex_encode(bytes@, false),
{
    hex::encode(bytes)
}

/// `hex::encode_upper`: two upper-case hex digits per byte.
#[verifier::external_body]
pub(crate) fn encode_hex_upper(bytes: &[u8; 20]) -> (r: String)
    ensures
        r@ == hex_encode(bytes@, true),
{
    hex::encode_upper(bytes)
}

} // verus!
