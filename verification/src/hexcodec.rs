use vstd::prelude::*;
use vstd::utf8::*;
use vstd::string::*;
use crate::error::A2AError;

verus! {

#[verifier::external_type_specification]
#[verifier::external_body]
pub struct ExFromHexError(hex::FromHexError);

/// The lowercase hexadecimal digit for a value below 16.
pub open spec fn hex_digit(n: int) -> char {
    if n < 10 { (48 + n) as char } else { (87 + n) as char }
}

/// Lowercase hexadecimal text of `data`: two digits per byte, high nibble first.
pub open spec fn hex_lower(data: Seq<u8>) -> Seq<char> {
    Seq::new(
        2 * data.len(),
        |i: int|
            hex_digit(if i % 2 == 0 { data[i / 2] as int / 16 } else { data[i / 2] as int % 16 }),
    )
}

/// Whether a byte is a hexadecimal digit of either case.
pub open spec fn is_hex_byte(b: u8) -> bool {
    (48 <= b <= 57) || (97 <= b <= 102) || (65 <= b <= 70)
}

/// The value of a hexadecimal digit byte.
pub open spec fn hex_value(b: u8) -> int {
    if 48 <= b <= 57 {
        b - 48
    } else if 97 <= b <= 102 {
        b - 87
    } else {
        b - 55
    }
}

/// Hexadecimal decoding of bytes: defined exactly when the length is even and every
/// byte is a hexadecimal digit; each pair of digits gives one byte, high nibble first.
pub open spec fn hex_decode(text: Seq<u8>) -> Option<Seq<u8>> {
    if text.len() % 2 == 0 && forall|i: int| 0 <= i < text.len() ==> is_hex_byte(#[trigger] text[i]) {
        Some(
            Seq::new(
                text.len() / 2,
                |k: int| (hex_value(text[2 * k]) * 16 + hex_value(text[2 * k + 1])) as u8,
            ),
        )
    } else {
        None
    }
}

/// Calls `hex::encode`, which renders every byte as two lowercase hexadecimal digits
/// (high nibble first, from the table `0123456789abcdef`).
#[verifier::external_body]
pub(crate) fn hex_encode(data: &[u8]) -> (text: String)
    ensures
        text@ == hex_lower(data@),
{
    hex::encode(data)
}

/// Calls `hex::decode`, which fails on an odd length or on any byte that is not a
/// digit `0-9`, `a-f` or `A-F`, and otherwise turns each pair of digits into a byte.
#[verifier::external_body]
pub(crate) fn hex_decode_bytes(text: &[u8]) -> (res: Result<Vec<u8>, hex::FromHexError>)
    ensures
        res is Ok <==> hex_decode(text@) is Some,
        res matches Ok(v) ==> hex_decode(text@) == Some(v@),
{
    hex::decode(text)
}

/// Calls the `Display` impl of `hex::FromHexError` for the error's text.
#[verifier::external_body]
fn hex_error_text(err: &hex::FromHexError) -> String {
    format!("{}", err)
}

/// Hex-encode a binary payload for transport (lowercase digits).
pub fn serialize_binary(data: &[u8]) -> (text: String)
    ensures
        text@ == hex_lower(data@),
{
    hex_encode(data)
}

/// Decode the hexadecimal transport form of a binary payload.
pub fn deserialize_binary(text: &str) -> (res: Result<Vec<u8>, A2AError>)
    ensures
        match hex_decode(text.spec_bytes()) {
            Some(bytes) => res matches Ok(v) && v@ == bytes,
            None => res matches Err(A2AError::InvalidPayload(_)),
        },
{
    match hex_decode_bytes(text.as_bytes()) {
        Ok(v) => Ok(v),
        Err(e) => Err(A2AError::InvalidPayload(hex_error_text(&e))),
    }
}

/// Decoding the hexadecimal text (as UTF-8 bytes) of any byte string gives it back:
/// `deserialize_binary(serialize_binary(data))` is `Ok(data)`.
pub proof fn law_binary_round_trip(data: Seq<u8>)
    ensures
        hex_decode(encode_utf8(hex_lower(data))) == Some(data),
{
    let chars = hex_lower(data);
    assert forall|i: int| 0 <= i < chars.len() implies '\0' <= #[trigger] chars[i] <= '\u{7f}' by {
        let n: int = if i % 2 == 0 { data[i / 2] as int / 16 } else { data[i / 2] as int % 16 };
        assert(0 <= n < 16);
    }
    is_ascii_chars_encode_utf8(chars);
    let bytes = encode_utf8(chars);
    assert forall|i: int| 0 <= i < bytes.len() implies is_hex_byte(#[trigger] bytes[i]) && hex_value(bytes[i]) == (if i % 2 == 0 { data[i / 2] as int / 16 } else { data[i / 2] as int % 16 }) by {
        assert(bytes[i] == chars[i] as u8);
    }
    let decoded = hex_decode(bytes).unwrap();
    assert forall|k: int| 0 <= k < data.len() implies decoded[k] == data[k] by {
        assert((2 * k) % 2 == 0 && (2 * k) / 2 == k);
        assert((2 * k + 1) % 2 == 1 && (2 * k + 1) / 2 == k);
        let b = bytes[2 * k];
        let c = bytes[2 * k + 1];
        assert(hex_value(b) == data[k] as int / 16);
        assert(hex_value(c) == data[k] as int % 16);
    }
    assert(decoded =~= data);
}

} // verus!
