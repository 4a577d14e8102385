//! Text encodings of bytes.

use base64::engine::general_purpose::{STANDARD, URL_SAFE_NO_PAD};
use base64::Engine;
use vstd::prelude::*;
use crate::primitives::text;

verus! {

/// The value of one hexadecimal digit, in either case.
pub open spec fn hex_digit(b: u8) -> Option<u8> {
    if 0x30 <= b <= 0x39 {
        Some((b - 0x30) as u8)
    } else if 0x41 <= b <= 0x46 {
        Some((b - 0x37) as u8)
    } else if 0x61 <= b <= 0x66 {
        Some((b - 0x57) as u8)
    } else {
        None
    }
}

/// Whether `text` is an even number of hexadecimal digits.
pub open spec fn is_hex(text: Seq<u8>) -> bool {
    text.len() % 2 == 0 && forall|i: int| 0 <= i < text.len() ==> hex_digit(#[trigger] text[i]) is Some
}

/// The bytes that pairs of hexadecimal digits stand for.
pub open spec fn hex_value(text: Seq<u8>) -> Seq<u8> {
    Seq::new(
        text.len() / 2,
        |i: int| (16 * hex_digit(text[2 * i])->0 + hex_digit(text[2 * i + 1])->0) as u8,
    )
}

/// The lowercase hexadecimal digit of a value below 16.
pub open spec fn hex_char(v: int) -> char {
    if v < 10 {
        (0x30 + v) as char
    } else {
        (0x57 + v) as char
    }
}

/// Bytes as lowercase hexadecimal digits, two for each byte.
pub open spec fn hex_text(bytes: Seq<u8>) -> Seq<char> {
    Seq::new(
        2 * bytes.len(),
        |i: int|
            if i % 2 == 0 {
                hex_char(bytes[i / 2] as int / 16)
            } else {
                hex_char(bytes[i / 2] as int % 16)
            },
    )
}

/// Bytes that were written in hexadecimal are read back.
pub proof fn lemma_hex_roundtrip(bytes: Seq<u8>)
    ensures
        is_hex(vstd::utf8::encode_utf8(hex_text(bytes))),
        hex_value(vstd::utf8::encode_utf8(hex_text(bytes))) == bytes,
{
    let t = hex_text(bytes);
    assert forall|i: int| 0 <= i < t.len() implies 0 <= #[trigger] t[i] as u32 <= 127 by {
        assert(0 <= bytes[i / 2] as int / 16 < 16);
        assert(0 <= bytes[i / 2] as int % 16 < 16);
    }
    assert(vstd::utf8::is_ascii_chars(t));
    vstd::utf8::is_ascii_chars_encode_utf8(t);
    let e = vstd::utf8::encode_utf8(t);
    assert forall|i: int| 0 <= i < e.len() implies hex_digit(#[trigger] e[i]) == Some(
        (if i % 2 == 0 {
            bytes[i / 2] as int / 16
        } else {
            bytes[i / 2] as int % 16
        }) as u8,
    ) by {
        assert(t[i] as u8 == e[i]);
        let v = if i % 2 == 0 {
            bytes[i / 2] as int / 16
        } else {
            bytes[i / 2] as int % 16
        };
        assert(0 <= v < 16);
        assert(t[i] == hex_char(v));
    }
    assert forall|i: int| 0 <= i < bytes.len() implies hex_value(e)[i] == bytes[i] by {
        assert(e[2 * i] == e[2 * i] && e[2 * i + 1] == e[2 * i + 1]);
        assert((2 * i) / 2 == i && (2 * i + 1) / 2 == i);
    }
    assert(hex_value(e) =~= bytes);
}

/// Text in hexadecimal has no white space around it.
pub proof fn lemma_hex_untrimmed(bytes: Seq<u8>)
    ensures
        text::trimmed(hex_text(bytes)) == hex_text(bytes),
        bytes.len() > 0 ==> !text::white_space(hex_text(bytes)[0]) && !text::white_space(
            hex_text(bytes).last(),
        ),
{
    let t = hex_text(bytes);
    if t.len() > 0 {
        assert(0 <= bytes[0] as int / 16 < 16);
        assert(0 <= bytes[bytes.len() - 1] as int % 16 < 16);
        assert(t[0] == hex_char(bytes[0] as int / 16));
        assert((t.len() - 1) / 2 == bytes.len() - 1);
        assert(t[t.len() - 1] == hex_char(bytes[bytes.len() - 1] as int % 16));
    }
}

/// What the hexadecimal decoder says of a text that it refuses.
pub uninterp spec fn hex_fault_text(text: Seq<u8>) -> Seq<char>;

/// `hex::encode`: two lowercase digits for each byte.
#[verifier::external_body]
pub(crate) fn hex_encode(bytes: &[u8]) -> (r: String)
    ensures
        r@ == hex_text(bytes@),
{
    hex::encode(bytes)
}

/// `hex::decode`: the bytes of an even number of digits in either case; for
/// any other text an error, of which only the message is named.
#[verifier::external_body]
pub(crate) fn hex_decode(text: &[u8]) -> (r: Result<Vec<u8>, String>)
    ensures
        r is Ok <==> is_hex(text@),
        r matches Ok(v) ==> v@ == hex_value(text@),
        r matches Err(e) ==> e@ == hex_fault_text(text@),
{
    hex::decode(text).map_err(|e| e.to_string())
}

/// The unpadded URL-safe Base64 text of `bytes`.
pub uninterp spec fn base64url_text(bytes: Seq<u8>) -> Seq<char>;

/// The bytes of an unpadded URL-safe Base64 text, or why it is none.
pub uninterp spec fn base64url_value(text: Seq<u8>) -> Result<Seq<u8>, Seq<char>>;

/// The padded standard Base64 text of `bytes`.
pub uninterp spec fn base64_text(bytes: Seq<u8>) -> Seq<char>;

/// The bytes of a padded standard Base64 text, or why it is none.
pub uninterp spec fn base64_value(text: Seq<u8>) -> Result<Seq<u8>, Seq<char>>;

/// `base64::engine::general_purpose::URL_SAFE_NO_PAD.encode`: a function of the
/// bytes, whose text is ASCII and decodes to the bytes again.
#[verifier::external_body]
pub(crate) fn base64url_encode(bytes: &[u8]) -> (r: String)
    ensures
        r@ == base64url_text(bytes@),
        vstd::utf8::is_ascii_chars(r@),
        base64url_value(vstd::utf8::encode_utf8(r@)) is Ok,
        base64url_value(vstd::utf8::encode_utf8(r@))->Ok_0 == bytes@,
{
    URL_SAFE_NO_PAD.encode(bytes)
}

/// `base64::engine::general_purpose::URL_SAFE_NO_PAD.decode`: the decoded bytes
/// or the error's text, a function of the text.
#[verifier::external_body]
pub(crate) fn base64url_decode(text: &[u8]) -> (r: Result<Vec<u8>, String>)
    ensures
        match r {
            Ok(v) => base64url_value(text@) == Ok::<Seq<u8>, Seq<char>>(v@),
            Err(e) => base64url_value(text@) == Err::<Seq<u8>, Seq<char>>(e@),
        },
{
    URL_SAFE_NO_PAD.decode(text).map_err(|e| e.to_string())
}

/// `base64::engine::general_purpose::STANDARD.encode`: a function of the
/// bytes, whose text is ASCII and decodes to the bytes again.
#[verifier::external_body]
pub(crate) fn base64_encode(bytes: &[u8]) -> (r: String)
    ensures
        r@ == base64_text(bytes@),
        vstd::utf8::is_ascii_chars(r@),
        base64_value(vstd::utf8::encode_utf8(r@)) is Ok,
        base64_value(vstd::utf8::encode_utf8(r@))->Ok_0 == bytes@,
{
    STANDARD.encode(bytes)
}

/// `base64::engine::general_purpose::STANDARD.decode`: the decoded bytes or the
/// error's text, a function of the text.
#[verifier::external_body]
pub(crate) fn base64_decode(text: &[u8]) -> (r: Result<Vec<u8>, String>)
    ensures
        match r {
            Ok(v) => base64_value(text@) == Ok::<Seq<u8>, Seq<char>>(v@),
            Err(e) => base64_value(text@) == Err::<Seq<u8>, Seq<char>>(e@),
        },
{
    STANDARD.decode(text).map_err(|e| e.to_string())
}

} // verus!
