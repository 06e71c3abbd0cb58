//! Owned strings made from bytes and from characters.
//!
//! The two functions at the top call into the standard library and are
//! believed, not proved. The lemmas below them are proved.

use super::grammar::text_of;
use vstd::prelude::*;
use vstd::utf8::{decode_utf8, encode_utf8, valid_utf8};

verus! {

/// Calls `String::from_utf8`, which checks that the bytes are valid UTF-8
/// and, where they are, hands them back as a string without changing them.
/// Believed of it: the call succeeds exactly on valid UTF-8, and the bytes of
/// the string it yields are the bytes given.
#[verifier::external_body]
pub(crate) fn string_from_utf8(bytes: Vec<u8>) -> (text: Option<String>)
    ensures
        text is Some <==> valid_utf8(bytes@),
        text matches Some(s) ==> encode_utf8(s@) == bytes@,
{
    match String::from_utf8(bytes) {
        Ok(s) => Some(s),
        Err(_) => None,
    }
}

/// Calls `String::from` on a character. Believed of it: the string it yields
/// holds that one character and nothing else.
#[verifier::external_body]
pub(crate) fn string_from_char(c: char) -> (text: String)
    ensures
        text@ == seq![c],
{
    String::from(c)
}

/// Bytes below 128 are valid UTF-8, and they decode to one character each:
/// the character whose code point is the byte.
pub proof fn lemma_ascii_bytes(bytes: Seq<u8>)
    requires
        forall|i: int| 0 <= i < bytes.len() ==> #[trigger] bytes[i] < 0x80,
    ensures
        valid_utf8(bytes),
        decode_utf8(bytes) == text_of(bytes),
        encode_utf8(text_of(bytes)) == bytes,
{
    let chars = text_of(bytes);
    assert forall|i: int| 0 <= i < chars.len() implies '\0' <= #[trigger] chars[i] <= '\u{7f}' by {
        assert(bytes[i] < 0x80);
    }
    vstd::utf8::is_ascii_chars_encode_utf8(chars);
    assert forall|i: int| 0 <= i < bytes.len() implies encode_utf8(chars)[i] == bytes[i] by {
        assert(chars[i] as u8 == encode_utf8(chars)[i]);
        assert(bytes[i] < 0x80);
    }
    assert(encode_utf8(chars) =~= bytes);
    vstd::utf8::encode_utf8_valid_utf8(chars);
    vstd::utf8::encode_utf8_decode_utf8(chars);
}

} // verus!
