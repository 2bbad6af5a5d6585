//! From bytes to text.

use vstd::prelude::*;

verus! {

/// The text that [`String::from_utf8_lossy`] makes of some bytes.
pub uninterp spec fn utf8_lossy(bytes: Seq<u8>) -> Seq<char>;

/// The text that bytes are shown as: what they encode where they are valid UTF-8, else what
/// [`String::from_utf8_lossy`] makes of them.
pub open spec fn lossy_text(bytes: Seq<u8>) -> Seq<char> {
    if vstd::utf8::valid_utf8(bytes) {
        vstd::utf8::decode_utf8(bytes)
    } else {
        utf8_lossy(bytes)
    }
}

/// Valid UTF-8 is shown as the text that it encodes, and so every text is shown as itself;
/// anything else is shown as [`String::from_utf8_lossy`] has it.
pub proof fn law_lossy_text(text: Seq<char>, bytes: Seq<u8>)
    ensures
        lossy_text(vstd::utf8::encode_utf8(text)) == text,
        vstd::utf8::valid_utf8(bytes) ==> vstd::utf8::encode_utf8(lossy_text(bytes)) == bytes,
        !vstd::utf8::valid_utf8(bytes) ==> lossy_text(bytes) == utf8_lossy(bytes),
{
    vstd::utf8::encode_utf8_valid_utf8(text);
    vstd::utf8::encode_utf8_decode_utf8(text);
    if vstd::utf8::valid_utf8(bytes) {
        vstd::utf8::decode_utf8_encode_utf8(bytes);
    }
}

/// Calls [`core::str::from_utf8`]: it succeeds on valid UTF-8 and on nothing else, and gives
/// the text that the bytes encode.
#[verifier::external_body]
pub(crate) fn decode(bytes: &[u8]) -> (res: Option<String>)
    ensures
        res is Some <==> vstd::utf8::valid_utf8(bytes@),
        res matches Some(t) ==> t@ == vstd::utf8::decode_utf8(bytes@),
{
    core::str::from_utf8(bytes).ok().map(String::from)
}

/// Calls [`String::from_utf8_lossy`]: its result depends on the bytes alone, and is the text
/// that they encode where they are valid UTF-8. How it replaces malformed bytes is left open.
#[verifier::external_body]
pub(crate) fn decode_lossy(bytes: &[u8]) -> (res: String)
    ensures
        res@ == utf8_lossy(bytes@),
        vstd::utf8::valid_utf8(bytes@) ==> res@ == vstd::utf8::decode_utf8(bytes@),
{
    String::from_utf8_lossy(bytes).into_owned()
}

} // verus!
