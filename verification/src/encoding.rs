//! Byte strings as text.
use base64::Engine;
use vstd::prelude::*;

verus! {

/// The standard base64 form of a byte string, with padding.
pub uninterp spec fn base64_of(bytes: Seq<u8>) -> Seq<char>;

/// The base64 form of a byte string in the alphabet for URLs, without padding.
pub uninterp spec fn base64_url_of(bytes: Seq<u8>) -> Seq<char>;

/// The byte string that a base64 text in the alphabet for URLs, without
/// padding, stands for; nothing where it is no such text.
pub uninterp spec fn base64_url_decoded(text: Seq<char>) -> Option<Seq<u8>>;

/// `base64`'s `STANDARD` engine: the text is a function of the bytes.
#[verifier::external_body]
pub(crate) fn base64_text(bytes: &[u8]) -> (r: String)
    ensures
        r@ == base64_of(bytes@),
{
    base64::engine::general_purpose::STANDARD.encode(bytes)
}

/// `base64`'s `URL_SAFE_NO_PAD` engine, writing: the text is a function of the
/// bytes, with four characters for three bytes and no padding.
#[verifier::external_body]
pub(crate) fn base64_url_text(bytes: &[u8]) -> (r: String)
    ensures
        r@ == base64_url_of(bytes@),
        r@.len() == (4 * bytes@.len() + 2) / 3,
{
    base64::engine::general_purpose::URL_SAFE_NO_PAD.encode(bytes)
}

/// `base64`'s `URL_SAFE_NO_PAD` engine, reading: the outcome is a function of
/// the text.
#[verifier::external_body]
pub(crate) fn base64_url_bytes(text: &str) -> (r: Option<Vec<u8>>)
    ensures
        r.deep_view() == base64_url_decoded(text@),
{
    base64::engine::general_purpose::URL_SAFE_NO_PAD.decode(text).ok()
}

/// `String::from_utf8`: the text whose UTF-8 form the bytes are, where they are
/// valid UTF-8.
#[verifier::external_body]
pub(crate) fn utf8_text(bytes: Vec<u8>) -> (r: Option<String>)
    ensures
        r is Some <==> vstd::utf8::valid_utf8(bytes@),
        r matches Some(text) ==> text@ == vstd::utf8::decode_utf8(bytes@),
{
    String::from_utf8(bytes).ok()
}

} // verus!
