//! Conversions between bytes and text that the standard library performs.
//! Their contracts are taken on trust.
use vstd::prelude::*;
use vstd::utf8::*;

verus! {

/// The text that `String::from_utf8_lossy` makes of `bytes`: the decoded
/// text, with U+FFFD in place of each ill-formed part.
pub uninterp spec fn utf8_lossy(bytes: Seq<u8>) -> Seq<char>;

/// The text that `str::to_lowercase` makes of `text`: its lower-case
/// equivalent by the Unicode rules.
pub uninterp spec fn lowercase(text: Seq<char>) -> Seq<char>;

/// The text of a byte string that need not be UTF-8: the decoded text where
/// the bytes are well formed, and else what lossy decoding makes of them.
pub open spec fn lossy_text(bytes: Seq<u8>) -> Seq<char> {
    if valid_utf8(bytes) {
        decode_utf8(bytes)
    } else {
        utf8_lossy(bytes)
    }
}

/// Calls `String::from_utf8`.
///
/// Trusted: the call succeeds exactly on well-formed UTF-8, and then gives
/// the text that the bytes encode.
#[verifier::external_body]
pub(crate) fn text_from_utf8(bytes: Vec<u8>) -> (text: Option<String>)
    ensures
        text is Some <==> valid_utf8(bytes@),
        text is Some ==> text->0@ == decode_utf8(bytes@),
{
    String::from_utf8(bytes).ok()
}

/// Calls `String::from_utf8_lossy`.
///
/// Trusted: the result is a function of the bytes alone, and on well-formed
/// UTF-8 it is the text that the bytes encode.
#[verifier::external_body]
pub(crate) fn text_from_utf8_lossy(bytes: &[u8]) -> (text: String)
    ensures
        text@ == utf8_lossy(bytes@),
        valid_utf8(bytes@) ==> text@ == decode_utf8(bytes@),
{
    String::from_utf8_lossy(bytes).into_owned()
}

/// Calls `str::to_lowercase`.
///
/// Trusted: the result is a function of the text alone.
#[verifier::external_body]
pub(crate) fn text_to_lowercase(text: &str) -> (lower: String)
    ensures
        lower@ == lowercase(text@),
{
    text.to_lowercase()
}

} // verus!
