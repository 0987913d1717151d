//! Text decoding from raw bytes, as std's UTF-8 routines do it.
use vstd::prelude::*;
use vstd::utf8::*;

verus! {

/// What `String::from_utf8_lossy` makes of a byte sequence that is not
/// valid UTF-8: each maximal invalid subsequence replaced by U+FFFD, the
/// rest decoded.
pub uninterp spec fn utf8_lossy(bytes: Seq<u8>) -> Seq<char>;

/// The text that lossy decoding gives: the decoding of valid UTF-8, else
/// the replacement described by `utf8_lossy`.
pub open spec fn lossy_decode(bytes: Seq<u8>) -> Seq<char> {
    if valid_utf8(bytes) {
        decode_utf8(bytes)
    } else {
        utf8_lossy(bytes)
    }
}

/// Calls `std::str::from_utf8`.
/// Claimed of it (std's documentation): the call succeeds exactly when the
/// bytes are valid UTF-8, and the text is then their decoding.
#[verifier::external_body]
pub(crate) fn utf8_str<'a>(bytes: &'a [u8]) -> (r: Option<&'a str>)
    ensures
        r is Some <==> valid_utf8(bytes@),
        r matches Some(s) ==> s@ == decode_utf8(bytes@),
{
    std::str::from_utf8(bytes).ok()
}

/// Calls `String::from_utf8_lossy` and owns the result.
/// Claimed of it: for valid UTF-8 the text is the bytes' decoding (std's
/// documentation: valid input is returned as it is), else it is
/// `utf8_lossy` of the bytes, which is left unstated.
#[verifier::external_body]
pub(crate) fn utf8_to_string_lossy(bytes: &[u8]) -> (r: String)
    ensures
        valid_utf8(bytes@) ==> r@ == decode_utf8(bytes@),
        !valid_utf8(bytes@) ==> r@ == utf8_lossy(bytes@),
{
    String::from_utf8_lossy(bytes).into_owned()
}

/// Decoding the UTF-8 encoding of a text gives the text back.
pub proof fn lemma_decode_encode(s: Seq<char>)
    ensures
        valid_utf8(encode_utf8(s)),
        decode_utf8(encode_utf8(s)) == s,
{
    encode_utf8_valid_utf8(s);
    encode_utf8_decode_utf8(s);
}

} // verus!
