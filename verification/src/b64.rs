//! Base64 text for token segments, through the outside `base64` crate.

use vstd::prelude::*;

use base64::Engine;

use crate::text;

verus! {

/// The URL-safe, unpadded base64 text of a string's UTF-8 bytes. The text
/// depends on the input alone; its value is not spelled out here, only the
/// facts below that the `base64` crate's source shows.
pub uninterp spec fn b64url_of(s: Seq<char>) -> Seq<char>;

/// Relies on base64's `URL_SAFE_NO_PAD` engine. Its alphabet is letters,
/// digits, `-` and `_`, so the result holds no `.`, no `"` and no `\`, and
/// a non-empty input encodes to non-empty text.
#[verifier::external_body]
pub fn b64url_encode(s: &str) -> (r: String)
    ensures
        r@ == b64url_of(s@),
        text::dotless(r@),
        text::plain(r@),
        s@.len() > 0 ==> r@.len() > 0,
{
    base64::engine::general_purpose::URL_SAFE_NO_PAD.encode(s.as_bytes())
}

/// Decoding `s` gave `r`: every string whose encoding is `s` is recovered.
pub open spec fn recovers_encoded(r: Option<String>, s: Seq<char>) -> bool {
    forall|p: Seq<char>| s == #[trigger] b64url_of(p) ==> (r matches Some(t) && t@ == p)
}

/// Relies on base64's `URL_SAFE_NO_PAD` engine: decoding accepts exactly the
/// canonical unpadded encodings (padding is refused, trailing bits must be
/// zero), so decoding is the inverse of encoding; and on `String::from_utf8`
/// recovering exactly the string whose UTF-8 bytes were encoded.
#[verifier::external_body]
pub fn b64url_decode(s: &str) -> (r: Option<String>)
    ensures
        recovers_encoded(r, s@),
        r matches Some(t) ==> s@ == b64url_of(t@),
{
    match base64::engine::general_purpose::URL_SAFE_NO_PAD.decode(s.as_bytes()) {
        Ok(bytes) => String::from_utf8(bytes).ok(),
        Err(_) => None,
    }
}

} // verus!
