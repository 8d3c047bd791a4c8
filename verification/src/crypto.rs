//! Signing, randomness and the clock, through the outside crates that the
//! library leans on: `jsonwebtoken` (HMAC-SHA256), `ring`, `uuid`, `nanoid`
//! and `chrono`.

use vstd::prelude::*;

use crate::text;

verus! {

/// The URL-safe base64 text of the HMAC-SHA256 tag of `msg` under `key`.
/// The tag depends on the two arguments alone; its value is not spelled out
/// here, only the facts below that jsonwebtoken's source shows.
pub uninterp spec fn hs256_of(msg: Seq<char>, key: Seq<char>) -> Seq<char>;

/// Relies on jsonwebtoken's `crypto::sign`, which for HS256 always succeeds
/// and returns the URL-safe, unpadded base64 text of the 32-byte tag: 43
/// characters of letters, digits, `-` and `_`, so no `.`, `"` or `\`.
#[verifier::external_body]
pub fn hs256_sign(msg: &str, key: &str) -> (r: String)
    ensures
        r@ == hs256_of(msg@, key@),
        text::dotless(r@),
        text::plain(r@),
        r@.len() == 43,
{
    let k = jsonwebtoken::EncodingKey::from_secret(key.as_bytes());
    jsonwebtoken::crypto::sign(msg.as_bytes(), &k, jsonwebtoken::Algorithm::HS256)
        .expect("hmac signing")
}

/// Relies on jsonwebtoken's `crypto::verify`, which for HS256 re-signs the
/// message with the key and compares the given signature text with the
/// recomputed base64 text, character for character.
#[verifier::external_body]
pub fn hs256_verify(sig: &str, msg: &str, key: &str) -> (r: bool)
    ensures
        r == (sig@ == hs256_of(msg@, key@)),
{
    let k = jsonwebtoken::DecodingKey::from_secret(key.as_bytes());
    jsonwebtoken::crypto::verify(sig, msg.as_bytes(), &k, jsonwebtoken::Algorithm::HS256)
        .expect("hmac verify")
}

/// Seconds since the Unix epoch by the system clock. Relies on
/// `chrono::Utc::now`; nothing is assumed about the clock's reading.
#[verifier::external_body]
pub fn now_timestamp() -> i64 {
    chrono::Utc::now().timestamp()
}

/// A fresh random session id in hyphenated UUID text form. Relies on
/// `uuid::Uuid::new_v4` and its text form: 36 characters of lowercase hex
/// digits and hyphens, so no `"` or `\`. The value itself is random and
/// nothing more is assumed of it.
#[verifier::external_body]
pub fn fresh_token_id() -> (r: String)
    ensures
        r@.len() == 36,
        text::plain(r@),
{
    uuid::Uuid::new_v4().to_string()
}

/// A fresh signing secret: 64 random bytes from the system RNG, hashed with
/// SHA-512, as URL-safe unpadded base64 text. Relies on ring's
/// `SystemRandom` and `digest`, and on base64's `URL_SAFE_NO_PAD` engine;
/// the 64-byte digest encodes to 86 characters of letters, digits, `-` and
/// `_`. The value itself is random and nothing more is assumed of it.
#[verifier::external_body]
pub fn fresh_secret_text() -> (r: String)
    ensures
        r@.len() == 86,
        text::plain(r@),
{
    let rng = ring::rand::SystemRandom::new();
    let mut bytes = [0u8; 64];
    ring::rand::SecureRandom::fill(&rng, &mut bytes).expect("system rng");
    let hashed = ring::digest::digest(&ring::digest::SHA512, &bytes);
    base64::Engine::encode(&base64::engine::general_purpose::URL_SAFE_NO_PAD, hashed)
}

/// A fresh 12-character one-time code over the URL-safe alphabet (letters,
/// digits, `-` and `_`), so no `"` or `\`. Relies on nanoid's `format` with
/// its default alphabet and RNG. The value itself is random and nothing
/// more is assumed of it.
#[verifier::external_body]
pub fn random_code_text() -> (r: String)
    ensures
        r@.len() == 12,
        text::plain(r@),
{
    nanoid::format(nanoid::rngs::default, &nanoid::alphabet::SAFE, 12)
}

} // verus!
