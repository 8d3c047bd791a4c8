//! Per-session signing secrets.

use vstd::prelude::*;

use crate::crypto;
use crate::text;
use crate::token;

verus! {

/// A secret key never outlives this age, in seconds, whatever the backing
/// store's own eviction does: the same span as a refresh token's lifetime.
pub const SECRET_KEY_EXP: i64 = token::REFRESH_TOKEN_EXP;

/// A per-session signing secret.
#[derive(Clone)]
pub struct SecretKey(pub String);

impl View for SecretKey {
    type V = Seq<char>;

    open spec fn view(&self) -> Seq<char> {
        self.0@
    }
}

impl SecretKey {
    /// A fresh random secret: hashed random bytes in base64 text.
    pub fn new() -> (r: SecretKey)
        ensures
            r@.len() == 86,
            text::plain(r@),
    {
        SecretKey(crypto::fresh_secret_text())
    }
}

} // verus!
