//! The response models that leave the library.

use vstd::prelude::*;

use crate::check_access_token;
use crate::check_and_refresh_token_pair;
use crate::create_authcode;
use crate::create_token_pair;
use crate::delete_token_pair;

verus! {

/// A freshly minted pair of serialized tokens. Transient: handed to the
/// caller, never stored.
#[derive(Debug)]
pub struct TokenPair {
    pub access_token: String,
    pub refresh_token: String,
}

/// Every shape a use case's answer can take on its way out.
pub enum Model {
    TokenPair(TokenPair),
    CreateAuthcode(create_authcode::Model),
    CheckAccessToken(check_access_token::Model),
    CheckAndRefreshTokenPair(check_and_refresh_token_pair::Model),
    CreateTokenPair(create_token_pair::Model),
    DeleteTokenPair(delete_token_pair::Model),
}

} // verus!
