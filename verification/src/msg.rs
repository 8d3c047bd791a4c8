//! The inbound intents the resolver routes, named by the first use case
//! each one runs.

use vstd::prelude::*;

use crate::check_access_token;
use crate::check_and_refresh_token_pair;
use crate::check_authcode;
use crate::create_authcode;
use crate::delete_token_pair;
use crate::refresh_token_pair;

verus! {

/// One inbound intent, carrying the payload of the use case it starts
/// with: creating a token pair starts by consuming an authcode.
pub enum Msg {
    CreateAuthcode(create_authcode::Payload),
    CreateTokenPair(check_authcode::Payload),
    CheckAccessToken(check_access_token::Payload),
    CheckAndRefreshTokenPair(check_and_refresh_token_pair::Payload),
    RefreshTokenPair(refresh_token_pair::Payload),
    DeleteTokenPair(delete_token_pair::Payload),
}

/// A decoded request body.
pub struct Wrap<P>(pub P);

impl<P> Wrap<P> {
    pub fn inner(self) -> (r: P)
        ensures
            r == self.0,
    {
        self.0
    }
}

} // verus!
