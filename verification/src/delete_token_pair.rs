//! Forgets a session by the id its tokens carry. Logout must work even
//! with a stale or garbled pair, so the tokens are not verified: an id
//! extracted from either unsigned payload is enough — but when both
//! payloads parse they must agree on the session.

use vstd::prelude::*;

use crate::claims::ClaimsV;
use crate::error::{Error as CrateError, UseCaseError};
use crate::jwt;
use crate::secret_key_repository::{sk_get, InMemorySecretKeyRepository};
use crate::token::{AccessToken, RefreshToken};
use crate::text;

verus! {

#[derive(Debug)]
pub struct Payload {
    pub access_token: String,
    pub refresh_token: String,
}

pub struct Model;

#[derive(Debug)]
pub enum Error {
    InvalidToken,
}

pub open spec fn invalid_token() -> CrateError {
    CrateError::UseCase(UseCaseError::DeleteTokenPair(Error::InvalidToken))
}

/// Forgets the session the pair names. Nothing is ever added: every entry
/// of the store either stays or is gone, and on an error nothing moved.
pub fn execute(payload: Payload, repository: &mut InMemorySecretKeyRepository) -> (r: Result<
    Model,
    CrateError,
>)
    requires
        old(repository).wf(),
    ensures
        final(repository).wf(),
        forall|id2: Seq<char>|
            #[trigger] sk_get(final(repository)@, id2) == sk_get(old(repository)@, id2) || sk_get(
                final(repository)@,
                id2,
            ) is None,
        r matches Err(e) ==> e == invalid_token() && final(repository)@ == old(repository)@,
        forall|ca: ClaimsV, ka: Seq<char>, cr: ClaimsV, kr: Seq<char>|
            jwt::jwt_wf(ca, true, ka) && payload.access_token@ == #[trigger] jwt::jwt_of(
                ca,
                true,
                ka,
            ) && jwt::jwt_wf(cr, false, kr) && payload.refresh_token@ == #[trigger] jwt::jwt_of(
                cr,
                false,
                kr,
            ) ==> (if ca.id == cr.id && ca.user_id == cr.user_id {
                r is Ok && sk_get(final(repository)@, ca.id) is None && (forall|id2: Seq<char>|
                    id2 != ca.id ==> #[trigger] sk_get(final(repository)@, id2) == sk_get(
                        old(repository)@,
                        id2,
                    ))
            } else {
                r matches Err(e) && e == invalid_token() && final(repository)@ == old(repository)@
            }),
{
    let a = AccessToken::deserialize_payload(payload.access_token.as_str());
    let b = RefreshToken::deserialize_payload(payload.refresh_token.as_str());
    let token_id: String = match (a, b) {
        (Some(a), Some(b)) => {
            if text::str_eq(a.id.as_str(), b.id.as_str()) && text::str_eq(
                a.user_id.as_str(),
                b.user_id.as_str(),
            ) {
                a.id
            } else {
                return Err(CrateError::UseCase(UseCaseError::DeleteTokenPair(Error::InvalidToken)));
            }
        },
        (Some(a), None) => a.id,
        (None, Some(b)) => b.id,
        (None, None) => {
            return Err(CrateError::UseCase(UseCaseError::DeleteTokenPair(Error::InvalidToken)));
        },
    };
    let _removed = repository.remove(token_id.as_str());
    Ok(Model)
}

} // verus!
