//! Verifies a refresh token, always including its expiry.
//!
//! Two-phase read: the unverified payload yields only the session id, the
//! id selects the per-session key, and the token counts only if it
//! verifies under that key and is not expired.

use vstd::prelude::*;

use crate::b64::b64url_of;
use crate::claims::{claims_wf, json_of, ClaimsV};
use crate::error::{Error as CrateError, UseCaseError};
use crate::jwt;
use crate::secret_key_repository::{sk_lookup, InMemorySecretKeyRepository, SkEntryV};
use crate::token::RefreshToken;

verus! {

pub struct Payload {
    pub refresh_token: String,
}

#[derive(Debug)]
pub struct Model {
    pub token_id: String,
    pub user_id: String,
}

#[verifier::ext_equal]
pub ghost struct ModelV {
    pub token_id: Seq<char>,
    pub user_id: Seq<char>,
}

impl View for Model {
    type V = ModelV;

    open spec fn view(&self) -> ModelV {
        ModelV { token_id: self.token_id@, user_id: self.user_id@ }
    }
}

#[derive(Debug)]
pub enum Error {
    UnauthorizedRefreshToken,
}

pub open spec fn unauthorized() -> CrateError {
    CrateError::UseCase(UseCaseError::CheckRefreshToken(Error::UnauthorizedRefreshToken))
}

pub open spec fn res_view(r: Result<Model, CrateError>) -> Result<ModelV, CrateError> {
    match r {
        Ok(m) => Ok(m@),
        Err(e) => Err(e),
    }
}

/// A successful check is backed by the store: some claim set whose payload
/// stands in the token selected a live key, and the token verifies under
/// that key as an unexpired refresh token of the reported session.
pub open spec fn refresh_ok(t: Seq<char>, sk: Seq<SkEntryV>, now: int, m: ModelV) -> bool {
    exists|cp: ClaimsV, cv: ClaimsV, k: Seq<char>|
        #![trigger json_of(cp, false), jwt::signed_with(t, cv, false, k)]
        claims_wf(cp) && claims_wf(cv) && jwt::payload_at(t, b64url_of(json_of(cp, false)))
            && sk_lookup(sk, cp.id, now) == Some(k) && jwt::signed_with(t, cv, false, k) && now
            < cv.exp && m.token_id == cv.id && m.user_id == cv.user_id
}

/// Verifies the refresh token against the key store as of `now`.
pub fn execute(
    payload: Payload,
    repository: &InMemorySecretKeyRepository,
    now: i64,
) -> (r: Result<Model, CrateError>)
    ensures
        r matches Err(e) ==> e == unauthorized(),
        r matches Ok(m) ==> crate::text::plain(m@.token_id) && crate::text::plain(m@.user_id),
        r matches Ok(m) ==> refresh_ok(payload.refresh_token@, repository@, now as int, m@),
        forall|cv: ClaimsV, k: Seq<char>|
            jwt::jwt_wf(cv, false, k) && payload.refresh_token@ == #[trigger] jwt::jwt_of(
                cv,
                false,
                k,
            ) && sk_lookup(repository@, cv.id, now as int) == Some(k) ==> res_view(r) == (if now
                < cv.exp {
                Result::<ModelV, CrateError>::Ok(ModelV { token_id: cv.id, user_id: cv.user_id })
            } else {
                Result::<ModelV, CrateError>::Err(unauthorized())
            }),
        forall|cv: ClaimsV, k: Seq<char>|
            jwt::jwt_wf(cv, false, k) && payload.refresh_token@ == #[trigger] jwt::jwt_of(
                cv,
                false,
                k,
            ) && sk_lookup(repository@, cv.id, now as int) is None ==> res_view(r) == Result::<
                ModelV,
                CrateError,
            >::Err(unauthorized()),
{
    let p = match RefreshToken::deserialize_payload(payload.refresh_token.as_str()) {
        Some(p) => p,
        None => {
            return Err(CrateError::UseCase(
                UseCaseError::CheckRefreshToken(Error::UnauthorizedRefreshToken),
            ));
        },
    };
    let key = match repository.get_at(p.id.as_str(), now) {
        Some(k) => k,
        None => {
            return Err(CrateError::UseCase(
                UseCaseError::CheckRefreshToken(Error::UnauthorizedRefreshToken),
            ));
        },
    };
    let c = match RefreshToken::deserialize_at(payload.refresh_token.as_str(), key.0.as_str(), now)
        {
        Some(c) => c,
        None => {
            return Err(CrateError::UseCase(
                UseCaseError::CheckRefreshToken(Error::UnauthorizedRefreshToken),
            ));
        },
    };
    proof {
        let t = payload.refresh_token@;
        assert(claims_wf(p@));
        assert(claims_wf(c@));
        assert(jwt::payload_at(t, b64url_of(json_of(p@, false))));
        assert(sk_lookup(repository@, p@.id, now as int) == Some(key@));
        assert(jwt::signed_with(t, c@, false, key@));
        assert(now < c@.exp);
        assert(refresh_ok(t, repository@, now as int, ModelV { token_id: c@.id, user_id: c@.user_id }));
    }
    Ok(Model { token_id: c.id, user_id: c.user_id })
}

} // verus!
