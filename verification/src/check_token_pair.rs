//! Verifies that an access and a refresh token belong to one issuance: the
//! access token is checked without its expiry, the refresh token with it,
//! and the two must agree on session id and user id.

use vstd::prelude::*;

use crate::check_access_token;
use crate::check_refresh_token;
use crate::claims::ClaimsV;
use crate::command::GetUserInfo;
use crate::error::{Error as CrateError, UseCaseError};
use crate::jwt;
use crate::secret_key_repository::{sk_lookup, InMemorySecretKeyRepository, SkEntryV};
use crate::text;

verus! {

pub struct Payload {
    pub access_token: String,
    pub refresh_token: String,
}

#[derive(Debug)]
pub struct Model {
    pub user_id: String,
    pub token_id: String,
}

#[verifier::ext_equal]
pub ghost struct ModelV {
    pub user_id: Seq<char>,
    pub token_id: Seq<char>,
}

impl View for Model {
    type V = ModelV;

    open spec fn view(&self) -> ModelV {
        ModelV { user_id: self.user_id@, token_id: self.token_id@ }
    }
}

#[derive(Debug)]
pub enum Error {
    InvalidTokenPair,
}

pub open spec fn invalid_pair() -> CrateError {
    CrateError::UseCase(UseCaseError::CheckTokenPair(Error::InvalidTokenPair))
}

pub open spec fn res_view(r: Result<Model, CrateError>) -> Result<ModelV, CrateError> {
    match r {
        Ok(m) => Ok(m@),
        Err(e) => Err(e),
    }
}

/// The outcome for a pair whose two claim sets are `ca` and `cr` and whose
/// session keys are in the store: an expired refresh token fails as such,
/// then any disagreement between the two tokens is an invalid pair.
pub open spec fn spec_check_pair(ca: ClaimsV, cr: ClaimsV, now: int) -> Result<
    ModelV,
    CrateError,
> {
    if now >= cr.exp {
        Err(check_refresh_token::unauthorized())
    } else if ca.id != cr.id || ca.user_id != cr.user_id {
        Err(invalid_pair())
    } else {
        Ok(ModelV { user_id: ca.user_id, token_id: ca.id })
    }
}

/// A successful pair check is backed by the store on both sides, and its
/// fields are plain text.
pub open spec fn spec_pair_ok(
    at: Seq<char>,
    rt: Seq<char>,
    sk: Seq<SkEntryV>,
    users: Seq<crate::user::UserInfoV>,
    now: int,
    m: ModelV,
) -> bool {
    &&& check_access_token::access_ok(
        at,
        sk,
        users,
        None,
        false,
        now,
        check_access_token::ModelV { token_id: m.token_id, user_id: m.user_id },
    )
    &&& check_refresh_token::refresh_ok(
        rt,
        sk,
        now,
        check_refresh_token::ModelV { token_id: m.token_id, user_id: m.user_id },
    )
    &&& crate::text::plain(m.token_id)
    &&& crate::text::plain(m.user_id)
}

/// Verifies the pair against the key store as of `now`.
pub fn execute(
    payload: Payload,
    repository: &InMemorySecretKeyRepository,
    command: &GetUserInfo,
    now: i64,
) -> (r: Result<Model, CrateError>)
    ensures
        r matches Err(e) ==> e == check_access_token::unauthorized()
            || e == check_refresh_token::unauthorized() || e == invalid_pair(),
        r matches Ok(m) ==> crate::text::plain(m@.token_id) && crate::text::plain(m@.user_id),
        r matches Ok(m) ==> spec_pair_ok(
            payload.access_token@,
            payload.refresh_token@,
            repository@,
            command@,
            now as int,
            m@,
        ),
        forall|ca: ClaimsV, cr: ClaimsV, ka: Seq<char>, kr: Seq<char>|
            jwt::jwt_wf(ca, true, ka) && payload.access_token@ == #[trigger] jwt::jwt_of(
                ca,
                true,
                ka,
            ) && sk_lookup(repository@, ca.id, now as int) == Some(ka) && jwt::jwt_wf(cr, false, kr)
                && payload.refresh_token@ == #[trigger] jwt::jwt_of(cr, false, kr) && sk_lookup(
                repository@,
                cr.id,
                now as int,
            ) == Some(kr) ==> res_view(r) == spec_check_pair(ca, cr, now as int),
{
    let access = match check_access_token::execute(
        check_access_token::Payload {
            access_token: payload.access_token,
            minimum_role: None,
            validate_exp: false,
        },
        repository,
        command,
        now,
    ) {
        Ok(a) => a,
        Err(e) => {
            return Err(e);
        },
    };
    let refresh = match check_refresh_token::execute(
        check_refresh_token::Payload { refresh_token: payload.refresh_token },
        repository,
        now,
    ) {
        Ok(t) => t,
        Err(e) => {
            return Err(e);
        },
    };
    let same = text::str_eq(access.token_id.as_str(), refresh.token_id.as_str()) && text::str_eq(
        access.user_id.as_str(),
        refresh.user_id.as_str(),
    );
    if !same {
        return Err(CrateError::UseCase(UseCaseError::CheckTokenPair(Error::InvalidTokenPair)));
    }
    Ok(Model { user_id: access.user_id, token_id: access.token_id })
}

} // verus!
