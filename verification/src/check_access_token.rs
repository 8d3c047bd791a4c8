//! Verifies an access token: unsigned id extraction, key lookup, signature
//! and (optionally) expiry check, and an optional minimum-role
//! requirement.

use vstd::prelude::*;

use crate::b64::b64url_of;
use crate::claims::{claims_wf, json_of, ClaimsV};
use crate::command::{user_find, GetUserInfo};
use crate::error::{Error as CrateError, UseCaseError, UserSdkError};
use crate::jwt;
use crate::secret_key_repository::{sk_lookup, InMemorySecretKeyRepository, SkEntryV};
use crate::token::AccessToken;
use crate::user::UserInfoV;

verus! {

pub struct Payload {
    pub access_token: String,
    pub minimum_role: Option<u8>,
    pub validate_exp: bool,
}

#[derive(Debug)]
pub struct Model {
    pub token_id: String,
    pub user_id: String,
}

#[verifier::ext_equal]
pub ghost struct ModelV {
    pub token_id: Seq<char>,
    pub user_id: Seq<char>,
}

impl View for Model {
    type V = ModelV;

    open spec fn view(&self) -> ModelV {
        ModelV { token_id: self.token_id@, user_id: self.user_id@ }
    }
}

#[derive(Debug)]
pub enum Error {
    UnauthorizedAccessToken,
    PermissionDenied,
}

pub open spec fn unauthorized() -> CrateError {
    CrateError::UseCase(UseCaseError::CheckAccessToken(Error::UnauthorizedAccessToken))
}

pub open spec fn permission_denied() -> CrateError {
    CrateError::UseCase(UseCaseError::CheckAccessToken(Error::PermissionDenied))
}

pub open spec fn res_view(r: Result<Model, CrateError>) -> Result<ModelV, CrateError> {
    match r {
        Ok(m) => Ok(m@),
        Err(e) => Err(e),
    }
}

/// The outcome of the role requirement alone, for a verified claim set.
pub open spec fn spec_role_check(
    cv: ClaimsV,
    users: Seq<UserInfoV>,
    minimum_role: Option<u8>,
) -> Result<ModelV, CrateError> {
    match minimum_role {
        None => Ok(ModelV { token_id: cv.id, user_id: cv.user_id }),
        Some(m) => match user_find(users, cv.user_id) {
            None => Err(CrateError::UserSdk(UserSdkError::NotFoundUser)),
            Some(u) => if u.role < m {
                Err(permission_denied())
            } else {
                Ok(ModelV { token_id: cv.id, user_id: cv.user_id })
            },
        },
    }
}

/// The full outcome for a token whose claims are `cv` and whose session
/// key is in the store.
pub open spec fn spec_execute(
    cv: ClaimsV,
    users: Seq<UserInfoV>,
    minimum_role: Option<u8>,
    validate_exp: bool,
    now: int,
) -> Result<ModelV, CrateError> {
    if validate_exp && now >= cv.exp {
        Err(unauthorized())
    } else {
        spec_role_check(cv, users, minimum_role)
    }
}

/// A successful check is backed by the store, as in the refresh check,
/// with the expiry checked only when asked; and the role requirement held
/// against the directory.
pub open spec fn access_ok(
    t: Seq<char>,
    sk: Seq<SkEntryV>,
    users: Seq<UserInfoV>,
    minimum_role: Option<u8>,
    validate_exp: bool,
    now: int,
    m: ModelV,
) -> bool {
    exists|cp: ClaimsV, cv: ClaimsV, k: Seq<char>|
        #![trigger json_of(cp, true), jwt::signed_with(t, cv, true, k)]
        claims_wf(cp) && claims_wf(cv) && jwt::payload_at(t, b64url_of(json_of(cp, true)))
            && sk_lookup(sk, cp.id, now) == Some(k) && jwt::signed_with(t, cv, true, k) && (
        validate_exp ==> now < cv.exp) && spec_role_check(cv, users, minimum_role) == Result::<
            ModelV,
            CrateError,
        >::Ok(m) && m.token_id == cv.id && m.user_id == cv.user_id
}

/// Verifies the access token against the key store and the user directory
/// as of `now`.
pub fn execute(
    payload: Payload,
    repository: &InMemorySecretKeyRepository,
    command: &GetUserInfo,
    now: i64,
) -> (r: Result<Model, CrateError>)
    ensures
        r matches Err(e) ==> e == unauthorized() || e == permission_denied() || e
            == CrateError::UserSdk(UserSdkError::NotFoundUser),
        payload.minimum_role is None ==> (r matches Err(e) ==> e == unauthorized()),
        r matches Ok(m) ==> crate::text::plain(m@.token_id) && crate::text::plain(m@.user_id),
        r matches Ok(m) ==> access_ok(
            payload.access_token@,
            repository@,
            command@,
            payload.minimum_role,
            payload.validate_exp,
            now as int,
            m@,
        ),
        forall|cv: ClaimsV, k: Seq<char>|
            jwt::jwt_wf(cv, true, k) && payload.access_token@ == #[trigger] jwt::jwt_of(cv, true, k)
                && sk_lookup(repository@, cv.id, now as int) == Some(k) ==> res_view(r)
                == spec_execute(
                cv,
                command@,
                payload.minimum_role,
                payload.validate_exp,
                now as int,
            ),
        forall|cv: ClaimsV, k: Seq<char>|
            jwt::jwt_wf(cv, true, k) && payload.access_token@ == #[trigger] jwt::jwt_of(cv, true, k)
                && sk_lookup(repository@, cv.id, now as int) is None ==> res_view(r) == Result::<
                ModelV,
                CrateError,
            >::Err(unauthorized()),
{
    let p = match AccessToken::deserialize_payload(payload.access_token.as_str()) {
        Some(p) => p,
        None => {
            return Err(CrateError::UseCase(
                UseCaseError::CheckAccessToken(Error::UnauthorizedAccessToken),
            ));
        },
    };
    let key = match repository.get_at(p.id.as_str(), now) {
        Some(k) => k,
        None => {
            return Err(CrateError::UseCase(
                UseCaseError::CheckAccessToken(Error::UnauthorizedAccessToken),
            ));
        },
    };
    let c = match AccessToken::deserialize_at(
        payload.access_token.as_str(),
        key.0.as_str(),
        payload.validate_exp,
        now,
    ) {
        Some(c) => c,
        None => {
            return Err(CrateError::UseCase(
                UseCaseError::CheckAccessToken(Error::UnauthorizedAccessToken),
            ));
        },
    };
    let ghost tv = payload.access_token@;
    match payload.minimum_role {
        None => {
            proof {
                assert(claims_wf(p@));
                assert(jwt::payload_at(tv, b64url_of(json_of(p@, true))));
                assert(sk_lookup(repository@, p@.id, now as int) == Some(key@));
                assert(jwt::signed_with(tv, c@, true, key@));
                assert(access_ok(
                    tv,
                    repository@,
                    command@,
                    payload.minimum_role,
                    payload.validate_exp,
                    now as int,
                    ModelV { token_id: c@.id, user_id: c@.user_id },
                ));
            }
            Ok(Model { token_id: c.id, user_id: c.user_id })
        },
        Some(minimum_role) => {
            let user = match command.get_user_info(c.user_id.as_str()) {
                Some(u) => u,
                None => {
                    return Err(CrateError::UserSdk(UserSdkError::NotFoundUser));
                },
            };
            if user.role < minimum_role {
                return Err(CrateError::UseCase(
                    UseCaseError::CheckAccessToken(Error::PermissionDenied),
                ));
            }
            proof {
                assert(claims_wf(p@));
                assert(jwt::payload_at(tv, b64url_of(json_of(p@, true))));
                assert(sk_lookup(repository@, p@.id, now as int) == Some(key@));
                assert(jwt::signed_with(tv, c@, true, key@));
                assert(spec_role_check(c@, command@, payload.minimum_role) == Result::<
                    ModelV,
                    CrateError,
                >::Ok(ModelV { token_id: c@.id, user_id: c@.user_id }));
                assert(access_ok(
                    tv,
                    repository@,
                    command@,
                    payload.minimum_role,
                    payload.validate_exp,
                    now as int,
                    ModelV { token_id: c@.id, user_id: c@.user_id },
                ));
            }
            Ok(Model { token_id: c.id, user_id: c.user_id })
        },
    }
}

} // verus!
