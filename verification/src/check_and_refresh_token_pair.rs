//! Verifies an access token, falling back to one silent rotation: callers
//! that want "verify, or refresh and verify" in one step.
//!
//! Only an unauthorized access token triggers the fallback. When rotation
//! has already happened and only the role requirement then fails, the
//! freshly rotated pair travels inside the error: the rotation cannot be
//! undone, so the caller must still hand the new credentials on.

use vstd::prelude::*;

use crate::check_access_token;
use crate::check_token_pair;
use crate::claims::ClaimsV;
use crate::command::{user_find, GetUserInfo};
use crate::error::{Error as CrateError, UseCaseError, UserSdkError};
use crate::jwt;
use crate::model::TokenPair;
use crate::refresh_token_pair;
use crate::secret_key_repository::{sk_lookup, InMemorySecretKeyRepository};
use crate::text::plain;
use crate::token::{access_claims, REFRESH_TOKEN_EXP, TokenV};

verus! {

pub struct Payload {
    pub access_token: String,
    pub refresh_token: String,
    pub minimum_role: Option<u8>,
}

#[derive(Debug)]
pub struct Model {
    pub access_token: Option<String>,
    pub refresh_token: Option<String>,
    pub token_id: String,
    pub user_id: String,
}

#[derive(Debug)]
pub enum Error {
    PermissionDenied(TokenPair),
}

/// Keeps every error except an unauthorized access token, which selects
/// the rotation fallback.
pub fn is_not_unauthorized(err: CrateError) -> (r: Option<CrateError>)
    ensures
        err == check_access_token::unauthorized() <==> r is None,
        r matches Some(e) ==> e == err,
{
    match err {
        CrateError::UseCase(
            UseCaseError::CheckAccessToken(check_access_token::Error::UnauthorizedAccessToken),
        ) => None,
        e => Some(e),
    }
}

/// Keeps every error except a denied role requirement, which the caller
/// turns into the distinguished rotated-but-refused error.
pub fn is_permission_denied(err: CrateError) -> (r: Option<CrateError>)
    ensures
        err == check_access_token::permission_denied() <==> r is None,
        r matches Some(e) ==> e == err,
{
    match err {
        CrateError::UseCase(
            UseCaseError::CheckAccessToken(check_access_token::Error::PermissionDenied),
        ) => None,
        e => Some(e),
    }
}

/// Verifies or rotates, as of `now`.
#[verifier::rlimit(100)]
pub fn execute(
    payload: Payload,
    repository: &mut InMemorySecretKeyRepository,
    command: &GetUserInfo,
    now: i64,
) -> (r: Result<Model, CrateError>)
    requires
        old(repository).wf(),
        now + REFRESH_TOKEN_EXP <= i64::MAX,
        forall|i: int| 0 <= i < command@.len() ==> plain((#[trigger] command@[i]).id),
    ensures
        final(repository).wf(),
        // a pass without rotation repeats the plain access check and moves nothing
        r matches Ok(m) ==> m.access_token is None ==> m.refresh_token is None
            && check_access_token::access_ok(
            payload.access_token@,
            old(repository)@,
            command@,
            payload.minimum_role,
            true,
            now as int,
            check_access_token::ModelV { token_id: m.token_id@, user_id: m.user_id@ },
        ) && final(repository)@ == old(repository)@,
        // a pass with rotation hands out exactly the rotated pair
        r matches Ok(m) ==> m.access_token is Some ==> m.refresh_token is Some
            && refresh_token_pair::rotated(
            payload.access_token@,
            payload.refresh_token@,
            old(repository)@,
            final(repository)@,
            command@,
            now as int,
            refresh_token_pair::ModelV {
                access_token: m.access_token->Some_0@,
                refresh_token: m.refresh_token->Some_0@,
                token_id: m.token_id@,
                user_id: m.user_id@,
            },
        ),
        // the rotated-but-refused error still carries the new pair
        r matches Err(CrateError::UseCase(
            UseCaseError::CheckAndRefreshTokenPair(Error::PermissionDenied(tp)),
        )) ==> exists|m: refresh_token_pair::ModelV|
            #![trigger refresh_token_pair::rotated(
                payload.access_token@,
                payload.refresh_token@,
                old(repository)@,
                final(repository)@,
                command@,
                now as int,
                m,
            )]
            refresh_token_pair::rotated(
                payload.access_token@,
                payload.refresh_token@,
                old(repository)@,
                final(repository)@,
                command@,
                now as int,
                m,
            ) && m.access_token == tp.access_token@ && m.refresh_token == tp.refresh_token@,
        // for a pair of valid tokens whose keys are stored, the outcome is a function
        // of the claims, the directory and the clock
        forall|ca: ClaimsV, cr: ClaimsV, ka: Seq<char>, kr: Seq<char>|
            jwt::jwt_wf(ca, true, ka) && payload.access_token@ == #[trigger] jwt::jwt_of(
                ca,
                true,
                ka,
            ) && sk_lookup(old(repository)@, ca.id, now as int) == Some(ka) && jwt::jwt_wf(
                cr,
                false,
                kr,
            ) && payload.refresh_token@ == #[trigger] jwt::jwt_of(cr, false, kr) && sk_lookup(
                old(repository)@,
                cr.id,
                now as int,
            ) == Some(kr) ==> (match check_access_token::spec_execute(
                ca,
                command@,
                payload.minimum_role,
                true,
                now as int,
            ) {
                Ok(am) => (r matches Ok(m) && m.access_token is None && m.token_id@ == ca.id
                    && m.user_id@ == ca.user_id),
                Err(e1) => if e1 != check_access_token::unauthorized() {
                    (r matches Err(e2) && e2 == e1)
                } else {
                    match check_token_pair::spec_check_pair(ca, cr, now as int) {
                        Err(e3) => (r matches Err(e4) && e4 == e3),
                        Ok(pm) => match payload.minimum_role {
                            None => (r matches Ok(m) && m.access_token is Some && m.user_id@
                                == ca.user_id),
                            Some(mr) => match user_find(command@, ca.user_id) {
                                None => (r matches Err(e5) && e5 == CrateError::UserSdk(
                                    UserSdkError::NotFoundUser,
                                )),
                                Some(u) => if u.role < mr {
                                    (r matches Err(CrateError::UseCase(
                                        UseCaseError::CheckAndRefreshTokenPair(
                                            Error::PermissionDenied(tp),
                                        ),
                                    )))
                                } else {
                                    (r matches Ok(m) && m.access_token is Some && m.user_id@
                                        == ca.user_id)
                                },
                            },
                        },
                    }
                },
            }),
{
    let first = check_access_token::execute(
        check_access_token::Payload {
            access_token: payload.access_token.clone(),
            minimum_role: payload.minimum_role,
            validate_exp: true,
        },
        repository,
        command,
        now,
    );
    match first {
        Ok(t) => {
            return Ok(
                Model {
                    access_token: None,
                    refresh_token: None,
                    token_id: t.token_id,
                    user_id: t.user_id,
                },
            );
        },
        Err(e) => {
            match is_not_unauthorized(e) {
                Some(other) => {
                    return Err(other);
                },
                None => {
                },
            }
        },
    }
    // the access token alone did not pass: rotate, then hold the new
    // access token to the same requirement
    let rot = match refresh_token_pair::execute(
        refresh_token_pair::Payload {
            access_token: payload.access_token,
            refresh_token: payload.refresh_token,
        },
        repository,
        command,
        now,
    ) {
        Ok(t) => t,
        Err(e) => {
            return Err(e);
        },
    };
    let ghost rotm = rot@;
    proof {
        let uid = rotm.user_id;
        let k = choose|k: Seq<char>|
            #![trigger jwt::jwt_of(
                access_claims(
                    TokenV {
                        id: crate::refresh_token_pair::to_create_model(rotm).token_id,
                        user_id: uid,
                    },
                    now as int,
                ),
                true,
                k,
            )]
            ({
                let tv = TokenV {
                    id: crate::refresh_token_pair::to_create_model(rotm).token_id,
                    user_id: uid,
                };
                &&& plain(crate::refresh_token_pair::to_create_model(rotm).token_id)
                &&& crate::refresh_token_pair::to_create_model(rotm).token_id.len() == 36
                &&& crate::refresh_token_pair::to_create_model(rotm).user_id == uid
                &&& crate::secret_key_repository::sk_get(
                    repository@,
                    crate::refresh_token_pair::to_create_model(rotm).token_id,
                ) == Some(
                    crate::secret_key_repository::SkEntryV {
                        id: crate::refresh_token_pair::to_create_model(rotm).token_id,
                        key: k,
                        created_at: now as int,
                    },
                )
                &&& sk_lookup(
                    repository@,
                    crate::refresh_token_pair::to_create_model(rotm).token_id,
                    now as int,
                ) == Some(k)
                &&& crate::refresh_token_pair::to_create_model(rotm).access_token == jwt::jwt_of(
                    access_claims(tv, now as int),
                    true,
                    k,
                )
                &&& crate::refresh_token_pair::to_create_model(rotm).refresh_token == jwt::jwt_of(
                    crate::token::refresh_claims(tv, now as int),
                    false,
                    k,
                )
                &&& jwt::jwt_wf(access_claims(tv, now as int), true, k)
                &&& jwt::jwt_wf(crate::token::refresh_claims(tv, now as int), false, k)
            });
        let tv = TokenV { id: rotm.token_id, user_id: rotm.user_id };
        assert(rot.access_token@ == jwt::jwt_of(access_claims(tv, now as int), true, k));
        assert(sk_lookup(repository@, access_claims(tv, now as int).id, now as int) == Some(k));
    }
    let second = check_access_token::execute(
        check_access_token::Payload {
            access_token: rot.access_token.clone(),
            minimum_role: payload.minimum_role,
            validate_exp: true,
        },
        repository,
        command,
        now,
    );
    match second {
        Ok(t) => Ok(
            Model {
                access_token: Some(rot.access_token),
                refresh_token: Some(rot.refresh_token),
                token_id: t.token_id,
                user_id: t.user_id,
            },
        ),
        Err(e) => {
            match is_permission_denied(e) {
                Some(other) => Err(other),
                None => Err(
                    CrateError::UseCase(
                        UseCaseError::CheckAndRefreshTokenPair(
                            Error::PermissionDenied(
                                TokenPair {
                                    access_token: rot.access_token,
                                    refresh_token: rot.refresh_token,
                                },
                            ),
                        ),
                    ),
                ),
            }
        },
    }
}

} // verus!
