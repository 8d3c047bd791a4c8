//! Routes one inbound intent to its use cases and wraps the answer.
//!
//! The contract repeats, per intent, what the named use case guarantees:
//! which store moves and how, and — for tokens the key store backs — the
//! exact outcome as a function of the claims, the directory and the
//! clock. An answer of the wrong shape, a swapped route or a blanket
//! refusal does not satisfy it.

use vstd::prelude::*;

use crate::authcode_repository::{spec_pop_code, InMemoryAuthcodeRepository};
use crate::check_access_token;
use crate::check_and_refresh_token_pair;
use crate::check_authcode;
use crate::claims::ClaimsV;
use crate::command::{user_find, GetUserInfo};
use crate::create_authcode;
use crate::create_token_pair;
use crate::delete_token_pair;
use crate::error::Error;
use crate::jwt;
use crate::model::Model;
use crate::msg::Msg;
use crate::refresh_token_pair;
use crate::secret_key_repository::{sk_get, sk_lookup, InMemorySecretKeyRepository};
use crate::text::plain;
use crate::token::REFRESH_TOKEN_EXP;

verus! {

/// The answer of the access-token check, read back out of the wrapped
/// result. A result of the wrong shape reads as an error no check ever
/// returns, so the exact clauses below refuse it.
pub open spec fn as_check_access(r: Result<Model, Error>) -> Result<
    check_access_token::ModelV,
    Error,
> {
    match r {
        Ok(m) => match m {
            Model::CheckAccessToken(im) => Ok(im@),
            _ => Err(Error::Msg(crate::error::MsgError::NotFound)),
        },
        Err(e) => Err(e),
    }
}

/// The minted pair, read back out of the wrapped result, as the rotation
/// model it also stands for.
pub open spec fn as_rotated(m: create_token_pair::ModelV) -> refresh_token_pair::ModelV {
    refresh_token_pair::ModelV {
        access_token: m.access_token,
        refresh_token: m.refresh_token,
        token_id: m.token_id,
        user_id: m.user_id,
    }
}

/// Runs the use cases an intent calls for, in their order, against the two
/// stores and the user directory, as of `now`. Each intent answers with
/// its own model shape, and with exactly the outcome and the store change
/// its use case promises.
#[verifier::rlimit(100)]
pub fn resolve(
    msg: Msg,
    authcodes: &mut InMemoryAuthcodeRepository,
    secret_keys: &mut InMemorySecretKeyRepository,
    command: &GetUserInfo,
    now: i64,
) -> (r: Result<Model, Error>)
    requires
        old(authcodes).wf(),
        old(secret_keys).wf(),
        now + REFRESH_TOKEN_EXP <= i64::MAX,
        forall|i: int| 0 <= i < command@.len() ==> plain((#[trigger] command@[i]).id),
    ensures
        final(authcodes).wf(),
        final(secret_keys).wf(),
        r matches Ok(m) ==> match msg {
            Msg::CreateAuthcode(_) => m is CreateAuthcode,
            Msg::CreateTokenPair(_) => m is CreateTokenPair,
            Msg::CheckAccessToken(_) => m is CheckAccessToken,
            Msg::CheckAndRefreshTokenPair(_) => m is CheckAndRefreshTokenPair,
            Msg::RefreshTokenPair(_) => m is CreateTokenPair,
            Msg::DeleteTokenPair(_) => m is DeleteTokenPair,
        },
        // issuing a code: the key store never moves; the directory decides,
        // and the authcode store answers as its cap demands
        msg matches Msg::CreateAuthcode(p) ==> final(secret_keys)@ == old(secret_keys)@ && (
        user_find(command@, p.user_email@) is None ==> final(authcodes)@ == old(authcodes)@ && (
        r matches Err(e) && e == create_authcode::not_found_user())) && (match user_find(
            command@,
            p.user_email@,
        ) {
            Some(u) => create_authcode::issued(
                old(authcodes)@,
                final(authcodes)@,
                u.email,
                now as int,
                match r {
                    Ok(m) => match m {
                        Model::CreateAuthcode(im) => Ok(im),
                        _ => Err(Error::Msg(crate::error::MsgError::NotFound)),
                    },
                    Err(e) => Err(e),
                },
            ),
            None => true,
        }),
        // trading a code for a session: the code is popped either way; a
        // recovered email is resolved and a full mint follows
        msg matches Msg::CreateTokenPair(p) ==> final(authcodes)@ == spec_pop_code(
            old(authcodes)@,
            p.code@,
            now as int,
        ).0 && (spec_pop_code(old(authcodes)@, p.code@, now as int).1 is None ==> final(secret_keys)@ == old(secret_keys)@ && (r matches Err(e) && e == check_authcode::invalid_authcode()))
            && (match spec_pop_code(old(authcodes)@, p.code@, now as int).1 {
            Some(a) => match user_find(command@, a.user_email) {
                None => final(secret_keys)@ == old(secret_keys)@ && (r matches Err(e) && e
                    == create_token_pair::not_found_user()),
                Some(u) => (r matches Ok(Model::CreateTokenPair(im)) && im@.user_id == u.id
                    && create_token_pair::created(
                    old(secret_keys)@,
                    final(secret_keys)@,
                    now as int,
                    u.id,
                    im@,
                )),
            },
            None => true,
        }),
        // checking an access token: nothing moves, and for a token the key
        // store backs the outcome is exactly the access check's
        msg matches Msg::CheckAccessToken(p) ==> final(authcodes)@ == old(authcodes)@ && final(secret_keys)@ == old(secret_keys)@ && (r matches Ok(Model::CheckAccessToken(im))
            ==> check_access_token::access_ok(
            p.access_token@,
            old(secret_keys)@,
            command@,
            p.minimum_role,
            p.validate_exp,
            now as int,
            im@,
        )) && (forall|cv: ClaimsV, k: Seq<char>|
            jwt::jwt_wf(cv, true, k) && p.access_token@ == #[trigger] jwt::jwt_of(cv, true, k)
                && sk_lookup(old(secret_keys)@, cv.id, now as int) == Some(k) ==> as_check_access(r)
                == check_access_token::spec_execute(
                cv,
                command@,
                p.minimum_role,
                p.validate_exp,
                now as int,
            )) && (forall|cv: ClaimsV, k: Seq<char>|
            jwt::jwt_wf(cv, true, k) && p.access_token@ == #[trigger] jwt::jwt_of(cv, true, k)
                && sk_lookup(old(secret_keys)@, cv.id, now as int) is None ==> as_check_access(r)
                == Result::<check_access_token::ModelV, Error>::Err(
                check_access_token::unauthorized(),
            )),
        // verify-or-rotate: the composite check's own guarantees, unwrapped
        msg matches Msg::CheckAndRefreshTokenPair(p) ==> final(authcodes)@ == old(authcodes)@ && (
        r matches Ok(Model::CheckAndRefreshTokenPair(im)) ==> (im.access_token is None
            ==> im.refresh_token is None && check_access_token::access_ok(
            p.access_token@,
            old(secret_keys)@,
            command@,
            p.minimum_role,
            true,
            now as int,
            check_access_token::ModelV { token_id: im.token_id@, user_id: im.user_id@ },
        ) && final(secret_keys)@ == old(secret_keys)@) && (im.access_token is Some
            ==> im.refresh_token is Some && refresh_token_pair::rotated(
            p.access_token@,
            p.refresh_token@,
            old(secret_keys)@,
            final(secret_keys)@,
            command@,
            now as int,
            refresh_token_pair::ModelV {
                access_token: im.access_token->Some_0@,
                refresh_token: im.refresh_token->Some_0@,
                token_id: im.token_id@,
                user_id: im.user_id@,
            },
        ))) && (r matches Err(Error::UseCase(
            crate::error::UseCaseError::CheckAndRefreshTokenPair(
                check_and_refresh_token_pair::Error::PermissionDenied(tp),
            ),
        )) ==> exists|m: refresh_token_pair::ModelV|
            #![trigger refresh_token_pair::rotated(
                p.access_token@,
                p.refresh_token@,
                old(secret_keys)@,
                final(secret_keys)@,
                command@,
                now as int,
                m,
            )]
            refresh_token_pair::rotated(
                p.access_token@,
                p.refresh_token@,
                old(secret_keys)@,
                final(secret_keys)@,
                command@,
                now as int,
                m,
            ) && m.access_token == tp.access_token@ && m.refresh_token == tp.refresh_token@) && (
        forall|ca: ClaimsV, cr: ClaimsV, ka: Seq<char>, kr: Seq<char>|
            jwt::jwt_wf(ca, true, ka) && p.access_token@ == #[trigger] jwt::jwt_of(ca, true, ka)
                && sk_lookup(old(secret_keys)@, ca.id, now as int) == Some(ka) && jwt::jwt_wf(
                cr,
                false,
                kr,
            ) && p.refresh_token@ == #[trigger] jwt::jwt_of(cr, false, kr) && sk_lookup(
                old(secret_keys)@,
                cr.id,
                now as int,
            ) == Some(kr) ==> (match check_access_token::spec_execute(
                ca,
                command@,
                p.minimum_role,
                true,
                now as int,
            ) {
                Ok(am) => (r matches Ok(Model::CheckAndRefreshTokenPair(im)) && im.access_token
                    is None && im.token_id@ == ca.id && im.user_id@ == ca.user_id),
                Err(e1) => if e1 != check_access_token::unauthorized() {
                    (r matches Err(e2) && e2 == e1)
                } else {
                    match crate::check_token_pair::spec_check_pair(ca, cr, now as int) {
                        Err(e3) => (r matches Err(e4) && e4 == e3),
                        Ok(pm) => match p.minimum_role {
                            None => (r matches Ok(Model::CheckAndRefreshTokenPair(im))
                                && im.access_token is Some && im.user_id@ == ca.user_id),
                            Some(mr) => match user_find(command@, ca.user_id) {
                                None => (r matches Err(e5) && e5 == Error::UserSdk(
                                    crate::error::UserSdkError::NotFoundUser,
                                )),
                                Some(u) => if u.role < mr {
                                    (r matches Err(Error::UseCase(
                                        crate::error::UseCaseError::CheckAndRefreshTokenPair(
                                            check_and_refresh_token_pair::Error::PermissionDenied(
                                                tp,
                                            ),
                                        ),
                                    )))
                                } else {
                                    (r matches Ok(Model::CheckAndRefreshTokenPair(im))
                                        && im.access_token is Some && im.user_id@ == ca.user_id)
                                },
                            },
                        },
                    }
                },
            })),
        // rotation: the authcode store never moves; on success the answer
        // is the rotated session, on an error the key store is untouched
        msg matches Msg::RefreshTokenPair(p) ==> final(authcodes)@ == old(authcodes)@ && (
        r matches Err(e) ==> final(secret_keys)@ == old(secret_keys)@) && (r matches Ok(
            Model::CreateTokenPair(im),
        ) ==> refresh_token_pair::rotated(
            p.access_token@,
            p.refresh_token@,
            old(secret_keys)@,
            final(secret_keys)@,
            command@,
            now as int,
            as_rotated(im@),
        )) && (forall|ca: ClaimsV, cr: ClaimsV, ka: Seq<char>, kr: Seq<char>|
            jwt::jwt_wf(ca, true, ka) && p.access_token@ == #[trigger] jwt::jwt_of(ca, true, ka)
                && sk_lookup(old(secret_keys)@, ca.id, now as int) == Some(ka) && jwt::jwt_wf(
                cr,
                false,
                kr,
            ) && p.refresh_token@ == #[trigger] jwt::jwt_of(cr, false, kr) && sk_lookup(
                old(secret_keys)@,
                cr.id,
                now as int,
            ) == Some(kr) ==> (match crate::check_token_pair::spec_check_pair(ca, cr, now as int) {
                Err(e) => (r matches Err(e2) && e2 == e),
                Ok(pm) => (r matches Ok(Model::CreateTokenPair(im)) && im@.user_id == ca.user_id),
            })),
        // logout: the authcode store never moves; the key store only loses
        // entries, and an agreeing pair loses exactly its session
        msg matches Msg::DeleteTokenPair(p) ==> final(authcodes)@ == old(authcodes)@ && (forall|
            id2: Seq<char>,
        |
            #[trigger] sk_get(final(secret_keys)@, id2) == sk_get(old(secret_keys)@, id2) || sk_get(
                final(secret_keys)@,
                id2,
            ) is None) && (r matches Err(e) ==> e == delete_token_pair::invalid_token() && final(secret_keys)@ == old(secret_keys)@) && (forall|ca: ClaimsV, ka: Seq<char>, cr: ClaimsV, kr: Seq<char>|
            jwt::jwt_wf(ca, true, ka) && p.access_token@ == #[trigger] jwt::jwt_of(ca, true, ka)
                && jwt::jwt_wf(cr, false, kr) && p.refresh_token@ == #[trigger] jwt::jwt_of(
                cr,
                false,
                kr,
            ) ==> (if ca.id == cr.id && ca.user_id == cr.user_id {
                r is Ok && sk_get(final(secret_keys)@, ca.id) is None && (forall|id2: Seq<char>|
                    id2 != ca.id ==> #[trigger] sk_get(final(secret_keys)@, id2) == sk_get(
                        old(secret_keys)@,
                        id2,
                    ))
            } else {
                r matches Err(e) && e == delete_token_pair::invalid_token() && final(secret_keys)@
                    == old(secret_keys)@
            })),
{
    match msg {
        Msg::CreateAuthcode(payload) => {
            match create_authcode::execute(payload, authcodes, command, now) {
                Ok(m) => Ok(Model::CreateAuthcode(m)),
                Err(e) => Err(e),
            }
        },
        Msg::CreateTokenPair(payload) => {
            let checked = match check_authcode::execute(payload, authcodes, now) {
                Ok(m) => m,
                Err(e) => {
                    return Err(e);
                },
            };
            match create_token_pair::execute(
                create_token_pair::Payload::UserEmail(checked.user_email),
                secret_keys,
                command,
                now,
            ) {
                Ok(m) => Ok(Model::CreateTokenPair(m)),
                Err(e) => Err(e),
            }
        },
        Msg::CheckAccessToken(payload) => {
            match check_access_token::execute(payload, secret_keys, command, now) {
                Ok(m) => Ok(Model::CheckAccessToken(m)),
                Err(e) => Err(e),
            }
        },
        Msg::CheckAndRefreshTokenPair(payload) => {
            match check_and_refresh_token_pair::execute(payload, secret_keys, command, now) {
                Ok(m) => Ok(Model::CheckAndRefreshTokenPair(m)),
                Err(e) => Err(e),
            }
        },
        Msg::RefreshTokenPair(payload) => {
            match refresh_token_pair::execute(
                refresh_token_pair::Payload {
                    access_token: payload.access_token,
                    refresh_token: payload.refresh_token,
                },
                secret_keys,
                command,
                now,
            ) {
                Ok(m) => Ok(
                    Model::CreateTokenPair(
                        create_token_pair::Model {
                            access_token: m.access_token,
                            refresh_token: m.refresh_token,
                            token_id: m.token_id,
                            user_id: m.user_id,
                        },
                    ),
                ),
                Err(e) => Err(e),
            }
        },
        Msg::DeleteTokenPair(payload) => {
            match delete_token_pair::execute(payload, secret_keys) {
                Ok(m) => Ok(Model::DeleteTokenPair(m)),
                Err(e) => Err(e),
            }
        },
    }
}

} // verus!
