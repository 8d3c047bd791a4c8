//! Rotates a session: checks the pair, revokes the old key — the removal
//! must succeed before anything new is minted — and then creates a
//! brand-new session for the same user.

use vstd::prelude::*;

use crate::check_token_pair;
use crate::claims::ClaimsV;
use crate::command::GetUserInfo;
use crate::create_token_pair;
use crate::error::{Error as CrateError, UseCaseError};
use crate::jwt;
use crate::secret_key_repository::{sk_get, sk_lookup, InMemorySecretKeyRepository, SkEntryV};
use crate::text::plain;
use crate::token::REFRESH_TOKEN_EXP;

verus! {

#[derive(Debug)]
pub struct Payload {
    pub access_token: String,
    pub refresh_token: String,
}

pub struct Model {
    pub access_token: String,
    pub refresh_token: String,
    pub token_id: String,
    pub user_id: String,
}

#[verifier::ext_equal]
pub ghost struct ModelV {
    pub access_token: Seq<char>,
    pub refresh_token: Seq<char>,
    pub token_id: Seq<char>,
    pub user_id: Seq<char>,
}

impl View for Model {
    type V = ModelV;

    open spec fn view(&self) -> ModelV {
        ModelV {
            access_token: self.access_token@,
            refresh_token: self.refresh_token@,
            token_id: self.token_id@,
            user_id: self.user_id@,
        }
    }
}

#[derive(Debug)]
pub enum Error {
    CannotRemovedSecretKey,
}

pub open spec fn to_create_model(m: ModelV) -> create_token_pair::ModelV {
    create_token_pair::ModelV {
        access_token: m.access_token,
        refresh_token: m.refresh_token,
        token_id: m.token_id,
        user_id: m.user_id,
    }
}

/// What rotation guarantees about a success: the input pair was a valid
/// pair of some old session; unless the fresh random id collided with the
/// old one, the old session's key is gone for good; a brand-new session of
/// the same user is stored and serialized in the result; and no other
/// session moved.
pub open spec fn rotated(
    at: Seq<char>,
    rt: Seq<char>,
    sk0: Seq<SkEntryV>,
    sk1: Seq<SkEntryV>,
    users: Seq<crate::user::UserInfoV>,
    now: int,
    m: ModelV,
) -> bool {
    exists|old_id: Seq<char>, old_uid: Seq<char>|
        #![trigger sk_get(sk0, old_id), plain(old_uid)]
        ({
            &&& check_token_pair::spec_pair_ok(
                at,
                rt,
                sk0,
                users,
                now,
                check_token_pair::ModelV { token_id: old_id, user_id: old_uid },
            )
            &&& m.user_id == old_uid
            &&& (m.token_id != old_id ==> sk_get(sk1, old_id) is None)
            &&& crate::create_token_pair::created_core(sk1, now, old_uid, to_create_model(m))
            &&& (forall|id2: Seq<char>|
                id2 != m.token_id && id2 != old_id ==> #[trigger] sk_get(sk1, id2) == sk_get(
                    sk0,
                    id2,
                ))
        })
}

/// Rotates the pair as of `now`: old and new session never share an id or
/// a key except by an (improbable) collision of the fresh random id.
pub fn execute(
    payload: Payload,
    repository: &mut InMemorySecretKeyRepository,
    command: &GetUserInfo,
    now: i64,
) -> (r: Result<Model, CrateError>)
    requires
        old(repository).wf(),
        now + REFRESH_TOKEN_EXP <= i64::MAX,
        forall|i: int| 0 <= i < command@.len() ==> plain((#[trigger] command@[i]).id),
    ensures
        final(repository).wf(),
        r matches Err(e) ==> final(repository)@ == old(repository)@ && (e
            == crate::check_access_token::unauthorized() || e
            == crate::check_refresh_token::unauthorized() || e == check_token_pair::invalid_pair()
            || e == CrateError::UseCase(UseCaseError::RefreshTokenPair(Error::CannotRemovedSecretKey))
            || e == crate::create_token_pair::not_found_user()),
        r matches Ok(m) ==> crate::create_token_pair::created_core(
            final(repository)@,
            now as int,
            m@.user_id,
            to_create_model(m@),
        ) && crate::text::plain(m@.user_id),
        r matches Ok(m) ==> rotated(
            payload.access_token@,
            payload.refresh_token@,
            old(repository)@,
            final(repository)@,
            command@,
            now as int,
            m@,
        ),
        forall|ca: ClaimsV, cr: ClaimsV, ka: Seq<char>, kr: Seq<char>|
            jwt::jwt_wf(ca, true, ka) && payload.access_token@ == #[trigger] jwt::jwt_of(
                ca,
                true,
                ka,
            ) && sk_lookup(old(repository)@, ca.id, now as int) == Some(ka) && jwt::jwt_wf(
                cr,
                false,
                kr,
            ) && payload.refresh_token@ == #[trigger] jwt::jwt_of(cr, false, kr) && sk_lookup(
                old(repository)@,
                cr.id,
                now as int,
            ) == Some(kr) ==> (match check_token_pair::spec_check_pair(ca, cr, now as int) {
                Err(e) => (r matches Err(e2) && e2 == e),
                Ok(pm) => (r matches Ok(m) && m@.user_id == ca.user_id),
            }),
{
    let ghost at = payload.access_token@;
    let ghost rt = payload.refresh_token@;
    let token_data = match check_token_pair::execute(
        check_token_pair::Payload {
            access_token: payload.access_token,
            refresh_token: payload.refresh_token,
        },
        repository,
        command,
        now,
    ) {
        Ok(t) => t,
        Err(e) => {
            return Err(e);
        },
    };
    // revoke the old session before anything new exists
    let removed = repository.remove(token_data.token_id.as_str());
    if !removed {
        return Err(CrateError::UseCase(
            UseCaseError::RefreshTokenPair(Error::CannotRemovedSecretKey),
        ));
    }
    let ghost sk_mid = repository@;
    let t = match create_token_pair::execute(
        create_token_pair::Payload::UserId(token_data.user_id),
        repository,
        command,
        now,
    ) {
        Ok(t) => t,
        Err(e) => {
            proof {
                assert(false);
            }
            return Err(e);
        },
    };
    proof {
        let m = ModelV {
            access_token: t@.access_token,
            refresh_token: t@.refresh_token,
            token_id: t@.token_id,
            user_id: t@.user_id,
        };
        let old_id = token_data@.token_id;
        let old_uid = token_data@.user_id;
        assert(sk_get(sk_mid, old_id) is None);
        if m.token_id != old_id {
            assert(sk_get(final(repository)@, old_id) == sk_get(sk_mid, old_id));
        }
        assert forall|id2: Seq<char>|
            id2 != m.token_id && id2 != old_id implies #[trigger] sk_get(final(repository)@, id2)
            == sk_get(old(repository)@, id2) by {
            assert(sk_get(final(repository)@, id2) == sk_get(sk_mid, id2));
            assert(sk_get(sk_mid, id2) == sk_get(old(repository)@, id2));
        }
        assert(rotated(at, rt, old(repository)@, final(repository)@, command@, now as int, m));
    }
    Ok(Model {
        access_token: t.access_token,
        refresh_token: t.refresh_token,
        token_id: t.token_id,
        user_id: t.user_id,
    })
}

} // verus!
