//! Mints a fresh session: resolves the user if need be, draws a new
//! session id and a new signing secret, stores the secret, and serializes
//! both tokens. The terminal step of login and of rotation.

use vstd::prelude::*;

use crate::command::{user_find, GetUserInfo};
use crate::error::{Error as CrateError, UseCaseError};
use crate::jwt;
use crate::secret_key::SecretKey;
use crate::secret_key_repository::{sk_get, sk_lookup, InMemorySecretKeyRepository, SkEntryV};
use crate::text::plain;
use crate::token::{access_claims, refresh_claims, Token, TokenV, REFRESH_TOKEN_EXP};
use crate::user::UserInfoV;

verus! {

/// Who the session is for: a known user id, or an email still to be
/// resolved against the user directory.
pub enum Payload {
    UserEmail(String),
    UserId(String),
}

#[derive(Debug)]
pub struct Model {
    pub access_token: String,
    pub refresh_token: String,
    pub token_id: String,
    pub user_id: String,
}

#[verifier::ext_equal]
pub ghost struct ModelV {
    pub access_token: Seq<char>,
    pub refresh_token: Seq<char>,
    pub token_id: Seq<char>,
    pub user_id: Seq<char>,
}

impl View for Model {
    type V = ModelV;

    open spec fn view(&self) -> ModelV {
        ModelV {
            access_token: self.access_token@,
            refresh_token: self.refresh_token@,
            token_id: self.token_id@,
            user_id: self.user_id@,
        }
    }
}

#[derive(Debug)]
pub enum Error {
    NotFoundUser,
    CannotAddedSecretKey,
}

pub open spec fn not_found_user() -> CrateError {
    CrateError::UseCase(UseCaseError::CreateTokenPair(Error::NotFoundUser))
}

/// The user id the session is minted for.
pub open spec fn spec_user_id(p: Payload, users: Seq<UserInfoV>) -> Result<Seq<char>, CrateError> {
    match p {
        Payload::UserId(id) => Ok(id@),
        Payload::UserEmail(email) => match user_find(users, email@) {
            Some(u) => Ok(u.id),
            None => Err(not_found_user()),
        },
    }
}

/// The core of what minting guarantees about its result: the fresh
/// session id is stored with some fresh key, and both returned tokens are
/// exactly the serialized claim sets of the new session, issued at `now`.
pub open spec fn created_core(sk1: Seq<SkEntryV>, now: int, uid: Seq<char>, m: ModelV) -> bool {
    exists|k: Seq<char>|
        #![trigger jwt::jwt_of(access_claims(TokenV { id: m.token_id, user_id: uid }, now), true, k)]
        ({
            let tv = TokenV { id: m.token_id, user_id: uid };
            &&& plain(m.token_id)
            &&& m.token_id.len() == 36
            &&& m.user_id == uid
            &&& sk_get(sk1, m.token_id) == Some(
                SkEntryV { id: m.token_id, key: k, created_at: now },
            )
            &&& sk_lookup(sk1, m.token_id, now) == Some(k)
            &&& m.access_token == jwt::jwt_of(access_claims(tv, now), true, k)
            &&& m.refresh_token == jwt::jwt_of(refresh_claims(tv, now), false, k)
            &&& jwt::jwt_wf(access_claims(tv, now), true, k)
            &&& jwt::jwt_wf(refresh_claims(tv, now), false, k)
        })
}

/// Minting in full: the core, plus that no other session moved.
pub open spec fn created(
    sk0: Seq<SkEntryV>,
    sk1: Seq<SkEntryV>,
    now: int,
    uid: Seq<char>,
    m: ModelV,
) -> bool {
    &&& created_core(sk1, now, uid, m)
    &&& (forall|id2: Seq<char>|
        id2 != m.token_id ==> #[trigger] sk_get(sk1, id2) == sk_get(sk0, id2))
}

/// Mints a session for the user `payload` names, as of `now`.
pub fn execute(
    payload: Payload,
    repository: &mut InMemorySecretKeyRepository,
    command: &GetUserInfo,
    now: i64,
) -> (r: Result<Model, CrateError>)
    requires
        old(repository).wf(),
        now + REFRESH_TOKEN_EXP <= i64::MAX,
        payload matches Payload::UserId(id) ==> plain(id@),
        forall|i: int| 0 <= i < command@.len() ==> plain((#[trigger] command@[i]).id),
    ensures
        final(repository).wf(),
        r matches Err(e) ==> spec_user_id(payload, command@) == Result::<
            Seq<char>,
            CrateError,
        >::Err(e) && final(repository)@ == old(repository)@,
        r matches Ok(m) ==> spec_user_id(payload, command@) == Result::<
            Seq<char>,
            CrateError,
        >::Ok(m@.user_id) && created(old(repository)@, final(repository)@, now as int, m@.user_id, m@),
{
    let user_id: String = match payload {
        Payload::UserId(id) => id,
        Payload::UserEmail(email) => {
            match command.get_user_info(email.as_str()) {
                Some(u) => {
                    proof {
                        crate::command::lemma_user_find_some(command@, email@);
                    }
                    u.id
                },
                None => {
                    return Err(CrateError::UseCase(
                        UseCaseError::CreateTokenPair(Error::NotFoundUser),
                    ));
                },
            }
        },
    };
    let token = Token::new(user_id);
    let secret_key = SecretKey::new();
    let added = repository.add_at(token.id.as_str(), secret_key.0.as_str(), now);
    if !added {
        return Err(CrateError::UseCase(UseCaseError::CreateTokenPair(Error::CannotAddedSecretKey)));
    }
    let (access_token, refresh_token) = token.serialize_at(secret_key.0.as_str(), now);
    proof {
        let m = ModelV {
            access_token: access_token@,
            refresh_token: refresh_token@,
            token_id: token@.id,
            user_id: token@.user_id,
        };
        let k = secret_key@;
        let tv = TokenV { id: m.token_id, user_id: m.user_id };
        assert(sk_get(final(repository)@, m.token_id) == Some(
            SkEntryV { id: m.token_id, key: k, created_at: now as int },
        ));
        assert(created(old(repository)@, final(repository)@, now as int, m.user_id, m));
    }
    Ok(Model { access_token, refresh_token, token_id: token.id, user_id: token.user_id })
}

} // verus!
