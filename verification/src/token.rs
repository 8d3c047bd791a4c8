//! The session identity and the two claim sets issued for it.

use vstd::prelude::*;

use crate::claims::{claims_wf, Claims, ClaimsV};
use crate::crypto;
use crate::error::Error;
use crate::jwt;
use crate::text;

verus! {

/// Lifetime of an access token, in seconds.
pub const ACCESS_TOKEN_EXP: i64 = 3600 * 4;

/// Lifetime of a refresh token, in seconds.
pub const REFRESH_TOKEN_EXP: i64 = 3600 * 24 * 7;

/// The identity of one login session: a fresh random id, and the user it
/// belongs to. Never mutated; forgotten by deleting its secret key.
#[derive(Debug, Clone)]
pub struct Token {
    pub id: String,
    pub user_id: String,
}

#[verifier::ext_equal]
pub ghost struct TokenV {
    pub id: Seq<char>,
    pub user_id: Seq<char>,
}

impl View for Token {
    type V = TokenV;

    open spec fn view(&self) -> TokenV {
        TokenV { id: self.id@, user_id: self.user_id@ }
    }
}

pub open spec fn token_wf(t: TokenV) -> bool {
    text::plain(t.id) && text::plain(t.user_id)
}

/// The access claim set issued for session `t` at time `now`.
pub open spec fn access_claims(t: TokenV, now: int) -> ClaimsV {
    ClaimsV {
        sub: ("madome access token")@,
        iss: ("madome.app")@,
        iat: now,
        exp: now + ACCESS_TOKEN_EXP,
        id: t.id,
        user_id: t.user_id,
        flag: true,
    }
}

/// The refresh claim set issued for session `t` at time `now`.
pub open spec fn refresh_claims(t: TokenV, now: int) -> ClaimsV {
    ClaimsV {
        sub: ("madome refresh token")@,
        iss: ("madome.app")@,
        iat: now,
        exp: now + REFRESH_TOKEN_EXP,
        id: t.id,
        user_id: t.user_id,
        flag: true,
    }
}

/// The fixed subject and issuer texts hold no quote and no backslash.
pub proof fn lemma_issue_lits_plain()
    ensures
        text::plain(("madome access token")@),
        text::plain(("madome refresh token")@),
        text::plain(("madome.app")@),
{
    reveal_strlit("madome access token");
    reveal_strlit("madome refresh token");
    reveal_strlit("madome.app");
    assert forall|i: int|
        0 <= i < ("madome access token")@.len() implies text::plain_char(
        #[trigger] ("madome access token")@[i],
    ) by {
        assert(("madome access token")@[i] != '"' && ("madome access token")@[i] != '\\');
    }
    assert forall|i: int|
        0 <= i < ("madome refresh token")@.len() implies text::plain_char(
        #[trigger] ("madome refresh token")@[i],
    ) by {
        assert(("madome refresh token")@[i] != '"' && ("madome refresh token")@[i] != '\\');
    }
    assert forall|i: int|
        0 <= i < ("madome.app")@.len() implies text::plain_char(
        #[trigger] ("madome.app")@[i],
    ) by {
        assert(("madome.app")@[i] != '"' && ("madome.app")@[i] != '\\');
    }
}

/// The claim set a token issued at a representable time carries is well
/// formed.
pub proof fn lemma_issue_claims_wf(t: TokenV, now: int)
    requires
        token_wf(t),
        i64::MIN <= now,
        now + REFRESH_TOKEN_EXP <= i64::MAX,
    ensures
        claims_wf(access_claims(t, now)),
        claims_wf(refresh_claims(t, now)),
{
    lemma_issue_lits_plain();
}

/// The access-token claim set, as executable data. The `_a` field is the
/// discriminator that separates access payloads from refresh payloads.
pub struct AccessToken {
    pub sub: String,
    pub iss: String,
    pub iat: i64,
    pub exp: i64,
    pub id: String,
    pub user_id: String,
    pub _a: bool,
}

impl View for AccessToken {
    type V = ClaimsV;

    open spec fn view(&self) -> ClaimsV {
        ClaimsV {
            sub: self.sub@,
            iss: self.iss@,
            iat: self.iat as int,
            exp: self.exp as int,
            id: self.id@,
            user_id: self.user_id@,
            flag: self._a,
        }
    }
}

/// The refresh-token claim set, as executable data, discriminated by `_r`.
pub struct RefreshToken {
    pub sub: String,
    pub iss: String,
    pub iat: i64,
    pub exp: i64,
    pub id: String,
    pub user_id: String,
    pub _r: bool,
}

impl View for RefreshToken {
    type V = ClaimsV;

    open spec fn view(&self) -> ClaimsV {
        ClaimsV {
            sub: self.sub@,
            iss: self.iss@,
            iat: self.iat as int,
            exp: self.exp as int,
            id: self.id@,
            user_id: self.user_id@,
            flag: self._r,
        }
    }
}

impl AccessToken {
    /// The access claims for session `token` issued at `now`.
    pub fn issue(token: &Token, now: i64) -> (r: AccessToken)
        requires
            now + ACCESS_TOKEN_EXP <= i64::MAX,
        ensures
            r@ == access_claims(token@, now as int),
    {
        AccessToken {
            sub: "madome access token".to_owned(),
            iss: "madome.app".to_owned(),
            iat: now,
            exp: now + ACCESS_TOKEN_EXP,
            id: token.id.clone(),
            user_id: token.user_id.clone(),
            _a: true,
        }
    }

    fn to_claims(self) -> (r: Claims)
        ensures
            r@ == self@,
    {
        Claims {
            sub: self.sub,
            iss: self.iss,
            iat: self.iat,
            exp: self.exp,
            id: self.id,
            user_id: self.user_id,
            flag: self._a,
        }
    }

    fn of_claims(c: Claims) -> (r: AccessToken)
        ensures
            r@ == c@,
    {
        AccessToken {
            sub: c.sub,
            iss: c.iss,
            iat: c.iat,
            exp: c.exp,
            id: c.id,
            user_id: c.user_id,
            _a: c.flag,
        }
    }

    /// Serializes this claim set under `secret_key`.
    pub fn serialize(&self, secret_key: &str) -> (r: String)
        ensures
            r@ == jwt::jwt_of(self@, true, secret_key@),
            claims_wf(self@) ==> jwt::jwt_wf(self@, true, secret_key@),
    {
        let c = AccessToken {
            sub: self.sub.clone(),
            iss: self.iss.clone(),
            iat: self.iat,
            exp: self.exp,
            id: self.id.clone(),
            user_id: self.user_id.clone(),
            _a: self._a,
        }.to_claims();
        jwt::serialize_claims(&c, true, secret_key)
    }

    /// Verifies and reads an access token at time `now`.
    pub fn deserialize_at(
        access_token: &str,
        secret_key: &str,
        validate_exp: bool,
        now: i64,
    ) -> (r: Option<AccessToken>)
        ensures
            r matches Some(c) ==> claims_wf(c@) && jwt::signed_with(
                access_token@,
                c@,
                true,
                secret_key@,
            ) && (validate_exp ==> now < c@.exp),
            forall|cv: ClaimsV|
                jwt::jwt_wf(cv, true, secret_key@) && access_token@ == #[trigger] jwt::jwt_of(
                    cv,
                    true,
                    secret_key@,
                ) ==> ((r matches Some(c) ==> c@ == cv) && ((validate_exp ==> now < cv.exp)
                    ==> r is Some)),
    {
        match jwt::deserialize_claims(access_token, true, secret_key, validate_exp, now) {
            Some(c) => Some(AccessToken::of_claims(c)),
            None => None,
        }
    }

    /// Verifies and reads an access token against the clock.
    pub fn deserialize(access_token: &str, secret_key: &str, validate_exp: bool) -> (r: Option<
        AccessToken,
    >)
        ensures
            r matches Some(c) ==> claims_wf(c@) && jwt::signed_with(
                access_token@,
                c@,
                true,
                secret_key@,
            ),
            forall|cv: ClaimsV|
                jwt::jwt_wf(cv, true, secret_key@) && access_token@ == #[trigger] jwt::jwt_of(
                    cv,
                    true,
                    secret_key@,
                ) ==> (r matches Some(c) ==> c@ == cv),
    {
        let now = crypto::now_timestamp();
        AccessToken::deserialize_at(access_token, secret_key, validate_exp, now)
    }

    /// Reads the unverified payload of an access token.
    pub fn deserialize_payload(access_token: &str) -> (r: Option<AccessToken>)
        ensures
            r matches Some(c) ==> claims_wf(c@) && jwt::payload_at(
                access_token@,
                crate::b64::b64url_of(crate::claims::json_of(c@, true)),
            ),
            forall|cv: ClaimsV, key: Seq<char>|
                jwt::jwt_wf(cv, true, key) && access_token@ == #[trigger] jwt::jwt_of(
                    cv,
                    true,
                    key,
                ) ==> ((r matches Some(c) ==> c@ == cv) && r is Some),
    {
        match jwt::deserialize_payload_claims(access_token, true) {
            Some(c) => Some(AccessToken::of_claims(c)),
            None => None,
        }
    }
}

impl RefreshToken {
    /// The refresh claims for session `token` issued at `now`.
    pub fn issue(token: &Token, now: i64) -> (r: RefreshToken)
        requires
            now + REFRESH_TOKEN_EXP <= i64::MAX,
        ensures
            r@ == refresh_claims(token@, now as int),
    {
        RefreshToken {
            sub: "madome refresh token".to_owned(),
            iss: "madome.app".to_owned(),
            iat: now,
            exp: now + REFRESH_TOKEN_EXP,
            id: token.id.clone(),
            user_id: token.user_id.clone(),
            _r: true,
        }
    }

    fn to_claims(self) -> (r: Claims)
        ensures
            r@ == self@,
    {
        Claims {
            sub: self.sub,
            iss: self.iss,
            iat: self.iat,
            exp: self.exp,
            id: self.id,
            user_id: self.user_id,
            flag: self._r,
        }
    }

    fn of_claims(c: Claims) -> (r: RefreshToken)
        ensures
            r@ == c@,
    {
        RefreshToken {
            sub: c.sub,
            iss: c.iss,
            iat: c.iat,
            exp: c.exp,
            id: c.id,
            user_id: c.user_id,
            _r: c.flag,
        }
    }

    /// Serializes this claim set under `secret_key`.
    pub fn serialize(&self, secret_key: &str) -> (r: String)
        ensures
            r@ == jwt::jwt_of(self@, false, secret_key@),
            claims_wf(self@) ==> jwt::jwt_wf(self@, false, secret_key@),
    {
        let c = RefreshToken {
            sub: self.sub.clone(),
            iss: self.iss.clone(),
            iat: self.iat,
            exp: self.exp,
            id: self.id.clone(),
            user_id: self.user_id.clone(),
            _r: self._r,
        }.to_claims();
        jwt::serialize_claims(&c, false, secret_key)
    }

    /// Verifies and reads a refresh token at time `now`; the expiry is
    /// always checked.
    pub fn deserialize_at(refresh_token: &str, secret_key: &str, now: i64) -> (r: Option<
        RefreshToken,
    >)
        ensures
            r matches Some(c) ==> claims_wf(c@) && jwt::signed_with(
                refresh_token@,
                c@,
                false,
                secret_key@,
            ) && now < c@.exp,
            forall|cv: ClaimsV|
                jwt::jwt_wf(cv, false, secret_key@) && refresh_token@ == #[trigger] jwt::jwt_of(
                    cv,
                    false,
                    secret_key@,
                ) ==> ((r matches Some(c) ==> c@ == cv) && (now < cv.exp ==> r is Some)),
    {
        match jwt::deserialize_claims(refresh_token, false, secret_key, true, now) {
            Some(c) => Some(RefreshToken::of_claims(c)),
            None => None,
        }
    }

    /// Verifies and reads a refresh token against the clock.
    pub fn deserialize(refresh_token: &str, secret_key: &str) -> (r: Option<RefreshToken>)
        ensures
            r matches Some(c) ==> claims_wf(c@) && jwt::signed_with(
                refresh_token@,
                c@,
                false,
                secret_key@,
            ),
            forall|cv: ClaimsV|
                jwt::jwt_wf(cv, false, secret_key@) && refresh_token@ == #[trigger] jwt::jwt_of(
                    cv,
                    false,
                    secret_key@,
                ) ==> (r matches Some(c) ==> c@ == cv),
    {
        let now = crypto::now_timestamp();
        RefreshToken::deserialize_at(refresh_token, secret_key, now)
    }

    /// Reads the unverified payload of a refresh token.
    pub fn deserialize_payload(refresh_token: &str) -> (r: Option<RefreshToken>)
        ensures
            r matches Some(c) ==> claims_wf(c@) && jwt::payload_at(
                refresh_token@,
                crate::b64::b64url_of(crate::claims::json_of(c@, false)),
            ),
            forall|cv: ClaimsV, key: Seq<char>|
                jwt::jwt_wf(cv, false, key) && refresh_token@ == #[trigger] jwt::jwt_of(
                    cv,
                    false,
                    key,
                ) ==> ((r matches Some(c) ==> c@ == cv) && r is Some),
    {
        match jwt::deserialize_payload_claims(refresh_token, false) {
            Some(c) => Some(RefreshToken::of_claims(c)),
            None => None,
        }
    }
}

impl Token {
    /// A brand-new session for `user_id`, under a fresh random id.
    pub fn new(user_id: String) -> (r: Token)
        ensures
            r@.user_id == user_id@,
            r@.id.len() == 36,
            text::plain(r@.id),
    {
        Token { id: crypto::fresh_token_id(), user_id }
    }

    /// Serializes both tokens of this session, issued at `now`.
    pub fn serialize_at(&self, secret_key: &str, now: i64) -> (r: (String, String))
        requires
            token_wf(self@),
            now + REFRESH_TOKEN_EXP <= i64::MAX,
        ensures
            r.0@ == jwt::jwt_of(access_claims(self@, now as int), true, secret_key@),
            r.1@ == jwt::jwt_of(refresh_claims(self@, now as int), false, secret_key@),
            jwt::jwt_wf(access_claims(self@, now as int), true, secret_key@),
            jwt::jwt_wf(refresh_claims(self@, now as int), false, secret_key@),
    {
        proof {
            lemma_issue_claims_wf(self@, now as int);
        }
        let access = AccessToken::issue(self, now);
        let refresh = RefreshToken::issue(self, now);
        (access.serialize(secret_key), refresh.serialize(secret_key))
    }

    /// Serializes both tokens of this session against the clock. The
    /// access token then expires four hours from now, the refresh token
    /// seven days from now.
    pub fn serialize(&self, secret_key: &str) -> (r: Result<(String, String), Error>)
        requires
            token_wf(self@),
        ensures
            r matches Ok(p) ==> exists|now: int|
                p.0@ == jwt::jwt_of(#[trigger] access_claims(self@, now), true, secret_key@)
                    && p.1@ == jwt::jwt_of(refresh_claims(self@, now), false, secret_key@)
                    && jwt::jwt_wf(access_claims(self@, now), true, secret_key@) && jwt::jwt_wf(
                    refresh_claims(self@, now),
                    false,
                    secret_key@,
                ),
            r is Ok,
    {
        let now = crypto::now_timestamp();
        let now = if now > i64::MAX - REFRESH_TOKEN_EXP {
            i64::MAX - REFRESH_TOKEN_EXP
        } else {
            now
        };
        let pair = self.serialize_at(secret_key, now);
        Ok(pair)
    }
}

} // verus!
