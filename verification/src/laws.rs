//! The library's laws: what holds of every issuance, every rotation and
//! every authcode bucket, stated over the same specifications the
//! functions' own contracts use.

use vstd::prelude::*;

use crate::authcode::AuthcodeV;
use crate::authcode_repository::{
    bucket_add, bucket_pop, has_code, lemma_bucket_pop_at, lemma_bucket_pop_none, AcEntryV,
};
use crate::check_token_pair::{invalid_pair, spec_check_pair};
use crate::claims::ClaimsV;
use crate::create_token_pair::{created_core, ModelV as CreateModelV};
use crate::jwt;
use crate::refresh_token_pair::{rotated, to_create_model, ModelV as RotateModelV};
use crate::secret_key::SECRET_KEY_EXP;
use crate::secret_key_repository::{sk_get, sk_lookup, SkEntryV};
use crate::token::{access_claims, refresh_claims, TokenV, REFRESH_TOKEN_EXP};
use crate::user::UserInfoV;

verus! {

/// A freshly minted pair checks back as a pair of the very user it was
/// minted for, at any later time within the refresh token's life: the two
/// claim sets agree on session and user, the refresh token is unexpired,
/// and the session key is still readable.
pub proof fn lemma_create_then_check_token_pair(
    sk: Seq<SkEntryV>,
    now: int,
    uid: Seq<char>,
    m: CreateModelV,
    now2: int,
)
    requires
        created_core(sk, now, uid, m),
        now <= now2,
        now2 < now + REFRESH_TOKEN_EXP,
    ensures
        ({
            let tv = TokenV { id: m.token_id, user_id: uid };
            spec_check_pair(access_claims(tv, now), refresh_claims(tv, now), now2)
                == Result::<crate::check_token_pair::ModelV, crate::error::Error>::Ok(
                crate::check_token_pair::ModelV { user_id: uid, token_id: m.token_id },
            )
        }),
        ({
            let tv = TokenV { id: m.token_id, user_id: uid };
            exists|k: Seq<char>|
                #![trigger jwt::jwt_of(access_claims(tv, now), true, k)]
                m.access_token == jwt::jwt_of(access_claims(tv, now), true, k)
                    && m.refresh_token == jwt::jwt_of(refresh_claims(tv, now), false, k)
                    && jwt::jwt_wf(access_claims(tv, now), true, k) && jwt::jwt_wf(
                    refresh_claims(tv, now),
                    false,
                    k,
                ) && sk_lookup(sk, m.token_id, now2) == Some(k)
        }),
{
    let tv = TokenV { id: m.token_id, user_id: uid };
    let k = choose|k: Seq<char>|
        #![trigger jwt::jwt_of(access_claims(TokenV { id: m.token_id, user_id: uid }, now), true, k)]
        ({
            let tv = TokenV { id: m.token_id, user_id: uid };
            &&& crate::text::plain(m.token_id)
            &&& m.token_id.len() == 36
            &&& m.user_id == uid
            &&& sk_get(sk, m.token_id) == Some(
                SkEntryV { id: m.token_id, key: k, created_at: now },
            )
            &&& sk_lookup(sk, m.token_id, now) == Some(k)
            &&& m.access_token == jwt::jwt_of(access_claims(tv, now), true, k)
            &&& m.refresh_token == jwt::jwt_of(refresh_claims(tv, now), false, k)
            &&& jwt::jwt_wf(access_claims(tv, now), true, k)
            &&& jwt::jwt_wf(refresh_claims(tv, now), false, k)
        });
    assert(sk_lookup(sk, m.token_id, now2) == Some(k)) by {
        assert(now2 - now <= SECRET_KEY_EXP);
    }
    assert(now2 < refresh_claims(tv, now).exp);
}

/// Mixing an access token of one session with the refresh token of
/// another is always an invalid pair, however sound each token is on its
/// own. It takes the two session ids to differ — two independent draws of
/// the random id collide only with negligible probability, but a collision
/// is the one case this law leaves out.
pub proof fn lemma_mixed_pair_rejected(ca: ClaimsV, cr: ClaimsV, now: int)
    requires
        ca.id != cr.id,
        now < cr.exp,
    ensures
        spec_check_pair(ca, cr, now) == Result::<
            crate::check_token_pair::ModelV,
            crate::error::Error,
        >::Err(invalid_pair()),
{
}

/// What rotation leaves behind: the result is a full fresh issuance, and —
/// unless the fresh id collided with the old one — the old session's key
/// can never be read again, at any time.
pub proof fn lemma_rotation_revokes(
    at: Seq<char>,
    rt: Seq<char>,
    sk0: Seq<SkEntryV>,
    sk1: Seq<SkEntryV>,
    users: Seq<UserInfoV>,
    now: int,
    m: RotateModelV,
    n2: int,
)
    requires
        rotated(at, rt, sk0, sk1, users, now, m),
    ensures
        created_core(sk1, now, m.user_id, to_create_model(m)),
        exists|old_id: Seq<char>, old_uid: Seq<char>|
            #![trigger sk_get(sk0, old_id), crate::text::plain(old_uid)]
            crate::check_token_pair::spec_pair_ok(
                at,
                rt,
                sk0,
                users,
                now,
                crate::check_token_pair::ModelV { token_id: old_id, user_id: old_uid },
            ) && (m.token_id != old_id ==> sk_get(sk1, old_id) is None && sk_lookup(
                sk1,
                old_id,
                n2,
            ) is None),
{
    let (old_id, old_uid) = choose|old_id: Seq<char>, old_uid: Seq<char>|
        #![trigger sk_get(sk0, old_id), crate::text::plain(old_uid)]
        ({
            &&& crate::check_token_pair::spec_pair_ok(
                at,
                rt,
                sk0,
                users,
                now,
                crate::check_token_pair::ModelV { token_id: old_id, user_id: old_uid },
            )
            &&& m.user_id == old_uid
            &&& (m.token_id != old_id ==> sk_get(sk1, old_id) is None)
            &&& crate::create_token_pair::created_core(sk1, now, old_uid, to_create_model(m))
            &&& (forall|id2: Seq<char>|
                id2 != m.token_id && id2 != old_id ==> #[trigger] sk_get(sk1, id2) == sk_get(
                    sk0,
                    id2,
                ))
        });
    assert(m.token_id != old_id ==> sk_lookup(sk1, old_id, n2) is None);
}

/// A rotated pair immediately checks back as a valid pair of the same
/// user: rotation hands out working credentials even on the error path
/// that carries them inside a denied-permission answer.
pub proof fn lemma_rotated_pair_round_trip(
    at: Seq<char>,
    rt: Seq<char>,
    sk0: Seq<SkEntryV>,
    sk1: Seq<SkEntryV>,
    users: Seq<UserInfoV>,
    now: int,
    m: RotateModelV,
    now2: int,
)
    requires
        rotated(at, rt, sk0, sk1, users, now, m),
        now <= now2,
        now2 < now + REFRESH_TOKEN_EXP,
    ensures
        ({
            let tv = TokenV { id: m.token_id, user_id: m.user_id };
            spec_check_pair(access_claims(tv, now), refresh_claims(tv, now), now2)
                == Result::<crate::check_token_pair::ModelV, crate::error::Error>::Ok(
                crate::check_token_pair::ModelV { user_id: m.user_id, token_id: m.token_id },
            )
        }),
{
    lemma_rotation_revokes(at, rt, sk0, sk1, users, now, m, now2);
    lemma_create_then_check_token_pair(sk1, now, m.user_id, to_create_model(m), now2);
}

/// Six inserts for one email in quick succession — no expiry elapsing in
/// between — succeed exactly five times and are refused the sixth time.
pub proof fn lemma_authcode_cap(
    email: Seq<char>,
    c1: Seq<char>,
    c2: Seq<char>,
    c3: Seq<char>,
    c4: Seq<char>,
    c5: Seq<char>,
    c6: Seq<char>,
    t1: int,
    t2: int,
    t3: int,
    t4: int,
    t5: int,
    t6: int,
)
    requires
        t1 <= t2 <= t3 <= t4 <= t5 <= t6,
        t6 - t1 <= crate::authcode::MAX_AGE,
    ensures
        ({
            let e0 = Seq::<AcEntryV>::empty();
            let s1 = bucket_add(e0, AuthcodeV { user_email: email, code: c1 }, t1);
            let s2 = bucket_add(s1.0, AuthcodeV { user_email: email, code: c2 }, t2);
            let s3 = bucket_add(s2.0, AuthcodeV { user_email: email, code: c3 }, t3);
            let s4 = bucket_add(s3.0, AuthcodeV { user_email: email, code: c4 }, t4);
            let s5 = bucket_add(s4.0, AuthcodeV { user_email: email, code: c5 }, t5);
            let s6 = bucket_add(s5.0, AuthcodeV { user_email: email, code: c6 }, t6);
            s1.1 && s2.1 && s3.1 && s4.1 && s5.1 && !s6.1
        }),
{
    let e0 = Seq::<AcEntryV>::empty();
    let s1 = bucket_add(e0, AuthcodeV { user_email: email, code: c1 }, t1);
    let s2 = bucket_add(s1.0, AuthcodeV { user_email: email, code: c2 }, t2);
    let s3 = bucket_add(s2.0, AuthcodeV { user_email: email, code: c3 }, t3);
    let s4 = bucket_add(s3.0, AuthcodeV { user_email: email, code: c4 }, t4);
    let s5 = bucket_add(s4.0, AuthcodeV { user_email: email, code: c5 }, t5);
    assert(s5.0.len() == 5);
    assert(s5.0[0] == AcEntryV {
        authcode: AuthcodeV { user_email: email, code: c1 },
        created_at: t1,
    });
    assert(!crate::authcode_repository::entry_expired(s5.0[0], t6));
}

/// A second pop of the same `(email, code)` after a successful first pop
/// finds nothing: a code is consumed at most once. It takes the bucket to
/// hold exactly one entry with the code — two identical codes issued to
/// one email would be consumed one at a time instead.
pub proof fn lemma_pop_idempotent_negative(
    es: Seq<AcEntryV>,
    i: int,
    code: Seq<char>,
    now: int,
    now2: int,
)
    requires
        0 <= i < es.len(),
        es[i].authcode.code == code,
        forall|j: int| 0 <= j < es.len() && j != i ==> (#[trigger] es[j]).authcode.code != code,
    ensures
        bucket_pop(bucket_pop(es, code, now).0, code, now2).1 is None,
{
    lemma_bucket_pop_at(es, i, code, now);
    let es1 = es.remove(i);
    assert(!has_code(es1, code)) by {
        if has_code(es1, code) {
            let j = choose|j: int|
                0 <= j < es1.len() && (#[trigger] es1[j]).authcode.code == code;
            let j2: int = if j < i {
                j
            } else {
                j + 1
            };
            assert(es1[j] == es[j2]);
        }
    }
    lemma_bucket_pop_none(es1, code, now2);
}

} // verus!
