//! Serialized tokens: `base64url(header) . base64url(payload) . signature`,
//! signed with HMAC-SHA256 under a per-session secret key.
//!
//! Serialization is exact: the text of a token is a function of the claims
//! and the key. Deserialization is strict the same way: a parsed claim set
//! pins the token's payload segment down, and a token that this module
//! wrote is always read back as the claims it was written from.

use vstd::prelude::*;

use crate::b64;
use crate::b64::b64url_of;
use crate::claims;
use crate::claims::{claims_wf, json_of, Claims, ClaimsV};
use crate::crypto;
use crate::crypto::hs256_of;
use crate::text;

verus! {

/// The fixed header text of every token this library writes.
pub open spec fn header_text() -> Seq<char> {
    ("{\"typ\":\"JWT\",\"alg\":\"HS256\"}")@
}

/// The part of a token that is signed: encoded header, a dot, encoded
/// payload.
pub open spec fn signing_input(c: ClaimsV, access: bool) -> Seq<char> {
    b64url_of(header_text()) + seq!['.'] + b64url_of(json_of(c, access))
}

/// The full serialized token for a claim set under a key.
pub open spec fn jwt_of(c: ClaimsV, access: bool, key: Seq<char>) -> Seq<char> {
    signing_input(c, access) + seq!['.'] + hs256_of(signing_input(c, access), key)
}

/// What serialization guarantees beyond the token text itself: the claims
/// are well formed and the encoded segments hold no dot, so the token
/// splits back into its three segments unambiguously.
pub open spec fn jwt_wf(c: ClaimsV, access: bool, key: Seq<char>) -> bool {
    &&& claims_wf(c)
    &&& text::dotless(b64url_of(header_text()))
    &&& text::dotless(b64url_of(json_of(c, access)))
    &&& text::dotless(hs256_of(signing_input(c, access), key))
}

/// The token `t` carries the claims `c` signed under `key`: it splits at
/// its first two dots into the fixed header, the payload of `c`, and
/// exactly the HMAC text of its first two segments.
pub open spec fn signed_with(t: Seq<char>, c: ClaimsV, access: bool, key: Seq<char>) -> bool {
    exists|d1: int, d2: int|
        0 <= d1 < d2 < t.len() && t[d1] == '.' && t[d2] == '.' && (forall|j: int|
            0 <= j < d1 ==> t[j] != '.') && (forall|j: int| d1 < j < d2 ==> t[j] != '.')
            && t.subrange(0, d1) == b64url_of(header_text()) && t.subrange(d1 + 1, d2)
            == b64url_of(#[trigger] json_of(c, access)) && t.subrange(d2 + 1, t.len() as int)
            == hs256_of(t.subrange(0, d2), key)
}

/// Serializes a claim set under a key.
pub fn serialize_claims(c: &Claims, access: bool, secret_key: &str) -> (r: String)
    ensures
        r@ == jwt_of(c@, access, secret_key@),
        text::plain(c@.sub) && text::plain(c@.iss) && text::plain(c@.id) && text::plain(
            c@.user_id,
        ) ==> jwt_wf(c@, access, secret_key@),
{
    let payload = claims::claims_text(c, access);
    let h64 = b64::b64url_encode("{\"typ\":\"JWT\",\"alg\":\"HS256\"}");
    let p64 = b64::b64url_encode(payload.as_str());
    let mut msg = h64;
    text::push_char(&mut msg, '.');
    msg.append(p64.as_str());
    proof {
        assert(msg@ =~= signing_input(c@, access));
    }
    let sig = crypto::hs256_sign(msg.as_str(), secret_key);
    let mut out = msg;
    text::push_char(&mut out, '.');
    out.append(sig.as_str());
    proof {
        assert(out@ =~= jwt_of(c@, access, secret_key@));
    }
    out
}

/// Finds the first `'.'` at or after `from`.
fn find_dot(s: &str, from: usize) -> (r: Option<usize>)
    requires
        from <= s@.len(),
    ensures
        r matches Some(i) ==> from <= i < s@.len() && s@[i as int] == '.' && (forall|j: int|
            from <= j < i ==> s@[j] != '.'),
        r is None ==> forall|j: int| from <= j < s@.len() ==> s@[j] != '.',
{
    let len = s.unicode_len();
    let mut i: usize = from;
    while i < len
        invariant
            from <= i <= len,
            len == s@.len(),
            forall|j: int| from <= j < i ==> s@[j] != '.',
        decreases len - i,
    {
        if s.get_char(i) == '.' {
            return Some(i);
        }
        i += 1;
    }
    None
}

/// Where the separators of a well-formed token stand: after the header
/// segment and after the payload segment.
proof fn lemma_jwt_dots(t: Seq<char>, c: ClaimsV, access: bool, key: Seq<char>)
    requires
        jwt_wf(c, access, key),
        t == jwt_of(c, access, key),
    ensures
        ({
            let h = b64url_of(header_text());
            let p = b64url_of(json_of(c, access));
            let g = hs256_of(signing_input(c, access), key);
            let d1 = h.len() as int;
            let d2 = d1 + 1 + p.len();
            &&& t.len() == d2 + 1 + g.len()
            &&& 0 <= d1 < d2 < t.len()
            &&& t[d1] == '.'
            &&& t[d2] == '.'
            &&& (forall|j: int| 0 <= j < d1 ==> t[j] != '.')
            &&& (forall|j: int| d1 < j < d2 ==> t[j] != '.')
            &&& t.subrange(0, d1) == h
            &&& t.subrange(d1 + 1, d2) == p
            &&& t.subrange(d2 + 1, t.len() as int) == g
            &&& t.subrange(0, d2) == signing_input(c, access)
            &&& signed_with(t, c, access, key)
        }),
{
    let h = b64url_of(header_text());
    let p = b64url_of(json_of(c, access));
    let g = hs256_of(signing_input(c, access), key);
    let d1 = h.len() as int;
    let d2 = d1 + 1 + p.len();
    assert(t.subrange(0, d1) =~= h);
    assert(t.subrange(d1 + 1, d2) =~= p);
    assert(t.subrange(d2 + 1, t.len() as int) =~= g);
    assert(t.subrange(0, d2) =~= signing_input(c, access));
    assert(t[d1] == '.');
    assert(t[d2] == '.');
    assert forall|j: int| 0 <= j < d1 implies t[j] != '.' by {
        assert(t[j] == h[j]);
    }
    assert forall|j: int| d1 < j < d2 implies t[j] != '.' by {
        assert(t[j] == p[j - d1 - 1]);
    }
}

/// Reads a token back: splits it at its dots, checks the header, verifies
/// the signature, decodes and parses the payload, and — when asked —
/// rejects a claim set whose expiry is not after `now`.
#[verifier::rlimit(100)]
pub fn deserialize_claims(
    token: &str,
    access: bool,
    secret_key: &str,
    validate_exp: bool,
    now: i64,
) -> (r: Option<Claims>)
    ensures
        r matches Some(c) ==> claims_wf(c@) && signed_with(token@, c@, access, secret_key@) && (
        validate_exp ==> now < c@.exp),
        forall|cv: ClaimsV|
            jwt_wf(cv, access, secret_key@) && token@ == #[trigger] jwt_of(
                cv,
                access,
                secret_key@,
            ) ==> ((r matches Some(c) ==> c@ == cv) && ((validate_exp ==> now < cv.exp)
                ==> r is Some)),
{
    let ghost hyp = exists|cv: ClaimsV|
        jwt_wf(cv, access, secret_key@) && token@ == #[trigger] jwt_of(cv, access, secret_key@);
    let ghost hcv: ClaimsV = if hyp {
        choose|cv: ClaimsV|
            jwt_wf(cv, access, secret_key@) && token@ == #[trigger] jwt_of(cv, access, secret_key@)
    } else {
        arbitrary()
    };
    proof {
        if hyp {
            lemma_jwt_dots(token@, hcv, access, secret_key@);
        }
    }
    let ghost hd1 = b64url_of(header_text()).len() as int;
    let ghost hd2 = hd1 + 1 + b64url_of(json_of(hcv, access)).len();
    let len = token.unicode_len();
    let d1 = match find_dot(token, 0) {
        Some(i) => i,
        None => {
            proof {
                if hyp {
                    assert(token@[hd1] == '.');
                    assert(false);
                }
            }
            return None;
        },
    };
    proof {
        if hyp {
            assert(d1 == hd1) by {
                if d1 < hd1 {
                    assert(token@[d1 as int] != '.');
                }
                if d1 > hd1 {
                    assert(token@[hd1] != '.');
                }
            }
        }
    }
    let d2 = match find_dot(token, d1 + 1) {
        Some(i) => i,
        None => {
            proof {
                if hyp {
                    assert(token@[hd2] == '.');
                    assert(false);
                }
            }
            return None;
        },
    };
    proof {
        if hyp {
            assert(d2 == hd2) by {
                if d2 < hd2 {
                    assert(token@[d2 as int] != '.');
                }
                if d2 > hd2 {
                    assert(token@[hd2] != '.');
                }
            }
        }
    }
    // the fixed header must be exactly the first segment
    let h64 = b64::b64url_encode("{\"typ\":\"JWT\",\"alg\":\"HS256\"}");
    let seg0 = token.substring_char(0, d1);
    if !text::str_eq(seg0, h64.as_str()) {
        proof {
            if hyp {
                assert(false);
            }
        }
        return None;
    }
    // the signature must be the HMAC text of the first two segments
    let msg = token.substring_char(0, d2);
    let sig = token.substring_char(d2 + 1, len);
    if !crypto::hs256_verify(sig, msg, secret_key) {
        proof {
            if hyp {
                assert(token@.subrange(d2 + 1, token@.len() as int) == hs256_of(
                    token@.subrange(0, d2 as int),
                    secret_key@,
                ));
                assert(false);
            }
        }
        return None;
    }
    let seg1 = token.substring_char(d1 + 1, d2);
    let payload = match b64::b64url_decode(seg1) {
        Some(p) => p,
        None => {
            proof {
                if hyp {
                    assert(seg1@ == b64url_of(json_of(hcv, access)));
                    assert(false);
                }
            }
            return None;
        },
    };
    proof {
        if hyp {
            assert(seg1@ == b64url_of(json_of(hcv, access)));
            assert(payload@ == json_of(hcv, access));
        }
    }
    let c = match claims::parse_claims(payload.as_str(), access) {
        Some(c) => c,
        None => {
            proof {
                if hyp {
                    assert(claims::wf_payload(payload@, access));
                    assert(false);
                }
            }
            return None;
        },
    };
    proof {
        if hyp {
            claims::lemma_json_injective(c@, hcv, access);
            assert(c@ == hcv);
        }
    }
    if validate_exp && now >= c.exp {
        proof {
            if hyp {
                assert(c@ == hcv);
            }
            assert(forall|cv: ClaimsV|
                jwt_wf(cv, access, secret_key@) && token@ == #[trigger] jwt_of(
                    cv,
                    access,
                    secret_key@,
                ) ==> cv == hcv) by {
                assert forall|cv: ClaimsV|
                    jwt_wf(cv, access, secret_key@) && token@ == #[trigger] jwt_of(
                        cv,
                        access,
                        secret_key@,
                    ) implies cv == hcv by {
                    lemma_jwt_dots(token@, cv, access, secret_key@);
                    assert(token@.subrange(d1 + 1, d2 as int) == b64url_of(json_of(cv, access)));
                    assert(payload@ == json_of(cv, access));
                    claims::lemma_json_injective(cv, hcv, access);
                }
            }
        }
        return None;
    }
    proof {
        // the token really is signed: its segments are pinned by the scan
        assert(signed_with(token@, c@, access, secret_key@)) by {
            let t = token@;
            assert(t.subrange(0, d1 as int) == b64url_of(header_text()));
            assert(t.subrange(d2 + 1, t.len() as int) == hs256_of(
                t.subrange(0, d2 as int),
                secret_key@,
            ));
            assert(claims::wf_payload(payload@, access)) by {
                assert(payload@ == json_of(c@, access));
            }
            assert(t.subrange(d1 + 1, d2 as int) == b64url_of(json_of(c@, access)));
        }
        assert(forall|cv: ClaimsV|
            jwt_wf(cv, access, secret_key@) && token@ == #[trigger] jwt_of(cv, access, secret_key@)
                ==> cv == c@) by {
            assert forall|cv: ClaimsV|
                jwt_wf(cv, access, secret_key@) && token@ == #[trigger] jwt_of(
                    cv,
                    access,
                    secret_key@,
                ) implies cv == c@ by {
                lemma_jwt_dots(token@, cv, access, secret_key@);
                assert(token@.subrange(d1 + 1, d2 as int) == b64url_of(json_of(cv, access)));
                assert(payload@ == json_of(cv, access));
                claims::lemma_json_injective(cv, c@, access);
            }
        }
    }
    Some(c)
}

/// The text between the first dot of `t` and the next dot (or the end) is
/// exactly `seg`.
pub open spec fn payload_at(t: Seq<char>, seg: Seq<char>) -> bool {
    exists|d1: int, e: int|
        #![trigger t.subrange(d1 + 1, e)]
        0 <= d1 < e <= t.len() && t[d1] == '.' && (forall|j: int| 0 <= j < d1 ==> t[j] != '.') && (
        forall|j: int| d1 < j < e ==> t[j] != '.') && (e == t.len() || t[e] == '.') && seg
            == t.subrange(d1 + 1, e)
}

/// Reads only the payload segment of a token, without any signature check:
/// the segment between the first dot and the next dot (or the end). Only
/// the session id read this way may be trusted, and only to pick which
/// secret key to fetch; every other claim must come from a verified read.
pub fn deserialize_payload_claims(token: &str, access: bool) -> (r: Option<Claims>)
    ensures
        r matches Some(c) ==> claims_wf(c@) && payload_at(
            token@,
            b64url_of(json_of(c@, access)),
        ),
        forall|cv: ClaimsV, key: Seq<char>|
            jwt_wf(cv, access, key) && token@ == #[trigger] jwt_of(cv, access, key) ==> ((
            r matches Some(c) ==> c@ == cv) && r is Some),
{
    let ghost hyp = exists|cv: ClaimsV, key: Seq<char>|
        jwt_wf(cv, access, key) && token@ == #[trigger] jwt_of(cv, access, key);
    let ghost (hcv, hkey): (ClaimsV, Seq<char>) = if hyp {
        choose|cv: ClaimsV, key: Seq<char>|
            jwt_wf(cv, access, key) && token@ == #[trigger] jwt_of(cv, access, key)
    } else {
        arbitrary()
    };
    proof {
        if hyp {
            lemma_jwt_dots(token@, hcv, access, hkey);
        }
    }
    let ghost hd1 = b64url_of(header_text()).len() as int;
    let ghost hd2 = hd1 + 1 + b64url_of(json_of(hcv, access)).len();
    let len = token.unicode_len();
    let d1 = match find_dot(token, 0) {
        Some(i) => i,
        None => {
            proof {
                if hyp {
                    assert(token@[hd1] == '.');
                    assert(false);
                }
            }
            return None;
        },
    };
    proof {
        if hyp {
            assert(d1 == hd1) by {
                if d1 < hd1 {
                    assert(token@[d1 as int] != '.');
                }
                if d1 > hd1 {
                    assert(token@[hd1] != '.');
                }
            }
        }
    }
    let end = match find_dot(token, d1 + 1) {
        Some(i) => i,
        None => len,
    };
    proof {
        if hyp {
            assert(end == hd2) by {
                if end < hd2 {
                    assert(token@[end as int] != '.');
                }
                if end > hd2 {
                    assert(token@[hd2] != '.');
                }
            }
        }
    }
    let seg1 = token.substring_char(d1 + 1, end);
    let payload = match b64::b64url_decode(seg1) {
        Some(p) => p,
        None => {
            proof {
                if hyp {
                    assert(seg1@ == b64url_of(json_of(hcv, access)));
                    assert(false);
                }
            }
            return None;
        },
    };
    proof {
        if hyp {
            assert(seg1@ == b64url_of(json_of(hcv, access)));
            assert(payload@ == json_of(hcv, access));
        }
    }
    let c = match claims::parse_claims(payload.as_str(), access) {
        Some(c) => c,
        None => {
            proof {
                if hyp {
                    assert(claims::wf_payload(payload@, access));
                    assert(false);
                }
            }
            return None;
        },
    };
    proof {
        assert(payload_at(token@, b64url_of(json_of(c@, access)))) by {
            assert(token@.subrange(d1 + 1, end as int) == seg1@);
            assert(seg1@ == b64url_of(payload@));
            assert(payload@ == json_of(c@, access));
            let dd = d1 as int;
            let ee = end as int;
            assert(0 <= dd < ee <= token@.len() && token@[dd] == '.' && (forall|j: int|
                0 <= j < dd ==> token@[j] != '.') && (forall|j: int|
                dd < j < ee ==> token@[j] != '.') && (ee == token@.len() || token@[ee] == '.')
                && b64url_of(json_of(c@, access)) == token@.subrange(dd + 1, ee));
        }
        assert(forall|cv: ClaimsV, key: Seq<char>|
            jwt_wf(cv, access, key) && token@ == #[trigger] jwt_of(cv, access, key) ==> cv == c@)
            by {
            assert forall|cv: ClaimsV, key: Seq<char>|
                jwt_wf(cv, access, key) && token@ == #[trigger] jwt_of(
                    cv,
                    access,
                    key,
                ) implies cv == c@ by {
                lemma_jwt_dots(token@, cv, access, key);
                assert(token@.subrange(d1 + 1, end as int) == b64url_of(json_of(cv, access)));
                assert(payload@ == json_of(cv, access));
                claims::lemma_json_injective(cv, c@, access);
            }
        }
    }
    Some(c)
}

} // verus!
