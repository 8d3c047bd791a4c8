use madome_auth::claims::{claims_text, parse_claims, Claims};
use madome_auth::secret_key::SecretKey;
use madome_auth::text::{int_to_dec, str_eq};
use madome_auth::token::{AccessToken, RefreshToken, Token};

fn sample_claims(flag: bool) -> Claims {
    Claims {
        sub: "madome access token".to_string(),
        iss: "madome.app".to_string(),
        iat: 1700000000,
        exp: 1700014400,
        id: "96e220fe-cb9b-40f5-9f88-0c023a349b59".to_string(),
        user_id: "bf4cf9fe-961f-4aba-a11b-17cf43c7ed39".to_string(),
        flag,
    }
}

#[test]
fn decimal_text_is_exact() {
    assert_eq!(int_to_dec(0), "0");
    assert_eq!(int_to_dec(14400), "14400");
    assert_eq!(int_to_dec(-123), "-123");
    assert_eq!(int_to_dec(i64::MAX), "9223372036854775807");
    assert_eq!(int_to_dec(i64::MIN), "-9223372036854775808");
}

#[test]
fn str_eq_compares_by_characters() {
    assert!(str_eq("abc", "abc"));
    assert!(!str_eq("abc", "abd"));
    assert!(!str_eq("abc", "abcd"));
    assert!(str_eq("", ""));
}

#[test]
fn payload_text_has_the_canonical_shape() {
    let c = sample_claims(true);
    let t = claims_text(&c, true);
    assert_eq!(
        t,
        "{\"sub\":\"madome access token\",\"iss\":\"madome.app\",\"iat\":1700000000,\
         \"exp\":1700014400,\"id\":\"96e220fe-cb9b-40f5-9f88-0c023a349b59\",\
         \"user_id\":\"bf4cf9fe-961f-4aba-a11b-17cf43c7ed39\",\"_a\":true}"
    );
}

#[test]
fn parse_accepts_exactly_the_emitted_text() {
    let c = sample_claims(true);
    let t = claims_text(&c, true);
    let parsed = parse_claims(&t, true).expect("canonical text parses");
    assert_eq!(parsed.sub, c.sub);
    assert_eq!(parsed.iat, c.iat);
    assert_eq!(parsed.exp, c.exp);
    assert_eq!(parsed.id, c.id);
    assert_eq!(parsed.user_id, c.user_id);
    assert!(parsed.flag);

    // any deviation from the canonical shape is refused
    let mut spaced = t.clone();
    spaced.insert(1, ' ');
    assert!(parse_claims(&spaced, true).is_none());
    assert!(parse_claims(&t, false).is_none());
    assert!(parse_claims("", true).is_none());
}

#[test]
fn serialized_token_has_three_segments_and_a_tag() {
    let c = sample_claims(true);
    let at = AccessToken {
        sub: c.sub.clone(),
        iss: c.iss.clone(),
        iat: c.iat,
        exp: c.exp,
        id: c.id.clone(),
        user_id: c.user_id.clone(),
        _a: true,
    };
    let t = at.serialize("secret");
    let parts: Vec<&str> = t.split('.').collect();
    assert_eq!(parts.len(), 3);
    // the signature is the base64 text of a 32-byte HMAC tag
    assert_eq!(parts[2].len(), 43);
    // the payload segment is encoded, not the raw JSON
    assert_ne!(parts[1], claims_text(&c, true));
}

#[test]
fn token_round_trips_under_its_key() {
    let now = 1700000000i64;
    let token = Token::new("bf4cf9fe-961f-4aba-a11b-17cf43c7ed39".to_string());
    let (a, r) = token.serialize_at("roundtrip-key", now);

    let ap = AccessToken::deserialize_at(&a, "roundtrip-key", true, now).expect("access verifies");
    assert_eq!(ap.id, token.id);
    assert_eq!(ap.user_id, token.user_id);
    assert_eq!(ap.exp, now + madome_auth::token::ACCESS_TOKEN_EXP);

    let rp = RefreshToken::deserialize_at(&r, "roundtrip-key", now).expect("refresh verifies");
    assert_eq!(rp.id, token.id);
    assert_eq!(rp.exp, now + madome_auth::token::REFRESH_TOKEN_EXP);

    // the wrong key does not verify
    assert!(AccessToken::deserialize_at(&a, "another-key", true, now).is_none());
    // an expired access token is refused when the expiry is validated
    let late = now + madome_auth::token::ACCESS_TOKEN_EXP;
    assert!(AccessToken::deserialize_at(&a, "roundtrip-key", true, late).is_none());
    assert!(AccessToken::deserialize_at(&a, "roundtrip-key", false, late).is_some());
}

#[test]
fn unsigned_payload_reads_the_claims_without_the_key() {
    let now = 1700000000i64;
    let token = Token::new("7a129706-4458-493c-a0b9-11f5a57fffa7".to_string());
    let (a, r) = token.serialize_at("hidden-key", now);
    let ap = AccessToken::deserialize_payload(&a).expect("payload parses");
    assert_eq!(ap.id, token.id);
    let rp = RefreshToken::deserialize_payload(&r).expect("payload parses");
    assert_eq!(rp.id, token.id);
    // an access payload is not a refresh payload
    assert!(RefreshToken::deserialize_payload(&a).is_none());
    assert!(AccessToken::deserialize_payload(&r).is_none());
}

#[test]
fn fresh_ids_and_secrets_have_their_shapes() {
    let t = Token::new("u".to_string());
    assert_eq!(t.id.len(), 36);
    let t2 = Token::new("u".to_string());
    assert_ne!(t.id, t2.id);
    let k = SecretKey::new();
    assert_eq!(k.0.len(), 86);
    assert_ne!(k.0, SecretKey::new().0);
}

#[test]
fn build_flags_are_fixed() {
    assert!(madome_auth::release());
    assert!(!madome_auth::debug());
    assert!(!madome_auth::test());
}
