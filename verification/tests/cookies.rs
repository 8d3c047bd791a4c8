use madome_auth::http::{fmt, Cookie, SetCookie, SetCookieOptions};
use madome_auth::msg::Wrap;

#[test]
fn cookie_parse_reads_keys_and_values() {
    let mut cookie = Cookie::parse("madome_access_token=avchdef; madome_refresh_token=qwehkdfsjd");
    assert_eq!(cookie.get("madome_access_token"), Some("avchdef"));
    assert_eq!(cookie.get("madome_refresh_token"), Some("qwehkdfsjd"));
    assert_eq!(cookie.get("missing"), None);

    let taken = cookie.take("madome_access_token");
    assert_eq!(taken.as_deref(), Some("avchdef"));
    assert_eq!(cookie.get("madome_access_token"), None);
    assert_eq!(cookie.get("madome_refresh_token"), Some("qwehkdfsjd"));
}

#[test]
fn cookie_parse_trims_keys_and_keeps_values() {
    let cookie = Cookie::parse("  a =1;b= 2 ;c=");
    assert_eq!(cookie.get("a"), Some("1"));
    assert_eq!(cookie.get("b"), Some(" 2 "));
    assert_eq!(cookie.get("c"), Some(""));
}

#[test]
fn set_cookie_writes_the_header_value() {
    let options = SetCookieOptions::new()
        .domain("madome.app".to_string())
        .http_only(true)
        .secure(true)
        .max_age(604800);
    let line = fmt("madome_access_token", "tok", &options);
    assert_eq!(line, "madome_access_token=tok; Domain=madome.app; Max-Age=604800; HttpOnly; Secure");

    let bare = fmt("k", "v", &SetCookieOptions::new());
    assert_eq!(bare, "k=v");
}

#[test]
fn set_cookie_replaces_and_removes() {
    let set = SetCookie::new()
        .set("a".to_string(), "1".to_string(), SetCookieOptions::new())
        .set("a".to_string(), "2".to_string(), SetCookieOptions::new())
        .set("b".to_string(), "3".to_string(), SetCookieOptions::new());
    assert_eq!(set.texts().len(), 2);
    let set = set.remove("a".to_string());
    let texts = set.texts();
    assert_eq!(texts.len(), 1);
    assert_eq!(texts[0], "b=3");
}

#[test]
fn wrap_hands_its_payload_back() {
    let w = Wrap(7u8);
    assert_eq!(w.inner(), 7u8);
}

#[test]
fn cookie_parse_later_entry_wins_and_bare_names_are_empty() {
    let cookie = Cookie::parse("a=1;a=2;flag");
    assert_eq!(cookie.get("a"), Some("2"));
    assert_eq!(cookie.get("flag"), Some(""));
}

#[test]
fn cookie_value_keeps_equals_signs() {
    let cookie = Cookie::parse("t=abc=def");
    assert_eq!(cookie.get("t"), Some("abc=def"));
}
