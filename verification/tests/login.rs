use meetinizer::login::{
    is_blank, login_request_is_valid, login_url, meeting_cookie_paths, new_login, new_login_at, Login, LoginError,
    LoginStore,
};
use meetinizer::structs::Timestamp;
use meetinizer::url::uuid_to_text;

fn at(secs: i64) -> Timestamp {
    Timestamp { secs, nanos: 0 }
}

fn login(meeting: &str, email: &str, secret: &str, until: i64) -> Login {
    Login { meeting: meeting.to_string(), email: email.to_string(), secret: secret.to_string(), valid_until: at(until) }
}

#[test]
fn attempt_succeeds_before_the_deadline_and_only_once() {
    let mut store = LoginStore::new();
    store.register(login("m", "a@x", "s1", 100));
    store.register(login("m", "b@x", "s2", 100));
    assert!(store.attempt_at("m", "a@x", "s1", at(50)).is_ok());
    assert_eq!(store.len(), 1);
    assert!(matches!(store.attempt_at("m", "a@x", "s1", at(50)), Err(LoginError::NoMatch)));
    assert_eq!(store.len(), 1);
}

#[test]
fn attempt_after_the_deadline_is_refused_and_consumes_the_link() {
    let mut store = LoginStore::new();
    store.register(login("m", "a@x", "s1", 100));
    assert!(matches!(store.attempt_at("m", "a@x", "s1", at(100)), Err(LoginError::Expired)));
    assert_eq!(store.len(), 0);
}

#[test]
fn attempt_decides_by_the_first_match_and_removes_all_matches() {
    let mut store = LoginStore::new();
    store.register(login("m", "a@x", "s", 10));
    store.register(login("other", "a@x", "s", 10));
    store.register(login("m", "a@x", "s", 1000));
    assert!(matches!(store.attempt_at("m", "a@x", "s", at(500)), Err(LoginError::Expired)));
    assert_eq!(store.len(), 1);
    assert!(store.attempt_at("other", "a@x", "s", at(5)).is_ok());
}

#[test]
fn wrong_secret_matches_nothing() {
    let mut store = LoginStore::new();
    store.register(login("m", "a@x", "s1", 100));
    assert!(matches!(store.attempt_at("m", "a@x", "s2", at(1)), Err(LoginError::NoMatch)));
    assert!(matches!(store.attempt_at("n", "a@x", "s1", at(1)), Err(LoginError::NoMatch)));
    assert_eq!(store.len(), 1);
}

#[test]
fn new_login_sets_deadline_and_fresh_secret() {
    let l = match new_login_at("m", "a@x", 900, Timestamp { secs: 1000, nanos: 7 }) {
        Ok(l) => l,
        Err(_) => panic!("deadline fits"),
    };
    assert_eq!(l.meeting, "m");
    assert_eq!(l.email, "a@x");
    assert_eq!(l.valid_until, Timestamp { secs: 1900, nanos: 7 });
    assert_eq!(l.secret.len(), 36);
    assert!(uuid::Uuid::parse_str(&l.secret).is_ok());
    assert!(matches!(new_login_at("m", "a@x", i64::MAX, at(1)), Err(LoginError::DeadlineOutOfRange)));
    let now = match new_login("m", "a@x", 900) {
        Ok(l) => l,
        Err(_) => panic!("deadline fits"),
    };
    let expected = chrono::Utc::now().timestamp() + 900;
    assert!((now.valid_until.secs - expected).abs() <= 5);
    assert_ne!(now.secret, l.secret);
}

#[test]
fn login_url_encodes_each_part() {
    let l = login("team meeting", "a+b@x.se", "abc-123", 0);
    assert_eq!(
        login_url("https://meet.example/", &l),
        "https://meet.example/api/meeting/team%20meeting/login/a%2Bb%40x.se/abc-123"
    );
}

#[test]
fn login_url_encodes_like_urlencoding() {
    for part in ["plain", "a b", "ÅÄÖ/?&=", "~-._"] {
        let l = login(part, part, part, 0);
        let e = urlencoding::encode(part).into_owned();
        assert_eq!(login_url("h/", &l), format!("h/api/meeting/{e}/login/{e}/{e}"));
    }
    let l = login("ä ", "x", "y", 0);
    assert_eq!(login_url("", &l), "api/meeting/%C3%A4%20/login/x/y");
}

#[test]
fn cookie_paths_encode_in_lower_case() {
    let p = meeting_cookie_paths("hello world&foo=bar");
    assert_eq!(p.meeting, "hello%20world%26foo%3dbar");
    assert_eq!(p.path, "/api/meeting/hello%20world%26foo%3dbar");
    assert_eq!(p.redirect, "/meet/hello%20world%26foo%3dbar");
    let p = meeting_cookie_paths("it's(ok)!*~");
    assert_eq!(p.path, "/api/meeting/it's(ok)!*~");
}

#[test]
fn cookie_paths_encode_the_meeting() {
    let p = meeting_cookie_paths("a b");
    assert_eq!(p.path, "/api/meeting/a%20b");
    assert_eq!(p.redirect, "/meet/a%20b");
}

#[test]
fn uuid_text_matches_the_uuid_crate() {
    for u in [0u128, 1, u128::MAX, 0x497eb28f_2f5a_4668_8275_22904646bfe5] {
        assert_eq!(uuid_to_text(u), uuid::Uuid::from_u128(u).to_string());
    }
    assert_eq!(uuid_to_text(0x497eb28f_2f5a_4668_8275_22904646bfe5), "497eb28f-2f5a-4668-8275-22904646bfe5");
}

#[test]
fn blank_requests_are_refused() {
    assert!(is_blank(""));
    assert!(is_blank(" \t\n\u{3000}"));
    assert!(!is_blank(" x "));
    assert!(login_request_is_valid("meeting", "a@x"));
    assert!(!login_request_is_valid("  ", "a@x"));
    assert!(!login_request_is_valid("meeting", ""));
}

#[test]
fn white_space_is_the_unicode_property() {
    for n in 0u32..=0x10FFFF {
        if let Some(c) = char::from_u32(n) {
            assert_eq!(is_blank(&c.to_string()), c.is_whitespace(), "U+{n:04X}");
        }
    }
    assert!(!is_blank("\u{200B}"));
    assert!(is_blank("\u{85}\u{a0}\u{1680}\u{2000}\u{200a}\u{2028}\u{2029}\u{202f}\u{205f}"));
}

#[test]
fn new_login_without_validity_always_succeeds() {
    assert!(new_login("m", "a@x", 0).is_ok());
    assert!(matches!(new_login("m", "a@x", i64::MAX), Err(LoginError::DeadlineOutOfRange)));
}
