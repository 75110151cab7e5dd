use meetinizer::admin::{argon_hashy, generate_admin_hash, is_correct_admin_password, AdminHashError, AdminPasswordError};
use meetinizer::claims::{AdminClaims, AdmissionError, ClaimsError, MeetingEmailClaims, TOKEN_LEEWAY_SECS, TOKEN_LIFETIME_SECS};
use meetinizer::config::{
    get_admin_hash, get_bind, get_host, get_jwt_secret, get_jwt_valid_seconds, get_mail_from, get_mail_password,
    get_mail_port, get_mail_seconds, get_mail_server, get_mail_user,
};
use meetinizer::login::LoginStore;
use meetinizer::login::Login;
use meetinizer::login::LoginError;
use meetinizer::structs::Timestamp;

fn settings(pairs: &[(&str, &str)]) -> config::Config {
    let mut b = config::Config::builder();
    for (k, v) in pairs {
        b = b.set_override(*k, *v).unwrap();
    }
    b.build().unwrap()
}

fn decode_claims(token: &str, secret: &str) -> serde_json::Value {
    let data = jsonwebtoken::decode::<serde_json::Value>(
        token,
        &jsonwebtoken::DecodingKey::from_secret(secret.as_bytes()),
        &jsonwebtoken::Validation::new(jsonwebtoken::Algorithm::HS256),
    )
    .unwrap();
    data.claims
}

#[test]
fn encode_decode_claims() {
    let original_claim = MeetingEmailClaims::new("random_meeting", "some_individual");
    let jwt = match original_claim.to_jwt("secret123") {
        Ok(t) => t,
        Err(_) => panic!("signing failed"),
    };
    let parsed_claim = match MeetingEmailClaims::from_token(jwt.as_str(), "secret123") {
        Ok(c) => c,
        Err(e) => panic!("decoding failed: {e:?}"),
    };
    assert_eq!(original_claim, parsed_claim);
}

#[test]
fn claims_json_escapes_like_serde() {
    let meeting = "He said \"hi\"\\\n\t\u{1}\u{1f}é";
    let claims = MeetingEmailClaims::new(meeting, "a@x");
    let jwt = match claims.to_jwt("k") {
        Ok(t) => t,
        Err(_) => panic!("signing failed"),
    };
    let v = decode_claims(&jwt, "k");
    assert_eq!(v["meeting"].as_str().unwrap(), meeting);
    assert_eq!(v["email"].as_str().unwrap(), "a@x");
    assert_eq!(v["exp"].as_u64().unwrap(), v["iat"].as_u64().unwrap() + TOKEN_LIFETIME_SECS);
    let read = MeetingEmailClaims::from_token(&jwt, "k").unwrap();
    assert_eq!(read.get_meeting(), meeting);
    assert_eq!(read.get_email(), "a@x");
}

#[test]
fn meeting_claims_getters() {
    let c = MeetingEmailClaims::from_parts("m".to_string(), "e@x".to_string(), 1, 2);
    assert_eq!(c.get_meeting(), "m");
    assert_eq!(c.get_email(), "e@x");
    assert_eq!(c.get_iat(), 1);
    assert_eq!(c.get_exp(), 2);
}

#[test]
fn admin_claims_round_trip() {
    let c = AdminClaims::new();
    let jwt = match c.to_jwt("admin-secret") {
        Ok(t) => t,
        Err(_) => panic!("signing failed"),
    };
    let v = decode_claims(&jwt, "admin-secret");
    assert_eq!(v.as_object().unwrap().len(), 2);
    let parsed = AdminClaims::from_token(&jwt, "admin-secret").unwrap();
    assert_eq!(c, parsed);
    assert!(matches!(AdminClaims::from_token(&jwt, "other-secret"), Err(ClaimsError::Token(_))));
}

#[test]
fn getters_read_their_keys() {
    let cfg = settings(&[
        ("server.bind", "0.0.0.0:8080"),
        ("server.host", "https://meet.example/"),
        ("jwt.secret", "s3"),
        ("jwt.valid_seconds", "900"),
        ("admin.hash", "h"),
        ("mail.server", "smtp.example"),
        ("mail.port", "465"),
        ("mail.user", "u"),
        ("mail.password", "p"),
        ("mail.from", "robot@example"),
        ("mail.seconds", "30"),
    ]);
    assert_eq!(get_bind(&cfg).ok().unwrap(), "0.0.0.0:8080");
    assert_eq!(get_host(&cfg).ok().unwrap(), "https://meet.example/");
    assert_eq!(get_jwt_secret(&cfg).ok().unwrap(), "s3");
    assert_eq!(get_jwt_valid_seconds(&cfg).ok().unwrap(), 900);
    assert_eq!(get_admin_hash(&cfg).ok().unwrap(), "h");
    assert_eq!(get_mail_server(&cfg).ok().unwrap(), "smtp.example");
    assert_eq!(get_mail_port(&cfg).ok().unwrap(), 465);
    assert_eq!(get_mail_user(&cfg).ok().unwrap(), "u");
    assert_eq!(get_mail_password(&cfg).ok().unwrap(), "p");
    assert_eq!(get_mail_from(&cfg).ok().unwrap(), "robot@example");
    assert_eq!(get_mail_seconds(&cfg).ok().unwrap(), 30);
}

#[test]
fn missing_settings_are_errors() {
    let cfg = settings(&[("mail.port", "not a number")]);
    assert!(get_bind(&cfg).is_err());
    assert!(get_mail_port(&cfg).is_err());
    assert!(get_jwt_secret(&cfg).is_err());
}

fn hash_of(password: &str) -> String {
    argon2::hash_encoded(password.as_bytes(), b"0123456789abcdef", &argon2::Config::default()).unwrap()
}

#[test]
fn test_correct_password() {
    let cfg = settings(&[("admin.hash", &hash_of("123"))]);
    let b = is_correct_admin_password(&cfg, "123").ok().unwrap();
    assert!(b);
}

#[test]
fn test_inccorrect_password() {
    let cfg = settings(&[("admin.hash", &hash_of("123"))]);
    let b = is_correct_admin_password(&cfg, "abc").ok().unwrap();
    assert!(!b);
}

#[test]
fn admin_password_errors() {
    assert!(matches!(is_correct_admin_password(&settings(&[]), "x"), Err(AdminPasswordError::Setting(_))));
    let cfg = settings(&[("admin.hash", "not a hash")]);
    assert!(matches!(is_correct_admin_password(&cfg, "x"), Err(AdminPasswordError::Hash(_))));
}

#[test]
fn generated_hash_admits_the_password() {
    let entry = match argon_hashy("correct horse") {
        Ok(e) => e,
        Err(_) => panic!("hashing failed"),
    };
    assert!(entry.starts_with("[admin]\nhash=\"$argon2id$"));
    assert!(entry.ends_with('"'));
    let hash = &entry["[admin]\nhash=\"".len()..entry.len() - 1];
    let cfg = settings(&[("admin.hash", hash)]);
    assert!(is_correct_admin_password(&cfg, "correct horse").ok().unwrap());
    assert!(!is_correct_admin_password(&cfg, "wrong").ok().unwrap());
}

#[test]
fn generate_admin_hash_needs_equal_passwords() {
    assert!(matches!(generate_admin_hash("a", "b"), Err(AdminHashError::Mismatch)));
    assert!(generate_admin_hash("same", "same").is_ok());
}

#[test]
fn attempt_login_returns_a_token_for_the_meeting() {
    let cfg = settings(&[("jwt.secret", "jwt-secret")]);
    let mut store = LoginStore::new();
    store.register(Login {
        meeting: "m".to_string(),
        email: "a@x".to_string(),
        secret: "tok".to_string(),
        valid_until: Timestamp { secs: i64::MAX, nanos: 0 },
    });
    let token = match store.attempt_login(&cfg, "m", "a@x", "tok") {
        Ok(t) => t,
        Err(_) => panic!("login should succeed"),
    };
    let v = decode_claims(&token, "jwt-secret");
    assert_eq!(v["meeting"].as_str().unwrap(), "m");
    assert_eq!(v["email"].as_str().unwrap(), "a@x");
    assert_eq!(store.len(), 0);
}

fn signed_raw(payload: &str, secret: &str) -> String {
    let raw = serde_json::value::RawValue::from_string(payload.to_string()).unwrap();
    jsonwebtoken::encode(&jsonwebtoken::Header::default(), &raw, &jsonwebtoken::EncodingKey::from_secret(secret.as_bytes()))
        .unwrap()
}

#[test]
fn meeting_claims_sign_the_serde_json_text() {
    let c = MeetingEmailClaims::new_at("random_meeting", "some_individual", 1);
    assert_eq!(c.get_iat(), 1);
    assert_eq!(c.get_exp(), 2592001);
    let token = match c.sign("secret123") {
        Ok(t) => t,
        Err(_) => panic!("signing failed"),
    };
    let expected = signed_raw(r#"{"meeting":"random_meeting","email":"some_individual","iat":1,"exp":2592001}"#, "secret123");
    assert_eq!(token, expected);
}

#[test]
fn meeting_claims_escape_as_serde_json_does() {
    let meeting = "q\"b\\n\n\r\t\u{8}\u{c}\u{0}\u{1f}\u{7f}é😀";
    let email = "</script>";
    let c = MeetingEmailClaims::new_at(meeting, email, 1234567890);
    let token = match c.sign("k") {
        Ok(t) => t,
        Err(_) => panic!("signing failed"),
    };
    let payload = format!(
        r#"{{"meeting":{},"email":{},"iat":1234567890,"exp":{}}}"#,
        serde_json::to_string(meeting).unwrap(),
        serde_json::to_string(email).unwrap(),
        1234567890u64 + TOKEN_LIFETIME_SECS
    );
    assert_eq!(token, signed_raw(&payload, "k"));
}

#[test]
fn expiry_wraps_around_like_u64_addition() {
    let c = AdminClaims::new_at(u64::MAX);
    assert_eq!(c.get_iat(), u64::MAX);
    assert_eq!(c.get_exp(), TOKEN_LIFETIME_SECS - 1);
    let token = match c.sign("k") {
        Ok(t) => t,
        Err(_) => panic!("signing failed"),
    };
    let payload = format!(r#"{{"iat":{},"exp":{}}}"#, u64::MAX, TOKEN_LIFETIME_SECS - 1);
    assert_eq!(token, signed_raw(&payload, "k"));
}

#[test]
fn meeting_claims_know_their_meeting() {
    let c = MeetingEmailClaims::new_at("m", "e", 0);
    assert!(c.is_for_meeting("m"));
    assert!(!c.is_for_meeting("n"));
}

#[test]
fn different_claims_sign_different_payloads() {
    let sign = |m: &str, e: &str| match MeetingEmailClaims::new_at(m, e, 7).sign("k") {
        Ok(t) => t,
        Err(_) => panic!("signing failed"),
    };
    let a = sign("a\",\"email\":\"b", "c");
    let b = sign("a", "b\",\"email\":\"c");
    assert_ne!(a.split('.').nth(1), b.split('.').nth(1));
    assert_ne!(sign("ab", ""), sign("a", "b"));
}

fn store_with(meeting: &str, email: &str, secret: &str, until: i64) -> LoginStore {
    let mut store = LoginStore::new();
    store.register(Login {
        meeting: meeting.to_string(),
        email: email.to_string(),
        secret: secret.to_string(),
        valid_until: Timestamp { secs: until, nanos: 0 },
    });
    store
}

#[test]
fn attempt_login_refuses_an_expired_link_and_consumes_it() {
    let cfg = settings(&[("jwt.secret", "jwt-secret")]);
    let mut store = store_with("m", "a@x", "tok", 1);
    assert!(matches!(store.attempt_login(&cfg, "m", "a@x", "tok"), Err(LoginError::Expired)));
    assert_eq!(store.len(), 0);
}

#[test]
fn attempt_login_without_a_match_leaves_the_store() {
    let cfg = settings(&[("jwt.secret", "jwt-secret")]);
    let mut store = store_with("m", "a@x", "tok", i64::MAX);
    assert!(matches!(store.attempt_login(&cfg, "other", "a@x", "tok"), Err(LoginError::NoMatch)));
    assert!(matches!(store.attempt_login(&cfg, "m", "a@x", "wrong"), Err(LoginError::NoMatch)));
    assert_eq!(store.len(), 1);
}

#[test]
fn attempt_login_without_a_secret_setting_fails_after_consuming() {
    let cfg = settings(&[]);
    let mut store = store_with("m", "a@x", "tok", i64::MAX);
    assert!(matches!(store.attempt_login(&cfg, "m", "a@x", "tok"), Err(LoginError::Setting(_))));
    assert_eq!(store.len(), 0);
}

#[test]
fn generated_entry_admits_only_the_typed_password() {
    let entry = match generate_admin_hash("s3cret", "s3cret") {
        Ok(e) => e,
        Err(_) => panic!("hashing failed"),
    };
    let hash = &entry["[admin]\nhash=\"".len()..entry.len() - 1];
    let cfg = settings(&[("admin.hash", hash)]);
    assert!(is_correct_admin_password(&cfg, "s3cret").ok().unwrap());
    assert!(!is_correct_admin_password(&cfg, "s3cret ").ok().unwrap());
    assert!(matches!(is_correct_admin_password(&settings(&[]), "s3cret"), Err(AdminPasswordError::Setting(_))));
}

#[test]
fn claims_admit_only_to_their_meeting() {
    let c = MeetingEmailClaims::new_at("m1", "a@x", 5);
    assert_eq!(c.validate_for_meeting("m2"), Err(AdmissionError::OtherMeeting));
    let c = MeetingEmailClaims::new_at("m1", "a@x", 5);
    let admitted = c.validate_for_meeting("m1").unwrap();
    assert_eq!(admitted.get_meeting(), "m1");
    assert_eq!(admitted.get_email(), "a@x");
    assert_eq!(admitted.get_iat(), 5);
}

#[test]
fn tokens_are_accepted_until_the_leeway_runs_out() {
    let c = MeetingEmailClaims::new_at("m", "a@x", 1000);
    let jwt = c.sign("s").ok().unwrap();
    let exp = 1000 + TOKEN_LIFETIME_SECS;
    let read = MeetingEmailClaims::from_token_at(&jwt, "s", exp + TOKEN_LEEWAY_SECS).unwrap();
    assert_eq!(read, MeetingEmailClaims::new_at("m", "a@x", 1000));
    assert!(MeetingEmailClaims::from_token_at(&jwt, "s", 0).is_ok());
    assert!(matches!(
        MeetingEmailClaims::from_token_at(&jwt, "s", exp + TOKEN_LEEWAY_SECS + 1),
        Err(ClaimsError::Expired)
    ));
    assert!(matches!(MeetingEmailClaims::from_token(&jwt, "s"), Err(ClaimsError::Expired)));
    assert!(matches!(MeetingEmailClaims::from_token_at(&jwt, "t", 0), Err(ClaimsError::Token(_))));
    assert!(matches!(MeetingEmailClaims::from_token_at("not a token", "s", 0), Err(ClaimsError::Token(_))));
}

#[test]
fn only_the_libraries_claims_text_is_read() {
    let canonical = signed_raw(r#"{"meeting":"m\u0001\n","email":"a@x","iat":5,"exp":7}"#, "s");
    let read = MeetingEmailClaims::from_token_at(&canonical, "s", 0).unwrap();
    assert_eq!(read, MeetingEmailClaims::from_parts("m\u{1}\n".to_string(), "a@x".to_string(), 5, 7));
    for payload in [
        r#"{"meeting": "m","email":"a@x","iat":5,"exp":7}"#,
        r#"{"email":"a@x","meeting":"m","iat":5,"exp":7}"#,
        r#"{"meeting":"m","email":"a@x","iat":5.0,"exp":7}"#,
        r#"{"meeting":"\u006d","email":"a@x","iat":5,"exp":7}"#,
        r#"{"meeting":"m","email":"a@x","iat":5,"exp":7,"x":1}"#,
        r#"{"iat":5,"exp":7}"#,
    ] {
        let jwt = signed_raw(payload, "s");
        assert!(matches!(MeetingEmailClaims::from_token_at(&jwt, "s", 0), Err(ClaimsError::Malformed)), "{payload}");
    }
    let admin = signed_raw(r#"{"iat":5,"exp":7}"#, "s");
    assert_eq!(AdminClaims::from_token_at(&admin, "s", 0).unwrap(), AdminClaims::from_parts(5, 7));
    let spaced = signed_raw(r#"{"iat":5, "exp":7}"#, "s");
    assert!(matches!(AdminClaims::from_token_at(&spaced, "s", 0), Err(ClaimsError::Malformed)));
    let no_expiry = signed_raw(r#"{"iat":5}"#, "s");
    assert!(matches!(AdminClaims::from_token_at(&no_expiry, "s", 0), Err(ClaimsError::Token(_))));
}

#[test]
fn attempt_login_token_reads_back_as_the_meeting_and_email() {
    let cfg = settings(&[("jwt.secret", "jwt-secret")]);
    let mut store = store_with("m", "a@x", "tok", i64::MAX);
    let token = store.attempt_login(&cfg, "m", "a@x", "tok").ok().unwrap();
    let claims = MeetingEmailClaims::from_token(&token, "jwt-secret").unwrap();
    assert_eq!(claims.get_meeting(), "m");
    assert_eq!(claims.get_email(), "a@x");
    assert!(claims.validate_for_meeting("m").is_ok());
}
