use sentinel::web::auth::password::{hash, verify};
use sentinel::web::auth::session::{SessionStore, IDLE_MS};
use sentinel::web::auth::totp::{enrollment_text, enrollment_uri, generate_secret_base32, Totp, TotpError};
use sentinel::web::handlers::auth::{login, LoginBody, LoginOutcome, SESSION_TTL_MS};
use sentinel::web::handlers::{check_csrf, csrf_eq};
use sentinel::web::middleware::{authenticate, AuthActor};
use sentinel::web::state::{Creds, Throttle, MAX_LOGIN_FAILURES};

#[test]
fn create_validate_expire() {
    let mut s = SessionStore::new();
    let tok = s.create("admin", 1_000, 10_000);
    assert_eq!(s.validate(&tok, 5_000).as_deref(), Some("admin"));
    assert_eq!(s.validate(&tok, 999_999), None);
}

#[test]
fn remove_invalidates() {
    let mut s = SessionStore::new();
    let tok = s.create("admin", 0, 10_000);
    s.remove(&tok);
    assert_eq!(s.validate(&tok, 1), None);
}

#[test]
fn random_token_does_not_grow_the_store() {
    let s = SessionStore::new();
    let t1 = SessionStore::random_token();
    let t2 = SessionStore::random_token();
    assert_ne!(t1, t2);
    assert_eq!(t1.len(), 64);
    assert_eq!(s.len(), 0);
}

#[test]
fn sweep_removes_expired_sessions() {
    let mut s = SessionStore::new();
    let _live = s.create("admin", 1_000_000, 10_000_000);
    let _dead = s.create("admin", 0, 1_000);
    assert_eq!(s.len(), 2);
    s.sweep(2_000_000);
    assert_eq!(s.len(), 1, "expired session must be swept");
}

#[test]
fn idle_timeout_kills_a_session_and_validation_refreshes_it() {
    let mut s = SessionStore::new();
    let tok = s.create("admin", 0, 100 * IDLE_MS);
    // Presented just before the idle timeout: alive, and the timer restarts.
    assert_eq!(s.validate(&tok, IDLE_MS).as_deref(), Some("admin"));
    assert_eq!(s.validate(&tok, 2 * IDLE_MS).as_deref(), Some("admin"));
    // One millisecond too late: dead and removed.
    assert_eq!(s.validate(&tok, 3 * IDLE_MS + 1), None);
    assert!(s.is_empty());
}

#[test]
fn session_lives_exactly_until_absolute_expiry() {
    let mut s = SessionStore::new();
    let tok = s.create("root", 1_000, 10_000);
    assert_eq!(s.validate(&tok, 11_000).as_deref(), Some("root"));
    assert_eq!(s.validate(&tok, 11_001), None);
    assert_eq!(s.len(), 0);
}

#[test]
fn hex_encodes_two_lowercase_digits_per_byte() {
    assert_eq!(sentinel::web::auth::session::hex(&[0x00, 0x0f, 0xa5, 0xff]), "000fa5ff");
    assert_eq!(sentinel::web::auth::session::hex(&[]), "");
    assert_eq!(sentinel::web::auth::session::random_bytes(7).len(), 7);
}

#[test]
fn csrf_eq_matches_and_rejects() {
    assert!(csrf_eq("abc123", "abc123"));
    assert!(!csrf_eq("abc123", "abc124"));
    assert!(!csrf_eq("abc123", "abc12"));
    assert!(!csrf_eq("", "abc123"));
    assert!(csrf_eq("", ""));
}

#[test]
fn check_csrf_requires_both_present_and_equal() {
    assert_eq!(check_csrf("tok", "tok"), Ok(()));
    assert_eq!(check_csrf("", ""), Err(403));
    assert_eq!(check_csrf("tok", ""), Err(403));
    assert_eq!(check_csrf("tok", "other"), Err(403));
}

#[test]
fn hash_then_verify_roundtrip() {
    let phc = hash("correct horse").unwrap();
    assert!(verify("correct horse", &phc));
    assert!(!verify("wrong", &phc));
}

#[test]
fn verify_bad_phc_is_false_not_panic() {
    assert!(!verify("x", "not-a-phc-string"));
}

#[test]
fn hashes_of_one_password_use_fresh_salts() {
    let a = hash("pw").unwrap();
    let b = hash("pw").unwrap();
    assert_ne!(a, b);
    assert!(a.starts_with("$argon2id$"));
}

#[test]
fn checked_constructor_rejects_short_secret() {
    // An 80-bit (10-byte) secret must be rejected by the checked constructor.
    let short_b32 = totp_rs::Secret::Raw(vec![0u8; 10]).to_encoded().to_string();
    assert_eq!(Totp::from_base32(&short_b32).err(), Some(TotpError::SecretTooShort));
}

#[test]
fn from_base32_rejects_text_that_is_not_base32() {
    assert_eq!(Totp::from_base32("not base32 at all!").err(), Some(TotpError::BadBase32));
}

#[test]
fn known_vector_checks() {
    let fixed_bytes: [u8; 20] = [
        0x41, 0x42, 0x43, 0x44, 0x45, 0x46, 0x47, 0x48, 0x49, 0x4a,
        0x4b, 0x4c, 0x4d, 0x4e, 0x4f, 0x50, 0x51, 0x52, 0x53, 0x54,
    ];
    let secret = generate_secret_base32(fixed_bytes);
    let t = Totp::from_base32(&secret).unwrap();
    let now = 59u64;
    let code = t.current(now);
    assert!(t.check(&code, now));
    let far_ts = now + 300;
    let far_code = t.current(far_ts);
    assert!(!t.check(&far_code, now));
}

#[test]
fn generated_secret_is_base32_of_the_bytes() {
    // "ABCDEFGHIJKLMNOPQRST" in base32.
    let fixed: [u8; 20] = *b"ABCDEFGHIJKLMNOPQRST";
    assert_eq!(generate_secret_base32(fixed), "IFBEGRCFIZDUQSKKJNGE2TSPKBIVEU2U");
}

#[test]
fn rfc6238_sha1_vector() {
    // RFC 6238 appendix B: secret "12345678901234567890", T = 59 -> 94287082
    // (eight digits); the six-digit code is its last six digits.
    let secret = generate_secret_base32(*b"12345678901234567890");
    let t = Totp::from_base32(&secret).unwrap();
    assert_eq!(t.current(59), "287082");
    assert!(t.check("287082", 59));
    assert!(t.check("287082", 89));
    assert!(!t.check("287082", 120));
}

#[test]
fn enrollment_uri_and_text_carry_the_secret() {
    let secret = generate_secret_base32([9u8; 20]);
    let uri = enrollment_uri(&secret);
    assert_eq!(
        uri,
        format!("otpauth://totp/SentinelConsole:admin?secret={secret}&issuer=SentinelConsole&algorithm=SHA1&digits=6&period=30")
    );
    let text = enrollment_text(&secret);
    assert!(text.contains(&secret));
    assert!(text.contains("otpauth://totp/SentinelConsole:admin"));
    assert!(text.starts_with("=== TOTP ENROLLMENT"));
}

fn creds(pw: &str) -> Creds {
    Creds { pw_phc: hash(pw).unwrap(), totp_secret_b32: generate_secret_base32([7u8; 20]) }
}

fn body(user: &str, pw: &str) -> LoginBody {
    LoginBody { username: user.to_string(), password: pw.to_string() }
}

#[test]
fn login_creates_a_session_for_the_right_password() {
    let mut throttle = Throttle::new();
    let mut sessions = SessionStore::new();
    let c = creds("hunter2");
    match login(&mut throttle, &mut sessions, &c, &body("admin", "nope"), 1_000) {
        LoginOutcome::Unauthorized => {}
        _ => panic!("wrong password must be refused"),
    }
    assert_eq!(sessions.len(), 0);
    match login(&mut throttle, &mut sessions, &c, &body("admin", "hunter2"), 2_000) {
        LoginOutcome::LoggedIn { sid, csrf } => {
            assert_eq!(sid.len(), 64);
            assert_eq!(csrf.len(), 64);
            assert_eq!(sessions.validate(&sid, 3_000).as_deref(), Some("admin"));
            assert_eq!(sessions.len(), 1);
        }
        _ => panic!("right password must log in"),
    }
}

#[test]
fn login_throttles_after_repeated_failures() {
    let mut throttle = Throttle::new();
    let mut sessions = SessionStore::new();
    let c = creds("hunter2");
    for _ in 0..MAX_LOGIN_FAILURES {
        match login(&mut throttle, &mut sessions, &c, &body("admin", "bad"), 0) {
            LoginOutcome::Unauthorized => {}
            _ => panic!("bad password must be refused"),
        }
    }
    // Even the right password is refused while the window lasts.
    match login(&mut throttle, &mut sessions, &c, &body("admin", "hunter2"), 1_000) {
        LoginOutcome::Throttled => {}
        _ => panic!("throttled login must be refused"),
    }
    assert_eq!(sessions.len(), 0);
    // Once the window has passed, the right password works again.
    match login(&mut throttle, &mut sessions, &c, &body("admin", "hunter2"), 300_001) {
        LoginOutcome::LoggedIn { .. } => {}
        _ => panic!("login must work after the window"),
    }
}

#[test]
fn authenticate_needs_a_live_session() {
    let mut sessions = SessionStore::new();
    assert_eq!(authenticate(&mut sessions, None, 0).err(), Some(401));
    assert_eq!(authenticate(&mut sessions, Some("nope"), 0).err(), Some(401));
    let sid = sessions.create("admin", 0, 10_000);
    match authenticate(&mut sessions, Some(&sid), 5_000) {
        Ok(AuthActor(a)) => assert_eq!(a, "admin"),
        Err(_) => panic!("live session must authenticate"),
    }
    assert_eq!(authenticate(&mut sessions, Some(&sid), 20_001).err(), Some(401));
}

#[test]
fn logout_leaves_no_session_entries_behind() {
    let mut throttle = Throttle::new();
    let mut sessions = SessionStore::new();
    let c = creds("hunter2");
    let sid = match login(&mut throttle, &mut sessions, &c, &body("admin", "hunter2"), 0) {
        LoginOutcome::LoggedIn { sid, .. } => sid,
        _ => panic!("login must succeed"),
    };
    assert_eq!(sessions.len(), 1);
    sentinel::web::handlers::auth::logout(&mut sessions, Some(&sid));
    assert_eq!(sessions.len(), 0, "no session-store entries may survive logout");
    sentinel::web::handlers::auth::logout(&mut sessions, None);
    assert_eq!(sessions.len(), 0);
}

#[test]
fn login_session_ends_at_its_absolute_lifetime() {
    let mut throttle = Throttle::new();
    let mut sessions = SessionStore::new();
    let c = creds("pw");
    let sid = match login(&mut throttle, &mut sessions, &c, &body("admin", "pw"), 0) {
        LoginOutcome::LoggedIn { sid, .. } => sid,
        _ => panic!("login must succeed"),
    };
    let mut t = 0;
    while t + 1_200_000 <= SESSION_TTL_MS {
        t += 1_200_000;
        assert_eq!(sessions.validate(&sid, t).as_deref(), Some("admin"));
    }
    assert_eq!(sessions.validate(&sid, SESSION_TTL_MS + 1), None);
}

#[test]
fn unknown_user_is_refused_even_with_the_admin_password() {
    let mut throttle = Throttle::new();
    let mut sessions = SessionStore::new();
    let c = creds("pw");
    match login(&mut throttle, &mut sessions, &c, &body("root", "pw"), 0) {
        LoginOutcome::Unauthorized => {}
        _ => panic!("only admin may log in"),
    }
}

#[test]
fn random_tokens_are_lowercase_hex() {
    let t = SessionStore::random_token();
    assert!(t.chars().all(|c| c.is_ascii_digit() || ('a'..='f').contains(&c)));
}

#[test]
fn defaults_are_empty() {
    let s = SessionStore::default();
    assert!(s.is_empty());
    let mut throttle = Throttle::default();
    let mut sessions = SessionStore::default();
    let c = creds("pw");
    match login(&mut throttle, &mut sessions, &c, &body("admin", "pw"), 0) {
        LoginOutcome::LoggedIn { .. } => {}
        _ => panic!("a fresh throttle must not refuse"),
    }
}

#[test]
fn created_tokens_are_hex_and_counted() {
    let mut s = SessionStore::new();
    let t = s.create("admin", 0, 10);
    assert_eq!(t.len(), 64);
    assert!(t.chars().all(|c| c.is_ascii_digit() || ('a'..='f').contains(&c)));
    assert_eq!(s.len(), 1);
    let _ = s.create("admin", 0, 10);
    assert_eq!(s.len(), 2);
    assert_eq!(s.validate(&t, 11), None);
    assert_eq!(s.len(), 1);
}
