use blog_auth::base64url::{decode, encode};
use blog_auth::config::Config;
use blog_auth::errors::AuthError;
use blog_auth::principal::Principal;
use blog_auth::session::{
    cookie_attributes, frame, unframe, CookieChange, SessionIdentity, MAX_SUBJECT_LENGTH,
};

const T0: i64 = 1_700_000_000;
const DAY: u64 = 86400;
const NONCE: &[u8; 12] = b"unique-nonce";

fn session() -> SessionIdentity {
    SessionIdentity::new(&[0x42; 32], DAY).unwrap()
}

fn user(subject: &str) -> Principal {
    Principal { subject: subject.as_bytes().to_vec(), expires_at: None }
}

fn config() -> Config {
    Config {
        auth_salt: "application-salt".to_string(),
        secret_key: "application-secret".to_string(),
        database_url: String::new(),
        rust_backtrace: 0,
        authority_url: "https://idp.example".to_string(),
        token_issuer: "https://idp.example/".to_string(),
        cookie_domain: "blog.example".to_string(),
        cookie_max_age: 3600,
        hash_cost: 1,
    }
}

#[test]
fn issue_then_read_returns_the_subject() {
    let s = session();
    let cookie = s.issue(&user("user-1"), T0, NONCE).unwrap();
    let read = s.read(Some(&cookie), T0).unwrap();
    assert_eq!(read.subject, b"user-1".to_vec());
    assert_eq!(read.expires_at, Some(T0 + DAY as i64));
}

#[test]
fn issue_then_read_keeps_any_subject() {
    let s = session();
    for subject in ["", "a", "user@example.org", "ünï/cödé 😀", "with\0nul"] {
        let cookie = s.issue(&user(subject), T0, NONCE).unwrap();
        assert_eq!(s.read(Some(&cookie), T0).unwrap().subject, subject.as_bytes().to_vec());
    }
    let long = Principal { subject: vec![7; MAX_SUBJECT_LENGTH], expires_at: None };
    let cookie = s.issue(&long, T0, NONCE).unwrap();
    assert_eq!(s.read(Some(&cookie), T0).unwrap().subject, long.subject);
}

#[test]
fn cookie_value_is_cookie_safe_text() {
    let cookie = session().issue(&user("user-1"), T0, NONCE).unwrap();
    assert!(cookie
        .iter()
        .all(|c| c.is_ascii_alphanumeric() || *c == b'-' || *c == b'_'));
    let raw = decode(&cookie).unwrap();
    // nonce, time of issue, subject, tag
    assert_eq!(raw.len(), 12 + 8 + 6 + 16);
    assert_eq!(&raw[..12], NONCE);
    // the subject is not readable in what is stored
    assert!(!raw.windows(6).any(|w| w == b"user-1"));
}

#[test]
fn issue_is_a_function_of_its_inputs() {
    let s = session();
    let a = s.issue(&user("user-1"), T0, NONCE).unwrap();
    assert_eq!(s.issue(&user("user-1"), T0, NONCE).unwrap(), a);
    assert_ne!(s.issue(&user("user-2"), T0, NONCE).unwrap(), a);
    assert_ne!(s.issue(&user("user-1"), T0 + 1, NONCE).unwrap(), a);
    assert_ne!(s.issue(&user("user-1"), T0, b"other--nonce").unwrap(), a);
    let other = SessionIdentity::new(&[0x43; 32], DAY).unwrap();
    assert_ne!(other.issue(&user("user-1"), T0, NONCE).unwrap(), a);
}

#[test]
fn issue_refuses_a_nonce_of_the_wrong_length() {
    let s = session();
    assert_eq!(s.issue(&user("u"), T0, b""), None);
    assert_eq!(s.issue(&user("u"), T0, b"eleven-byte"), None);
    assert_eq!(s.issue(&user("u"), T0, b"thirteen-byte"), None);
}

#[test]
fn issue_refuses_a_subject_that_is_too_long() {
    let s = session();
    let long = Principal { subject: vec![7; MAX_SUBJECT_LENGTH + 1], expires_at: None };
    assert_eq!(s.issue(&long, T0, NONCE), None);
}

#[test]
fn read_without_a_cookie_is_no_identity() {
    assert_eq!(session().read(None, T0), Err(AuthError::NoIdentity));
}

#[test]
fn read_of_a_flipped_byte_is_tampered() {
    let s = session();
    let cookie = s.issue(&user("user-1"), T0, NONCE).unwrap();
    // every single byte of the value, replaced by another character
    for i in 0..cookie.len() {
        let mut forged = cookie.clone();
        forged[i] = if forged[i] == b'A' { b'B' } else { b'A' };
        assert_eq!(s.read(Some(&forged), T0), Err(AuthError::Tampered), "byte {}", i);
    }
    // every single bit of what the value encodes
    let raw = decode(&cookie).unwrap();
    for i in 0..raw.len() {
        for bit in 0..8 {
            let mut forged = raw.clone();
            forged[i] ^= 1 << bit;
            assert_eq!(
                s.read(Some(&encode(&forged)), T0),
                Err(AuthError::Tampered),
                "byte {} bit {}",
                i,
                bit
            );
        }
    }
}

#[test]
fn read_of_what_is_no_cookie_is_tampered() {
    let s = session();
    for value in ["", "A", "AAAA", "not a cookie", "Zm9vYmFy", "====", "user-1"] {
        assert_eq!(s.read(Some(value.as_bytes()), T0), Err(AuthError::Tampered), "{}", value);
    }
    let cookie = s.issue(&user("user-1"), T0, NONCE).unwrap();
    assert_eq!(s.read(Some(&cookie[..cookie.len() - 1]), T0), Err(AuthError::Tampered));
    assert_eq!(s.read(Some(&cookie[..16]), T0), Err(AuthError::Tampered));
    let mut longer = cookie.clone();
    longer.extend_from_slice(b"AAAA");
    assert_eq!(s.read(Some(&longer), T0), Err(AuthError::Tampered));
}

#[test]
fn read_under_another_key_is_tampered() {
    let cookie = session().issue(&user("user-1"), T0, NONCE).unwrap();
    let other = SessionIdentity::new(&[0x43; 32], DAY).unwrap();
    assert_eq!(other.read(Some(&cookie), T0), Err(AuthError::Tampered));
}

#[test]
fn read_after_max_age_is_expired() {
    let s = session();
    let cookie = s.issue(&user("user-1"), T0, NONCE).unwrap();
    assert!(s.read(Some(&cookie), T0 + DAY as i64 - 1).is_ok());
    assert!(s.read(Some(&cookie), T0 + DAY as i64).is_ok());
    assert_eq!(s.read(Some(&cookie), T0 + DAY as i64 + 1), Err(AuthError::Expired));
    assert_eq!(s.read(Some(&cookie), i64::MAX), Err(AuthError::Expired));
    // a clock that stands before the issue has seen no time pass
    assert!(s.read(Some(&cookie), T0 - 5).is_ok());
    assert!(s.read(Some(&cookie), i64::MIN).is_ok());
}

#[test]
fn max_age_of_zero_lasts_the_second_of_issue() {
    let s = SessionIdentity::new(&[1; 32], 0).unwrap();
    assert_eq!(s.max_age(), 0);
    let cookie = s.issue(&user("u"), T0, NONCE).unwrap();
    assert_eq!(s.read(Some(&cookie), T0).unwrap().expires_at, Some(T0));
    assert_eq!(s.read(Some(&cookie), T0 + 1), Err(AuthError::Expired));
}

#[test]
fn session_end_is_held_to_the_last_second() {
    let s = SessionIdentity::new(&[1; 32], u64::MAX).unwrap();
    let cookie = s.issue(&user("u"), i64::MAX, NONCE).unwrap();
    assert_eq!(s.read(Some(&cookie), i64::MAX).unwrap().expires_at, Some(i64::MAX));
    let cookie = s.issue(&user("u"), i64::MIN, NONCE).unwrap();
    assert_eq!(s.read(Some(&cookie), i64::MAX).unwrap().expires_at, Some(i64::MAX));
    let s = SessionIdentity::new(&[1; 32], 10).unwrap();
    let cookie = s.issue(&user("u"), -4, NONCE).unwrap();
    assert_eq!(s.read(Some(&cookie), 6).unwrap().expires_at, Some(6));
    assert_eq!(s.read(Some(&cookie), 7), Err(AuthError::Expired));
}

#[test]
fn session_key_must_have_32_bytes() {
    assert!(SessionIdentity::new(&[0; 31], DAY).is_none());
    assert!(SessionIdentity::new(&[0; 33], DAY).is_none());
    assert!(SessionIdentity::new(&[], DAY).is_none());
    assert!(SessionIdentity::new(&[0; 32], DAY).is_some());
}

#[test]
fn session_of_a_configuration_derives_its_key() {
    let cfg = config();
    let a = SessionIdentity::from_config(&cfg).unwrap();
    let b = SessionIdentity::from_config(&cfg).unwrap();
    assert_eq!(a.max_age(), 3600);
    let cookie = a.issue(&user("user-1"), T0, NONCE).unwrap();
    assert_eq!(b.read(Some(&cookie), T0).unwrap().subject, b"user-1".to_vec());
    assert_eq!(b.read(Some(&cookie), T0 + 3601), Err(AuthError::Expired));
    let mut other = config();
    other.secret_key = "another-secret".to_string();
    let c = SessionIdentity::from_config(&other).unwrap();
    assert_eq!(c.read(Some(&cookie), T0), Err(AuthError::Tampered));
    let mut salted = config();
    salted.auth_salt = String::new();
    let d = SessionIdentity::from_config(&salted).unwrap();
    assert_eq!(d.read(Some(&cookie), T0), Err(AuthError::Tampered));
    // the secret itself is not the key
    let direct = SessionIdentity::new(&[b's'; 32], 3600).unwrap();
    let mut plain = config();
    plain.secret_key = "s".repeat(32);
    let derived = SessionIdentity::from_config(&plain).unwrap();
    let cookie = derived.issue(&user("u"), T0, NONCE).unwrap();
    assert_eq!(direct.read(Some(&cookie), T0), Err(AuthError::Tampered));
}

#[test]
fn revoke_clears_the_cookie_every_time() {
    let s = session();
    assert_eq!(s.revoke(), CookieChange::Clear);
    assert_eq!(s.revoke(), CookieChange::Clear);
}

#[test]
fn login_sets_a_cookie_only_when_accepted() {
    let s = session();
    assert_eq!(s.login(false, &user("user-1"), T0, NONCE), CookieChange::Keep);
    let change = s.login(true, &user("user-1"), T0, NONCE);
    assert_eq!(
        change,
        CookieChange::Store(s.issue(&user("user-1"), T0, NONCE).unwrap())
    );
    match change {
        CookieChange::Store(value) => {
            assert_eq!(s.read(Some(&value), T0).unwrap().subject, b"user-1".to_vec())
        }
        _ => unreachable!(),
    }
    assert_eq!(s.login(true, &user("user-1"), T0, b"short"), CookieChange::Keep);
}

#[test]
fn session_walks_through_its_states() {
    let s = session();
    // anonymous
    assert_eq!(s.read(None, T0), Err(AuthError::NoIdentity));
    // authenticated by a login that was accepted
    let cookie = match s.login(true, &user("user-1"), T0, NONCE) {
        CookieChange::Store(value) => Some(value),
        _ => None,
    };
    assert!(s.read(cookie.as_deref(), T0 + 60).is_ok());
    // anonymous again by revocation
    let cookie = match s.revoke() {
        CookieChange::Clear => None,
        _ => cookie,
    };
    assert_eq!(s.read(cookie.as_deref(), T0 + 61), Err(AuthError::NoIdentity));
    // or by expiry, seen on the next read
    let cookie = s.issue(&user("user-1"), T0, NONCE);
    assert_eq!(
        s.read(cookie.as_deref(), T0 + DAY as i64 + 1),
        Err(AuthError::Expired)
    );
}

#[test]
fn frame_writes_time_then_subject() {
    assert_eq!(frame(0, b"ab"), vec![0x80, 0, 0, 0, 0, 0, 0, 0, b'a', b'b']);
    assert_eq!(frame(1, b""), vec![0x80, 0, 0, 0, 0, 0, 0, 1]);
    assert_eq!(frame(-1, b""), vec![0x7f, 0xff, 0xff, 0xff, 0xff, 0xff, 0xff, 0xff]);
    assert_eq!(frame(i64::MIN, b""), vec![0; 8]);
    assert_eq!(frame(i64::MAX, b"z"), vec![0xff, 0xff, 0xff, 0xff, 0xff, 0xff, 0xff, 0xff, b'z']);
    assert_eq!(
        frame(0x0102_0304_0506_0708, b""),
        vec![0x81, 0x02, 0x03, 0x04, 0x05, 0x06, 0x07, 0x08]
    );
}

#[test]
fn unframe_inverts_frame() {
    for t in [0, 1, -1, T0, -T0, i64::MIN, i64::MAX, 255, 256, 65536] {
        for subject in [&b""[..], b"a", b"user-1"] {
            assert_eq!(unframe(&frame(t, subject)), Some((t, subject.to_vec())));
        }
    }
    assert_eq!(unframe(b""), None);
    assert_eq!(unframe(&[0; 7]), None);
    assert_eq!(unframe(&[0; 8]), Some((i64::MIN, Vec::new())));
}

#[test]
fn cookie_attributes_follow_the_policy() {
    let attributes = cookie_attributes(&config());
    assert_eq!(attributes.name, "auth");
    assert_eq!(attributes.path, "/");
    assert_eq!(attributes.domain, "blog.example");
    assert!(attributes.secure);
    assert!(attributes.http_only);
    assert_eq!(attributes.max_age, 3600);
}
