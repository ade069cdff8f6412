use blog_auth::base64url::encode;
use blog_auth::errors::AuthError;
use blog_auth::keyset::{Algorithm, Key, KeySetCache};
use blog_auth::principal::Principal;
use blog_auth::token::{
    check_claims, open_token, split, validate, validate_after, validate_cached, ValidationPolicy,
};
use ed25519_dalek::{Signer, SigningKey};

const ISSUER: &str = "https://idp.example/";
const NOW: i64 = 1_700_000_000;

fn signing_key(seed: u8) -> SigningKey {
    SigningKey::from_bytes(&[seed; 32])
}

fn published(id: &str, seed: u8) -> Key {
    Key {
        id: id.as_bytes().to_vec(),
        algorithm: Algorithm::Ed25519,
        material: signing_key(seed).verifying_key().to_bytes().to_vec(),
    }
}

fn sign_token(header: &str, payload: &str, seed: u8) -> Vec<u8> {
    let mut token = encode(header.as_bytes());
    token.push(b'.');
    token.extend_from_slice(&encode(payload.as_bytes()));
    let signature = signing_key(seed).sign(&token);
    token.push(b'.');
    token.extend_from_slice(&encode(&signature.to_bytes()));
    token
}

fn token_for(kid: &str, issuer: &str, subject: &str, exp: i64, seed: u8) -> Vec<u8> {
    let header = format!("{{\"alg\":\"EdDSA\",\"typ\":\"JWT\",\"kid\":\"{}\"}}", kid);
    let payload = format!(
        "{{\"iss\":\"{}\",\"sub\":\"{}\",\"exp\":{}}}",
        issuer, subject, exp
    );
    sign_token(&header, &payload, seed)
}

fn policy() -> ValidationPolicy {
    ValidationPolicy::new(ISSUER.as_bytes())
}

fn user(subject: &str, exp: Option<i64>) -> Principal {
    Principal { subject: subject.as_bytes().to_vec(), expires_at: exp }
}

#[test]
fn end_to_end_valid_token_yields_the_subject() {
    let keys = vec![published("key-1", 7)];
    let token = token_for("key-1", ISSUER, "user-1", NOW + 3600, 7);
    assert_eq!(
        validate(&token, &policy(), &keys, NOW),
        Ok(user("user-1", Some(NOW + 3600)))
    );
}

#[test]
fn end_to_end_token_past_its_expiry_is_expired() {
    let keys = vec![published("key-1", 7)];
    let token = token_for("key-1", ISSUER, "user-1", NOW - 3600, 7);
    assert_eq!(validate(&token, &policy(), &keys, NOW), Err(AuthError::Expired));
}

#[test]
fn end_to_end_token_of_a_foreign_key_is_not_found() {
    let keys = vec![published("key-1", 7)];
    let token = token_for("foreign", ISSUER, "user-1", NOW + 3600, 9);
    assert_eq!(validate(&token, &policy(), &keys, NOW), Err(AuthError::KeyNotFound));
}

#[test]
fn malformed_strings_are_malformed() {
    let keys = vec![published("key-1", 7)];
    let good = token_for("key-1", ISSUER, "user-1", NOW + 3600, 7);
    let text = String::from_utf8(good.clone()).unwrap();
    let parts: Vec<&str> = text.split('.').collect();
    let cases: Vec<String> = vec![
        String::new(),
        ".".to_string(),
        "..".to_string(),
        "...".to_string(),
        "abc".to_string(),
        "abc.def".to_string(),
        format!("{}.{}", parts[0], parts[1]),
        format!("{}.{}.", parts[0], parts[1]),
        format!(".{}.{}", parts[1], parts[2]),
        format!("{}..{}", parts[0], parts[2]),
        format!("{}.{}.{}.{}", parts[0], parts[1], parts[2], parts[2]),
        format!("{}.{}.{}.", parts[0], parts[1], parts[2]),
        format!("{}.{}.{}", parts[0], parts[1], "not base64!"),
        format!("{}.{}.{}", parts[0], "pay load", parts[2]),
        format!("{}=.{}.{}", parts[0], parts[1], parts[2]),
        format!(" {}", text),
        format!("{} ", text),
    ];
    for case in cases {
        assert_eq!(
            validate(case.as_bytes(), &policy(), &keys, NOW),
            Err(AuthError::Malformed),
            "{:?}",
            case
        );
    }
}

#[test]
fn header_without_a_key_id_is_malformed() {
    let keys = vec![published("key-1", 7)];
    let payload = format!("{{\"iss\":\"{}\",\"sub\":\"u\"}}", ISSUER);
    for header in [
        "{}",
        "{\"alg\":\"EdDSA\"}",
        "{\"kid\":7}",
        "{\"kid\":null}",
        "{\"kid\":[\"key-1\"]}",
        "[\"kid\",\"key-1\"]",
        "\"key-1\"",
        "{\"kid\":\"key-1\"",
        "{\"kid\":\"key-1\"} x",
        "not json",
    ] {
        let token = sign_token(header, &payload, 7);
        assert_eq!(
            validate(&token, &policy(), &keys, NOW),
            Err(AuthError::Malformed),
            "{}",
            header
        );
    }
}

#[test]
fn signature_that_does_not_verify_is_invalid() {
    let keys = vec![published("key-1", 7)];
    // signed by another key than the one that the key id names
    let token = token_for("key-1", ISSUER, "user-1", NOW + 3600, 8);
    assert_eq!(validate(&token, &policy(), &keys, NOW), Err(AuthError::SignatureInvalid));
}

#[test]
fn signature_over_another_payload_is_invalid() {
    let keys = vec![published("key-1", 7)];
    let honest = String::from_utf8(token_for("key-1", ISSUER, "user-1", NOW + 3600, 7)).unwrap();
    let forged = String::from_utf8(token_for("key-1", ISSUER, "admin", NOW + 3600, 8)).unwrap();
    let honest_parts: Vec<&str> = honest.split('.').collect();
    let forged_parts: Vec<&str> = forged.split('.').collect();
    let spliced = format!("{}.{}.{}", forged_parts[0], forged_parts[1], honest_parts[2]);
    assert_eq!(
        validate(spliced.as_bytes(), &policy(), &keys, NOW),
        Err(AuthError::SignatureInvalid)
    );
}

#[test]
fn signature_of_the_wrong_length_is_invalid() {
    let keys = vec![published("key-1", 7)];
    let honest = String::from_utf8(token_for("key-1", ISSUER, "user-1", NOW + 3600, 7)).unwrap();
    let parts: Vec<&str> = honest.split('.').collect();
    let short = format!("{}.{}.{}", parts[0], parts[1], "AAAA");
    assert_eq!(
        validate(short.as_bytes(), &policy(), &keys, NOW),
        Err(AuthError::SignatureInvalid)
    );
}

#[test]
fn signature_is_checked_before_the_claims() {
    let keys = vec![published("key-1", 7)];
    // wrong issuer and expired, but the signature fails first
    let token = token_for("key-1", "https://evil.example/", "user-1", NOW - 10, 8);
    assert_eq!(validate(&token, &policy(), &keys, NOW), Err(AuthError::SignatureInvalid));
}

#[test]
fn key_of_the_wrong_size_verifies_nothing() {
    let mut key = published("key-1", 7);
    key.material.pop();
    let token = token_for("key-1", ISSUER, "user-1", NOW + 3600, 7);
    assert_eq!(validate(&token, &policy(), &vec![key], NOW), Err(AuthError::SignatureInvalid));
}

#[test]
fn other_issuer_is_an_invalid_claim() {
    let keys = vec![published("key-1", 7)];
    for issuer in ["https://idp.example", "https://other.example/", "", "HTTPS://IDP.EXAMPLE/"] {
        let token = token_for("key-1", issuer, "user-1", NOW + 3600, 7);
        assert_eq!(validate(&token, &policy(), &keys, NOW), Err(AuthError::ClaimInvalid));
    }
}

#[test]
fn missing_claims_are_invalid() {
    let keys = vec![published("key-1", 7)];
    let header = "{\"kid\":\"key-1\"}";
    for payload in [
        "{}".to_string(),
        format!("{{\"iss\":\"{}\"}}", ISSUER),
        format!("{{\"iss\":\"{}\",\"sub\":\"\"}}", ISSUER),
        format!("{{\"iss\":\"{}\",\"sub\":17}}", ISSUER),
        format!("{{\"iss\":\"{}\",\"sub\":null}}", ISSUER),
        "{\"sub\":\"user-1\"}".to_string(),
        "{\"iss\":7,\"sub\":\"user-1\"}".to_string(),
        format!("{{\"iss\":\"{}\",\"sub\":\"u\",\"exp\":\"soon\"}}", ISSUER),
        format!("{{\"iss\":\"{}\",\"sub\":\"u\",\"exp\":1.5e9}}", ISSUER),
        format!("{{\"iss\":\"{}\",\"sub\":\"u\",\"exp\":null}}", ISSUER),
        format!("{{\"iss\":\"{}\",\"sub\":\"u\",\"exp\":99999999999999999999}}", ISSUER),
    ] {
        let token = sign_token(header, &payload, 7);
        assert_eq!(
            validate(&token, &policy(), &keys, NOW),
            Err(AuthError::ClaimInvalid),
            "{}",
            payload
        );
    }
}

#[test]
fn payload_that_is_no_object_is_malformed() {
    let keys = vec![published("key-1", 7)];
    for payload in ["", "[]", "\"sub\"", "{\"iss\":}", "{\"iss\":\"x\",}", "{'iss':'x'}"] {
        let token = sign_token("{\"kid\":\"key-1\"}", payload, 7);
        let expected = if payload.is_empty() {
            // an empty segment is no segment
            AuthError::Malformed
        } else {
            AuthError::Malformed
        };
        assert_eq!(validate(&token, &policy(), &keys, NOW), Err(expected), "{}", payload);
    }
}

#[test]
fn expiry_is_exclusive_of_the_very_second() {
    let keys = vec![published("key-1", 7)];
    let token = token_for("key-1", ISSUER, "user-1", NOW, 7);
    assert_eq!(validate(&token, &policy(), &keys, NOW), Ok(user("user-1", Some(NOW))));
    assert_eq!(validate(&token, &policy(), &keys, NOW + 1), Err(AuthError::Expired));
    assert_eq!(validate(&token, &policy(), &keys, NOW - 1), Ok(user("user-1", Some(NOW))));
}

#[test]
fn clock_skew_extends_the_expiry() {
    let keys = vec![published("key-1", 7)];
    let token = token_for("key-1", ISSUER, "user-1", NOW, 7);
    let tolerant = policy().with_clock_skew(30);
    assert_eq!(tolerant.clock_skew, 30);
    assert_eq!(validate(&token, &tolerant, &keys, NOW + 30), Ok(user("user-1", Some(NOW))));
    assert_eq!(validate(&token, &tolerant, &keys, NOW + 31), Err(AuthError::Expired));
    assert_eq!(policy().clock_skew, 0);
}

#[test]
fn token_without_expiry_does_not_expire() {
    let keys = vec![published("key-1", 7)];
    let payload = format!("{{\"iss\":\"{}\",\"sub\":\"user-1\"}}", ISSUER);
    let token = sign_token("{\"kid\":\"key-1\"}", &payload, 7);
    assert_eq!(validate(&token, &policy(), &keys, i64::MAX), Ok(user("user-1", None)));
}

#[test]
fn negative_expiry_is_long_past() {
    let keys = vec![published("key-1", 7)];
    let token = token_for("key-1", ISSUER, "user-1", -5, 7);
    assert_eq!(validate(&token, &policy(), &keys, 0), Err(AuthError::Expired));
    assert_eq!(validate(&token, &policy(), &keys, -5), Ok(user("user-1", Some(-5))));
    let extreme = policy().with_clock_skew(u64::MAX);
    assert_eq!(validate(&token, &extreme, &keys, i64::MAX), Ok(user("user-1", Some(-5))));
}

#[test]
fn claims_may_be_spaced_escaped_and_nested() {
    let keys = vec![published("key-1", 7)];
    let header = " {\n\t\"typ\" : \"JWT\" ,\r\n \"kid\" : \"key-1\" } ";
    let payload = "{ \"aud\": [\"a\", {\"b\": [1, 2.5e3, true, null]}], \
                   \"iss\": \"https:\\/\\/idp.example\\/\", \
                   \"sub\": \"us\\u0065r-\\u00e9-\\ud83d\\ude00\", \
                   \"exp\": 1700003600, \"nbf\": -1.0 }";
    let token = sign_token(header, payload, 7);
    assert_eq!(
        validate(&token, &policy(), &keys, NOW),
        Ok(user("user-é-😀", Some(1_700_003_600)))
    );
}

#[test]
fn last_of_repeated_claims_counts() {
    let keys = vec![published("key-1", 7)];
    let payload = format!(
        "{{\"sub\":\"first\",\"iss\":\"{}\",\"sub\":\"second\"}}",
        ISSUER
    );
    let token = sign_token("{\"kid\":\"other\",\"kid\":\"key-1\"}", &payload, 7);
    assert_eq!(validate(&token, &policy(), &keys, NOW), Ok(user("second", None)));
}

#[test]
fn first_published_key_of_an_id_counts() {
    let keys = vec![published("key-1", 7), published("key-1", 8), published("key-2", 8)];
    let by_first = token_for("key-1", ISSUER, "user-1", NOW + 1, 7);
    let by_second = token_for("key-1", ISSUER, "user-1", NOW + 1, 8);
    let by_other = token_for("key-2", ISSUER, "user-2", NOW + 1, 8);
    assert!(validate(&by_first, &policy(), &keys, NOW).is_ok());
    assert_eq!(validate(&by_second, &policy(), &keys, NOW), Err(AuthError::SignatureInvalid));
    assert_eq!(validate(&by_other, &policy(), &keys, NOW), Ok(user("user-2", Some(NOW + 1))));
    assert_eq!(validate(&by_first, &policy(), &Vec::new(), NOW), Err(AuthError::KeyNotFound));
}

#[test]
fn split_finds_the_two_dots() {
    assert_eq!(split(b"a.b.c"), Some((1, 3)));
    assert_eq!(split(b"abc.de.f"), Some((3, 6)));
    assert_eq!(split(b"a.b"), None);
    assert_eq!(split(b"a..c"), None);
    assert_eq!(split(b".b.c"), None);
    assert_eq!(split(b"a.b."), None);
    assert_eq!(split(b"a.b.c.d"), None);
    assert_eq!(split(b""), None);
}

#[test]
fn open_token_takes_a_token_apart() {
    let token = sign_token("{\"kid\":\"k\"}", "{\"sub\":\"s\"}", 7);
    let text = String::from_utf8(token.clone()).unwrap();
    let last_dot = text.rfind('.').unwrap();
    let opened = open_token(&token).unwrap();
    assert_eq!(opened.key_id, b"k".to_vec());
    assert_eq!(opened.payload, b"{\"sub\":\"s\"}".to_vec());
    assert_eq!(opened.signed, text.as_bytes()[..last_dot].to_vec());
    assert_eq!(opened.signature.len(), 64);
    assert_eq!(open_token(b"x.y"), Err(AuthError::Malformed));
}

#[test]
fn check_claims_decides_in_order() {
    let claims = blog_auth::json_object::parse_object(
        b"{\"iss\":\"other\",\"sub\":\"\",\"exp\":0}",
    )
    .unwrap();
    assert_eq!(check_claims(&claims, &policy(), NOW), Err(AuthError::ClaimInvalid));
    let claims = blog_auth::json_object::parse_object(
        format!("{{\"iss\":\"{}\",\"sub\":\"u\",\"exp\":0}}", ISSUER).as_bytes(),
    )
    .unwrap();
    assert_eq!(check_claims(&claims, &policy(), NOW), Err(AuthError::Expired));
    assert_eq!(check_claims(&claims, &policy(), 0), Ok(user("u", Some(0))));
}

#[test]
fn cached_validation_fetches_once_when_cold() {
    let mut cache = KeySetCache::new(300, 60);
    let token = token_for("key-1", ISSUER, "user-1", NOW + 3600, 7);
    let mut fetches = 0;
    let r = validate_cached(&token, &policy(), &mut cache, NOW, || {
        fetches += 1;
        Some(vec![published("key-1", 7)])
    });
    assert_eq!(r, Ok(user("user-1", Some(NOW + 3600))));
    assert_eq!(fetches, 1);
    let r = validate_cached(&token, &policy(), &mut cache, NOW + 300, || {
        fetches += 1;
        None
    });
    assert_eq!(r, Ok(user("user-1", Some(NOW + 3600))));
    assert_eq!(fetches, 1);
}

#[test]
fn cached_validation_does_not_fetch_for_malformed_tokens() {
    let mut cache = KeySetCache::new(300, 60);
    let mut fetches = 0;
    let r = validate_cached(b"no token", &policy(), &mut cache, NOW, || {
        fetches += 1;
        None
    });
    assert_eq!(r, Err(AuthError::Malformed));
    assert_eq!(fetches, 0);
    assert!(!cache.is_fresh(NOW));
}

#[test]
fn cached_validation_reports_unpublished_keys() {
    let mut cache = KeySetCache::new(300, 60);
    let token = token_for("foreign", ISSUER, "user-1", NOW + 3600, 9);
    let r = validate_after(&token, &policy(), &mut cache, NOW, Some(vec![published("key-1", 7)]));
    assert_eq!(r, Err(AuthError::KeyNotFound));
    assert!(cache.is_fresh(NOW));
}

#[test]
fn cached_validation_fails_when_the_fetch_fails() {
    let mut cache = KeySetCache::new(300, 60);
    let token = token_for("key-1", ISSUER, "user-1", NOW + 3600, 7);
    assert_eq!(
        validate_after(&token, &policy(), &mut cache, NOW, None),
        Err(AuthError::FetchFailed)
    );
    assert_eq!(
        validate_after(&token, &policy(), &mut cache, NOW, Some(Vec::new())),
        Err(AuthError::FetchFailed)
    );
    assert!(!cache.is_fresh(NOW));
}
