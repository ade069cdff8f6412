use blog_auth::base64url::encode;
use blog_auth::config::Config;
use blog_auth::errors::AuthError;
use blog_auth::gate::{AuthGate, RequestCredentials};
use blog_auth::keyset::{
    published_key, published_keys, Algorithm, Key, KeySetCache, PublishedEntry,
};
use blog_auth::post::{title_to_slug, NewPost};
use blog_auth::principal::Principal;
use blog_auth::token::{fetch_needed, validate_settled, ValidationPolicy};
use ed25519_dalek::{Signer, SigningKey};

const ISSUER: &str = "https://idp.example/";
const NOW: i64 = 1_700_000_000;

fn entry(kid: &str, kty: &str, crv: &str, x: &str) -> PublishedEntry {
    PublishedEntry {
        kid: kid.as_bytes().to_vec(),
        kty: kty.as_bytes().to_vec(),
        crv: crv.as_bytes().to_vec(),
        x: x.as_bytes().to_vec(),
    }
}

fn published(id: &str, seed: u8) -> Key {
    Key {
        id: id.as_bytes().to_vec(),
        algorithm: Algorithm::Ed25519,
        material: SigningKey::from_bytes(&[seed; 32]).verifying_key().to_bytes().to_vec(),
    }
}

fn bearer(kid: &str, subject: &str, exp: i64, seed: u8) -> Vec<u8> {
    let header = format!("{{\"kid\":\"{}\"}}", kid);
    let payload = format!("{{\"iss\":\"{}\",\"sub\":\"{}\",\"exp\":{}}}", ISSUER, subject, exp);
    let mut token = encode(header.as_bytes());
    token.push(b'.');
    token.extend_from_slice(&encode(payload.as_bytes()));
    let signature = SigningKey::from_bytes(&[seed; 32]).sign(&token);
    token.push(b'.');
    token.extend_from_slice(&encode(&signature.to_bytes()));
    token
}

fn config() -> Config {
    Config {
        auth_salt: "application-salt".to_string(),
        secret_key: "application-secret".to_string(),
        database_url: String::new(),
        rust_backtrace: 0,
        authority_url: "https://idp.example".to_string(),
        token_issuer: ISSUER.to_string(),
        cookie_domain: "blog.example".to_string(),
        cookie_max_age: 3600,
        hash_cost: 1,
    }
}

#[test]
fn published_entry_of_an_ed25519_key_is_read() {
    let x = encode(&[9u8; 32]);
    let e = entry("key-1", "OKP", "Ed25519", std::str::from_utf8(&x).unwrap());
    assert_eq!(
        published_key(&e),
        Some(Key { id: b"key-1".to_vec(), algorithm: Algorithm::Ed25519, material: vec![9; 32] })
    );
    // the well-known test key of the Ed25519 JWK format
    let e = entry("rfc", "OKP", "Ed25519", "11qYAYKxCrfVS_7TyWQHOg7hcvPapiMlrwIaaPcHURo");
    let key = published_key(&e).unwrap();
    assert_eq!(key.material.len(), 32);
    assert_eq!(&key.material[..4], &[0xd7, 0x5a, 0x98, 0x01]);
}

#[test]
fn published_entries_of_other_kinds_are_passed_over() {
    let x = String::from_utf8(encode(&[9u8; 32])).unwrap();
    assert_eq!(published_key(&entry("k", "RSA", "Ed25519", &x)), None);
    assert_eq!(published_key(&entry("k", "okp", "Ed25519", &x)), None);
    assert_eq!(published_key(&entry("k", "OKP", "X25519", &x)), None);
    assert_eq!(published_key(&entry("k", "OKP", "ed25519", &x)), None);
    assert_eq!(published_key(&entry("k", "", "", &x)), None);
    assert_eq!(published_key(&entry("k", "OKP", "Ed25519", "")), None);
    assert_eq!(published_key(&entry("k", "OKP", "Ed25519", "AAAA")), None);
    assert_eq!(published_key(&entry("k", "OKP", "Ed25519", "not base64")), None);
    let long = String::from_utf8(encode(&[9u8; 33])).unwrap();
    assert_eq!(published_key(&entry("k", "OKP", "Ed25519", &long)), None);
    let padded = format!("{}=", x);
    assert_eq!(published_key(&entry("k", "OKP", "Ed25519", &padded)), None);
}

#[test]
fn published_keys_keep_the_order_of_the_entries() {
    let a = String::from_utf8(encode(&[1u8; 32])).unwrap();
    let b = String::from_utf8(encode(&[2u8; 32])).unwrap();
    let entries = vec![
        entry("a", "OKP", "Ed25519", &a),
        entry("rsa", "RSA", "", "AQAB"),
        entry("b", "OKP", "Ed25519", &b),
        entry("bad", "OKP", "Ed25519", "AA"),
    ];
    let keys = published_keys(&entries);
    assert_eq!(keys.len(), 2);
    assert_eq!(keys[0].id, b"a".to_vec());
    assert_eq!(keys[0].material, vec![1; 32]);
    assert_eq!(keys[1].id, b"b".to_vec());
    assert_eq!(published_keys(&Vec::new()), Vec::new());
    assert_eq!(published_keys(&vec![entry("rsa", "RSA", "", "AQAB")]), Vec::new());
}

#[test]
fn fetch_is_needed_for_keys_that_are_not_at_hand() {
    let mut cache = KeySetCache::new(300, 60);
    let token = bearer("key-1", "u", NOW + 60, 7);
    assert!(fetch_needed(&token, &cache, NOW));
    assert!(!fetch_needed(b"malformed", &cache, NOW));
    cache.complete_refresh(Some(vec![published("key-1", 7)]), NOW);
    assert!(!fetch_needed(&token, &cache, NOW));
    assert!(!fetch_needed(&token, &cache, NOW + 300));
    assert!(fetch_needed(&token, &cache, NOW + 301));
    assert!(fetch_needed(&bearer("key-2", "u", NOW + 60, 7), &cache, NOW));
}

#[test]
fn waiting_callers_are_answered_like_the_one_that_fetched() {
    let policy = ValidationPolicy::new(ISSUER.as_bytes());
    let token = bearer("key-1", "u", NOW + 60, 7);
    let unknown = bearer("key-9", "u", NOW + 60, 7);
    let expected = Principal { subject: b"u".to_vec(), expires_at: Some(NOW + 60) };

    // the fetch stored a set
    let mut cache = KeySetCache::new(300, 60);
    assert!(cache.begin_refresh());
    assert!(!cache.begin_refresh());
    cache.complete_refresh(Some(vec![published("key-1", 7)]), NOW);
    assert_eq!(cache.settle(b"key-1", NOW), Ok(published("key-1", 7)));
    assert_eq!(cache.settle(b"key-9", NOW), Err(AuthError::KeyNotFound));
    assert_eq!(validate_settled(&token, &policy, &cache, NOW), Ok(expected.clone()));
    assert_eq!(validate_settled(&unknown, &policy, &cache, NOW), Err(AuthError::KeyNotFound));
    assert_eq!(validate_settled(b"x", &policy, &cache, NOW), Err(AuthError::Malformed));

    // the fetch failed while an old set is within the grace window
    assert!(cache.begin_refresh());
    cache.complete_refresh(None, NOW + 330);
    assert_eq!(cache.settle(b"key-1", NOW + 330), Ok(published("key-1", 7)));
    assert_eq!(cache.settle(b"key-9", NOW + 330), Err(AuthError::FetchFailed));
    assert_eq!(cache.settle(b"key-1", NOW + 400), Err(AuthError::FetchFailed));

    // the fetch failed on a cold cache
    let mut cold = KeySetCache::new(300, 60);
    assert!(cold.begin_refresh());
    cold.complete_refresh(None, NOW);
    assert_eq!(cold.settle(b"key-1", NOW), Err(AuthError::FetchFailed));
    assert_eq!(validate_settled(&token, &policy, &cold, NOW), Err(AuthError::FetchFailed));
}

#[test]
fn guard_of_a_configuration_answers_requests() {
    let guard = AuthGate::from_config(&config()).unwrap();
    assert_eq!(guard.policy.issuer, ISSUER.as_bytes().to_vec());
    assert_eq!(guard.policy.clock_skew, 0);
    assert_eq!(guard.session.max_age(), 3600);
    assert_eq!(ValidationPolicy::from_config(&config()), ValidationPolicy::new(ISSUER.as_bytes()));

    let token = bearer("key-1", "u", NOW + 60, 7);
    let cookie = guard
        .session
        .issue(&Principal::new(b"browser"), NOW, b"unique-nonce")
        .unwrap();
    let mut cache = KeySetCache::new(300, 60);

    let with_token = RequestCredentials { bearer: Some(&token), cookie: None };
    let with_cookie = RequestCredentials { bearer: None, cookie: Some(&cookie) };
    assert!(guard.needs_fetch(&with_token, &cache, NOW));
    assert!(!guard.needs_fetch(&with_cookie, &cache, NOW));

    assert!(cache.begin_refresh());
    cache.complete_refresh(Some(vec![published("key-1", 7)]), NOW);
    assert!(!guard.needs_fetch(&with_token, &cache, NOW));
    assert_eq!(
        guard.authorize_settled(&with_token, &cache, NOW).unwrap().subject,
        b"u".to_vec()
    );
    assert_eq!(
        guard.authorize_settled(&with_cookie, &cache, NOW).unwrap().subject,
        b"browser".to_vec()
    );
    let nothing = RequestCredentials { bearer: None, cookie: None };
    assert_eq!(guard.authorize_settled(&nothing, &cache, NOW), Err(AuthError::Unauthorized));
}

#[test]
fn slug_is_the_title_in_lower_case_with_hyphens() {
    assert_eq!(title_to_slug("Hello World"), "hello-world");
    assert_eq!(title_to_slug("  Two  Spaces "), "--two--spaces-");
    assert_eq!(title_to_slug("already-a-slug"), "already-a-slug");
    assert_eq!(title_to_slug(""), "");
    assert_eq!(title_to_slug("ÄÖ Ü"), "äö-ü");
    assert_eq!(title_to_slug("Tab\tStays"), "tab\tstays");
}

#[test]
fn new_post_is_dated_when_it_is_made() {
    let draft = NewPost::new("A Title", "text", Some("intro".to_string()), false, NOW);
    assert_eq!(
        draft,
        NewPost {
            title: "A Title".to_string(),
            slug: "a-title".to_string(),
            body: "text".to_string(),
            introduction: Some("intro".to_string()),
            published: false,
            created_at: NOW,
            updated_at: NOW,
            published_at: None,
        }
    );
    let live = NewPost::new("A Title", "text", None, true, NOW);
    assert_eq!(live.published_at, Some(NOW));
    assert_eq!(live.created_at, live.updated_at);
    assert!(live.published);
    assert_eq!(live.introduction, None);
}
