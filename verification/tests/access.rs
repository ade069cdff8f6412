use blog_auth::base64url::encode;
use blog_auth::errors::AuthError;
use blog_auth::gate::{bearer_token, credentials_of, decide, AuthGate, RequestCredentials};
use blog_auth::keyset::{Algorithm, Key, KeySetCache};
use blog_auth::principal::Principal;
use blog_auth::routes::{
    page_number, page_offset, total_pages, DatabaseError, PageQuery, SearchQuery, ServerError,
    MAX_PAGE, MIN_PAGE, PAGE_LIMIT, POSTS_PER_PAGE,
};
use blog_auth::session::SessionIdentity;
use blog_auth::token::ValidationPolicy;
use ed25519_dalek::{Signer, SigningKey};

const ISSUER: &str = "https://idp.example/";
const NOW: i64 = 1_700_000_000;
const NONCE: &[u8; 12] = b"unique-nonce";

fn published(id: &str, seed: u8) -> Key {
    Key {
        id: id.as_bytes().to_vec(),
        algorithm: Algorithm::Ed25519,
        material: SigningKey::from_bytes(&[seed; 32]).verifying_key().to_bytes().to_vec(),
    }
}

fn bearer(kid: &str, subject: &str, exp: i64, seed: u8) -> Vec<u8> {
    let header = format!("{{\"kid\":\"{}\"}}", kid);
    let payload = format!("{{\"iss\":\"{}\",\"sub\":\"{}\",\"exp\":{}}}", ISSUER, subject, exp);
    let mut token = encode(header.as_bytes());
    token.push(b'.');
    token.extend_from_slice(&encode(payload.as_bytes()));
    let signature = SigningKey::from_bytes(&[seed; 32]).sign(&token);
    token.push(b'.');
    token.extend_from_slice(&encode(&signature.to_bytes()));
    token
}

fn guard() -> AuthGate {
    AuthGate::new(
        ValidationPolicy::new(ISSUER.as_bytes()),
        SessionIdentity::new(&[0x42; 32], 86400).unwrap(),
    )
}

fn warm_cache() -> KeySetCache {
    let mut cache = KeySetCache::new(300, 60);
    cache.complete_refresh(Some(vec![published("key-1", 7)]), NOW);
    cache
}

fn user(subject: &str, exp: Option<i64>) -> Principal {
    Principal { subject: subject.as_bytes().to_vec(), expires_at: exp }
}

#[test]
fn authorize_accepts_a_valid_bearer_token() {
    let token = bearer("key-1", "api-client", NOW + 60, 7);
    let credentials = RequestCredentials { bearer: Some(&token), cookie: None };
    let mut cache = warm_cache();
    assert_eq!(
        guard().authorize(&credentials, &mut cache, NOW, || None),
        Ok(user("api-client", Some(NOW + 60)))
    );
}

#[test]
fn authorize_accepts_a_valid_session_cookie() {
    let g = guard();
    let cookie = g.session.issue(&user("browser-user", None), NOW, NONCE).unwrap();
    let credentials = RequestCredentials { bearer: None, cookie: Some(&cookie) };
    let mut cache = KeySetCache::new(300, 60);
    let mut fetches = 0;
    let r = g.authorize(&credentials, &mut cache, NOW, || {
        fetches += 1;
        None
    });
    assert_eq!(r, Ok(user("browser-user", Some(NOW + 86400))));
    assert_eq!(fetches, 0);
}

#[test]
fn authorize_prefers_the_bearer_token() {
    let g = guard();
    let token = bearer("key-1", "from-token", NOW + 60, 7);
    let cookie = g.session.issue(&user("from-cookie", None), NOW, NONCE).unwrap();
    let credentials = RequestCredentials { bearer: Some(&token), cookie: Some(&cookie) };
    let mut cache = warm_cache();
    assert_eq!(
        g.authorize(&credentials, &mut cache, NOW, || None).unwrap().subject,
        b"from-token".to_vec()
    );
}

#[test]
fn authorize_falls_back_to_the_cookie() {
    let g = guard();
    let token = bearer("key-1", "from-token", NOW - 60, 7);
    let cookie = g.session.issue(&user("from-cookie", None), NOW, NONCE).unwrap();
    let credentials = RequestCredentials { bearer: Some(&token), cookie: Some(&cookie) };
    let mut cache = warm_cache();
    assert_eq!(
        g.authorize(&credentials, &mut cache, NOW, || None).unwrap().subject,
        b"from-cookie".to_vec()
    );
}

#[test]
fn authorize_refuses_when_nothing_is_presented() {
    let credentials = RequestCredentials { bearer: None, cookie: None };
    let mut cache = KeySetCache::new(300, 60);
    assert_eq!(
        guard().authorize(&credentials, &mut cache, NOW, || None),
        Err(AuthError::Unauthorized)
    );
}

#[test]
fn authorize_refuses_alike_whatever_failed() {
    let g = guard();
    let cookie = g.session.issue(&user("u", None), NOW - 100_000, NONCE).unwrap();
    let tokens = vec![
        b"garbage".to_vec(),
        bearer("key-1", "u", NOW - 1, 7),
        bearer("key-1", "u", NOW + 60, 8),
        bearer("key-1", "", NOW + 60, 7),
    ];
    let cookies: Vec<Option<&[u8]>> = vec![None, Some(b"forged"), Some(&cookie)];
    for token in &tokens {
        for cookie in &cookies {
            let credentials = RequestCredentials { bearer: Some(token), cookie: *cookie };
            let mut cache = warm_cache();
            assert_eq!(
                g.authorize(&credentials, &mut cache, NOW, || None),
                Err(AuthError::Unauthorized)
            );
        }
    }
    for cookie in &cookies {
        let credentials = RequestCredentials { bearer: None, cookie: *cookie };
        let mut cache = warm_cache();
        assert_eq!(
            g.authorize(&credentials, &mut cache, NOW, || None),
            Err(AuthError::Unauthorized)
        );
    }
}

#[test]
fn authorize_reports_a_failed_fetch_as_internal() {
    let g = guard();
    let token = bearer("key-1", "u", NOW + 60, 7);
    let credentials = RequestCredentials { bearer: Some(&token), cookie: None };
    let mut cache = KeySetCache::new(300, 60);
    let r = g.authorize(&credentials, &mut cache, NOW, || None);
    assert_eq!(r, Err(AuthError::FetchFailed));
    assert_eq!(AuthError::FetchFailed.status_code(), 500);
    // the cache is left for the next attempt
    assert!(!cache.is_fetching());
    let r = g.authorize(&credentials, &mut cache, NOW, || Some(vec![published("key-1", 7)]));
    assert_eq!(r, Ok(user("u", Some(NOW + 60))));
}

#[test]
fn authorize_reports_an_unpublished_key_as_unauthorized() {
    let token = bearer("foreign", "u", NOW + 60, 9);
    let credentials = RequestCredentials { bearer: Some(&token), cookie: None };
    let mut cache = warm_cache();
    let mut fetches = 0;
    let r = guard().authorize(&credentials, &mut cache, NOW, || {
        fetches += 1;
        Some(vec![published("key-1", 7)])
    });
    assert_eq!(r, Err(AuthError::Unauthorized));
    assert_eq!(fetches, 1);
}

#[test]
fn authorize_after_takes_the_outcome_of_a_fetch() {
    let g = guard();
    let token = bearer("key-2", "u", NOW + 60, 8);
    let credentials = RequestCredentials { bearer: Some(&token), cookie: None };
    let mut cache = warm_cache();
    assert_eq!(
        g.authorize_after(&credentials, &mut cache, NOW, None),
        Err(AuthError::FetchFailed)
    );
    assert_eq!(
        g.authorize_after(&credentials, &mut cache, NOW, Some(vec![published("key-2", 8)])),
        Ok(user("u", Some(NOW + 60)))
    );
}

#[test]
fn decide_tries_the_token_then_the_cookie() {
    let p = |s: &str| user(s, None);
    assert_eq!(decide(Some(Ok(p("t"))), Ok(p("c"))), Ok(p("t")));
    assert_eq!(decide(Some(Ok(p("t"))), Err(AuthError::Tampered)), Ok(p("t")));
    assert_eq!(decide(Some(Err(AuthError::Expired)), Ok(p("c"))), Ok(p("c")));
    assert_eq!(decide(None, Ok(p("c"))), Ok(p("c")));
    assert_eq!(decide(None, Err(AuthError::NoIdentity)), Err(AuthError::Unauthorized));
    assert_eq!(decide(None, Err(AuthError::Expired)), Err(AuthError::Unauthorized));
    assert_eq!(
        decide(Some(Err(AuthError::Malformed)), Err(AuthError::Tampered)),
        Err(AuthError::Unauthorized)
    );
    assert_eq!(
        decide(Some(Err(AuthError::FetchFailed)), Err(AuthError::NoIdentity)),
        Err(AuthError::FetchFailed)
    );
    assert_eq!(decide(Some(Err(AuthError::FetchFailed)), Ok(p("c"))), Ok(p("c")));
}

#[test]
fn bearer_token_is_taken_from_the_header() {
    assert_eq!(bearer_token(b"Bearer abc.def.ghi"), Some(&b"abc.def.ghi"[..]));
    assert_eq!(bearer_token(b"bearer abc"), Some(&b"abc"[..]));
    assert_eq!(bearer_token(b"BEARER abc"), Some(&b"abc"[..]));
    assert_eq!(bearer_token(b"Bearer  abc"), Some(&b" abc"[..]));
    assert_eq!(bearer_token(b"Bearer "), None);
    assert_eq!(bearer_token(b"Bearer"), None);
    assert_eq!(bearer_token(b"Bearerabc"), None);
    assert_eq!(bearer_token(b"Basic dXNlcjpwdw"), None);
    assert_eq!(bearer_token(b"Bearer\tabc"), None);
    assert_eq!(bearer_token(b" Bearer abc"), None);
    assert_eq!(bearer_token(b""), None);
    assert_eq!(bearer_token(b"BeArEr abc"), Some(&b"abc"[..]));
    assert_eq!(bearer_token(b"Be\x01rer abc"), None);
    assert_eq!(bearer_token(b"\x42\x45\x41\x52\x45\x52 x"), Some(&b"x"[..]));
    assert_eq!(bearer_token(b"Bearer\x00 abc"), None);
    assert_eq!(bearer_token(b"\x62earer\x40abc"), None);
}

#[test]
fn credentials_are_read_off_the_request() {
    let c = credentials_of(Some(b"Bearer tok"), Some(b"cookie"));
    assert_eq!(c.bearer, Some(&b"tok"[..]));
    assert_eq!(c.cookie, Some(&b"cookie"[..]));
    let c = credentials_of(Some(b"Basic abc"), None);
    assert_eq!(c, RequestCredentials { bearer: None, cookie: None });
    let c = credentials_of(None, Some(b"cookie"));
    assert_eq!(c, RequestCredentials { bearer: None, cookie: Some(b"cookie") });
}

#[test]
fn errors_collapse_at_the_boundary() {
    let identity = [
        AuthError::Malformed,
        AuthError::KeyNotFound,
        AuthError::SignatureInvalid,
        AuthError::ClaimInvalid,
        AuthError::Expired,
        AuthError::Tampered,
        AuthError::NoIdentity,
        AuthError::VerificationFailed,
        AuthError::Unauthorized,
    ];
    for e in identity {
        assert_eq!(e.external(), AuthError::Unauthorized);
        assert_eq!(e.status_code(), 401);
        assert_eq!(ServerError::for_auth(e), None);
    }
    for e in [AuthError::FetchFailed, AuthError::HashingFailed] {
        assert_eq!(e.external(), e);
        assert_eq!(e.status_code(), 500);
        assert_eq!(ServerError::for_auth(e), Some(ServerError::InternalError));
    }
}

#[test]
fn server_errors_have_a_status_and_a_message() {
    assert_eq!(ServerError::PostNotFound.status_code(), 404);
    assert_eq!(ServerError::InternalError.status_code(), 500);
    assert_eq!(
        ServerError::InternalError.message(),
        "An internal error ocurred. Please try again later."
    );
    assert_eq!(
        ServerError::PostNotFound.message(),
        "The post you are looking for does not exist."
    );
}

#[test]
fn database_errors_map_to_server_errors() {
    assert_eq!(ServerError::for_post(DatabaseError::NotFound), ServerError::PostNotFound);
    assert_eq!(ServerError::for_post(DatabaseError::QueryError), ServerError::InternalError);
    assert_eq!(
        ServerError::for_post(DatabaseError::ConnectionPoolError),
        ServerError::InternalError
    );
    for e in [
        DatabaseError::NotFound,
        DatabaseError::QueryError,
        DatabaseError::ConnectionPoolError,
    ] {
        assert_eq!(ServerError::for_listing(e), ServerError::InternalError);
    }
}

#[test]
fn pages_are_counted_from_one() {
    assert_eq!(page_number(None), 1);
    assert_eq!(page_number(Some(3)), 3);
    assert_eq!(page_number(Some(0)), 0);
    assert_eq!(page_offset(1), Some(0));
    assert_eq!(page_offset(2), Some(15));
    assert_eq!(page_offset(10), Some(135));
    assert_eq!(page_offset(0), Some(-15));
    assert_eq!(PageQuery { page: None }.offset(), Some(0));
    assert_eq!(PageQuery { page: Some(4) }.offset(), Some(45));
    assert_eq!(PageQuery { page: Some(4) }.page_number(), 4);
    let search = SearchQuery { tag: Some("rust".to_string()), page: Some(2) };
    assert_eq!(search.offset(), Some(15));
    assert_eq!(search.page_number(), 2);
    assert!(search.has_tag());
    assert!(!SearchQuery { tag: None, page: None }.has_tag());
    assert_eq!(POSTS_PER_PAGE, 15);
    assert_eq!(PAGE_LIMIT, 20);
}

#[test]
fn page_offsets_that_cannot_be_counted_are_refused() {
    assert_eq!(page_offset(MAX_PAGE), Some(9223372036854775800));
    assert_eq!(page_offset(MAX_PAGE + 1), None);
    assert_eq!(page_offset(i64::MAX), None);
    assert_eq!(page_offset(MIN_PAGE), Some(-9223372036854775800));
    assert_eq!(page_offset(MIN_PAGE - 1), None);
    assert_eq!(page_offset(i64::MIN), None);
    assert_eq!(PageQuery { page: Some(i64::MIN) }.offset(), None);
}

#[test]
fn total_pages_counts_whole_pages() {
    assert_eq!(total_pages(0), 0);
    assert_eq!(total_pages(14), 0);
    assert_eq!(total_pages(15), 1);
    assert_eq!(total_pages(29), 1);
    assert_eq!(total_pages(30), 2);
    assert_eq!(total_pages(i64::MAX), 614891469123651720);
    assert_eq!(total_pages(-1), 0);
    assert_eq!(total_pages(-16), -1);
}
