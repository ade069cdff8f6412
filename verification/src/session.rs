//! The session identity: a principal and its time of issue, sealed into a
//! cookie value under a key that only the process holds.

use vstd::prelude::*;
use vstd::slice::{slice_subrange, slice_to_vec};
use vstd::utf8::encode_utf8;

use chacha20poly1305::aead::Aead;
use chacha20poly1305::KeyInit;

use crate::auth::{argon2_accepts, MAX_INPUT_LENGTH};
use crate::base64url::{
    decode, decode_inverts_encode, encode, spec_decode, spec_encode,
};
use crate::config::Config;
use crate::errors::AuthError;
use crate::principal::{outcome_view, Principal, PrincipalView};

verus! {

/// Bytes of the key that seals a session.
pub const KEY_LENGTH: usize = 32;

/// Bytes of the nonce that one sealing uses.
pub const NONCE_LENGTH: usize = 12;

/// Bytes that stand for the time of issue.
pub const TIME_LENGTH: usize = 8;

/// Longest subject that a session carries, in bytes.
pub const MAX_SUBJECT_LENGTH: usize = 2048;

/// What `chacha20poly1305` gives for sealing `plaintext` under a 32-byte key
/// and a 12-byte nonce: the ciphertext followed by its tag; `None` where it
/// refuses.
pub uninterp spec fn aead_sealed(key: Seq<u8>, nonce: Seq<u8>, plaintext: Seq<u8>) -> Option<Seq<u8>>;

/// What `chacha20poly1305` gives for opening `sealed` under a 32-byte key and
/// a 12-byte nonce: the plaintext; `None` where the tag does not
/// authenticate it.
pub uninterp spec fn aead_opened(key: Seq<u8>, nonce: Seq<u8>, sealed: Seq<u8>) -> Option<Seq<u8>>;

/// The 32 bytes that `argon2::hash_raw` derives from a password and a salt
/// under the crate's default configuration; `None` where it refuses them.
pub uninterp spec fn argon2_derived(password: Seq<u8>, salt: Seq<u8>) -> Option<Seq<u8>>;

/// The error of the `aead` traits, carried through unread.
#[verifier::external_type_specification]
#[verifier::external_body]
pub struct ExAeadError(chacha20poly1305::Error);

/// Calls `ChaCha20Poly1305::encrypt` without associated data.
///
/// Trusted: the result is a function of the three arguments, and a plaintext
/// of this size is never refused.
#[verifier::external_body]
fn aead_seal(key: &[u8], nonce: &[u8], plaintext: &[u8]) -> (r: Result<
    Vec<u8>,
    chacha20poly1305::Error,
>)
    requires
        key@.len() == KEY_LENGTH,
        nonce@.len() == NONCE_LENGTH,
        plaintext@.len() <= TIME_LENGTH + MAX_SUBJECT_LENGTH,
    ensures
        match r {
            Ok(sealed) => aead_sealed(key@, nonce@, plaintext@) == Some(sealed@),
            Err(_) => false,
        },
{
    let cipher = chacha20poly1305::ChaCha20Poly1305::new(chacha20poly1305::Key::from_slice(key));
    cipher.encrypt(chacha20poly1305::Nonce::from_slice(nonce), plaintext)
}

/// Calls `ChaCha20Poly1305::decrypt` without associated data.
///
/// Trusted: the result is a function of the three arguments, and what was
/// sealed under this key and nonce opens to the plaintext that was sealed.
#[verifier::external_body]
fn aead_open(key: &[u8], nonce: &[u8], sealed: &[u8]) -> (r: Result<Vec<u8>, chacha20poly1305::Error>)
    requires
        key@.len() == KEY_LENGTH,
        nonce@.len() == NONCE_LENGTH,
    ensures
        match r {
            Ok(plaintext) => aead_opened(key@, nonce@, sealed@) == Some(plaintext@),
            Err(_) => aead_opened(key@, nonce@, sealed@) is None,
        },
        forall|plaintext: Seq<u8>| #[trigger]
            aead_sealed(key@, nonce@, plaintext) == Some(sealed@) ==> (match r {
                Ok(opened) => opened@ == plaintext,
                Err(_) => false,
            }),
{
    let cipher = chacha20poly1305::ChaCha20Poly1305::new(chacha20poly1305::Key::from_slice(key));
    cipher.decrypt(chacha20poly1305::Nonce::from_slice(nonce), sealed)
}

/// Calls `argon2::hash_raw` with the default configuration.
///
/// Trusted: the result is a function of the two arguments, has the default
/// hash length of 32 bytes, and the call succeeds exactly on the inputs that
/// pass the crate's own validation of lengths.
#[verifier::external_body]
fn argon2_derive(password: &[u8], salt: &[u8]) -> (r: Result<Vec<u8>, argon2::Error>)
    ensures
        match r {
            Ok(derived) => argon2_derived(password@, salt@) == Some(derived@) && derived@.len()
                == KEY_LENGTH,
            Err(_) => argon2_derived(password@, salt@) is None,
        },
        r is Ok <==> argon2_accepts(password@, salt@, Seq::empty(), 1),
{
    argon2::hash_raw(password, salt, &argon2::Config::default())
}

/// The place of a second among all seconds, counted from the earliest.
pub open spec fn time_ordinal(t: i64) -> int {
    t + 0x8000_0000_0000_0000
}

/// The eight bytes of a number below 2^64, most significant first.
pub open spec fn ordinal_bytes(v: int) -> Seq<u8> {
    seq![
        ((v / 0x100_0000_0000_0000) % 256) as u8,
        ((v / 0x1_0000_0000_0000) % 256) as u8,
        ((v / 0x100_0000_0000) % 256) as u8,
        ((v / 0x1_0000_0000) % 256) as u8,
        ((v / 0x100_0000) % 256) as u8,
        ((v / 0x1_0000) % 256) as u8,
        ((v / 0x100) % 256) as u8,
        (v % 256) as u8,
    ]
}

/// The number that eight bytes write, most significant first.
pub open spec fn bytes_ordinal(b: Seq<u8>) -> int {
    b[0] * 0x100_0000_0000_0000 + b[1] * 0x1_0000_0000_0000 + b[2] * 0x100_0000_0000 + b[3]
        * 0x1_0000_0000 + b[4] * 0x100_0000 + b[5] * 0x1_0000 + b[6] * 0x100 + b[7]
}

/// What is sealed: the time of issue in eight bytes, then the subject.
pub open spec fn spec_frame(issued_at: i64, subject: Seq<u8>) -> Seq<u8> {
    ordinal_bytes(time_ordinal(issued_at)) + subject
}

/// The time of issue and the subject that a payload holds, where it is long
/// enough to hold a time.
pub open spec fn spec_unframe(payload: Seq<u8>) -> Option<(i64, Seq<u8>)> {
    if payload.len() < TIME_LENGTH {
        None
    } else {
        Some(
            (
                (bytes_ordinal(payload.take(TIME_LENGTH as int)) - 0x8000_0000_0000_0000) as i64,
                payload.skip(TIME_LENGTH as int),
            ),
        )
    }
}

/// Eight bytes written for a number are read back as that number.
pub proof fn ordinal_round_trip(v: int)
    requires
        0 <= v < 0x1_0000_0000_0000_0000,
    ensures
        ordinal_bytes(v).len() == 8,
        bytes_ordinal(ordinal_bytes(v)) == v,
{
    let b = ordinal_bytes(v);
    let r7 = v / 0x100;
    let r6 = r7 / 0x100;
    let r5 = r6 / 0x100;
    let r4 = r5 / 0x100;
    let r3 = r4 / 0x100;
    let r2 = r3 / 0x100;
    let r1 = r2 / 0x100;
    assert(r6 == v / 0x1_0000);
    assert(r5 == v / 0x100_0000);
    assert(r4 == v / 0x1_0000_0000);
    assert(r3 == v / 0x100_0000_0000);
    assert(r2 == v / 0x1_0000_0000_0000);
    assert(r1 == v / 0x100_0000_0000_0000);
    assert(r1 < 256);
    assert(v == r7 * 0x100 + v % 256);
    assert(r7 == r6 * 0x100 + r7 % 256);
    assert(r6 == r5 * 0x100 + r6 % 256);
    assert(r5 == r4 * 0x100 + r5 % 256);
    assert(r4 == r3 * 0x100 + r4 % 256);
    assert(r3 == r2 * 0x100 + r3 % 256);
    assert(r2 == r1 * 0x100 + r2 % 256);
    assert(b[0] == r1 % 256);
    assert(b[1] == r2 % 256);
    assert(b[2] == r3 % 256);
    assert(b[3] == r4 % 256);
    assert(b[4] == r5 % 256);
    assert(b[5] == r6 % 256);
    assert(b[6] == r7 % 256);
    assert(b[7] == v % 256);
}

/// What was framed is what unframing gives back.
pub proof fn unframe_inverts_frame(issued_at: i64, subject: Seq<u8>)
    ensures
        spec_unframe(spec_frame(issued_at, subject)) == Some((issued_at, subject)),
{
    let v = time_ordinal(issued_at);
    ordinal_round_trip(v);
    let payload = spec_frame(issued_at, subject);
    assert(payload.take(TIME_LENGTH as int) =~= ordinal_bytes(v));
    assert(payload.skip(TIME_LENGTH as int) =~= subject);
}

/// Frames a time of issue and a subject.
pub fn frame(issued_at: i64, subject: &[u8]) -> (payload: Vec<u8>)
    ensures
        payload@ == spec_frame(issued_at, subject@),
{
    let v: u64 = (issued_at as i128 + 0x8000_0000_0000_0000i128) as u64;
    let mut payload: Vec<u8> = Vec::new();
    payload.push(((v / 0x100_0000_0000_0000) % 256) as u8);
    payload.push(((v / 0x1_0000_0000_0000) % 256) as u8);
    payload.push(((v / 0x100_0000_0000) % 256) as u8);
    payload.push(((v / 0x1_0000_0000) % 256) as u8);
    payload.push(((v / 0x100_0000) % 256) as u8);
    payload.push(((v / 0x1_0000) % 256) as u8);
    payload.push(((v / 0x100) % 256) as u8);
    payload.push((v % 256) as u8);
    assert(payload@ =~= ordinal_bytes(time_ordinal(issued_at)));
    payload.extend_from_slice(subject);
    payload
}

/// Takes a payload apart again.
pub fn unframe(payload: &[u8]) -> (r: Option<(i64, Vec<u8>)>)
    ensures
        match r {
            Some((issued_at, subject)) => spec_unframe(payload@) == Some((issued_at, subject@)),
            None => spec_unframe(payload@) is None,
        },
{
    if payload.len() < TIME_LENGTH {
        return None;
    }
    let head = slice_subrange(payload, 0, TIME_LENGTH);
    assert(head@ =~= payload@.take(TIME_LENGTH as int));
    let v: u64 = head[0] as u64 * 0x100_0000_0000_0000 + head[1] as u64 * 0x1_0000_0000_0000
        + head[2] as u64 * 0x100_0000_0000 + head[3] as u64 * 0x1_0000_0000 + head[4] as u64
        * 0x100_0000 + head[5] as u64 * 0x1_0000 + head[6] as u64 * 0x100 + head[7] as u64;
    let issued_at: i64 = (v as i128 - 0x8000_0000_0000_0000i128) as i64;
    let subject = slice_to_vec(slice_subrange(payload, TIME_LENGTH, payload.len()));
    assert(subject@ =~= payload@.skip(TIME_LENGTH as int));
    Some((issued_at, subject))
}

/// What a session holds, as a mathematical value.
pub struct SessionView {
    /// The key that seals cookies.
    pub key: Seq<u8>,
    /// Seconds for which a cookie is accepted after its issue.
    pub max_age: u64,
}

/// The cookie value that sealing `plaintext` gives: the nonce and what was
/// sealed, as text.
pub open spec fn sealed_cookie(key: Seq<u8>, nonce: Seq<u8>, plaintext: Seq<u8>) -> Option<Seq<u8>> {
    match aead_sealed(key, nonce, plaintext) {
        Some(sealed) => Some(spec_encode(nonce + sealed)),
        None => None,
    }
}

/// The payload that a cookie value opens to: `None` unless it is text that
/// decodes to a nonce followed by something that authenticates.
pub open spec fn opened_cookie(key: Seq<u8>, text: Seq<u8>) -> Option<Seq<u8>> {
    match spec_decode(text) {
        None => None,
        Some(raw) => if raw.len() < NONCE_LENGTH {
            None
        } else {
            aead_opened(key, raw.take(NONCE_LENGTH as int), raw.skip(NONCE_LENGTH as int))
        },
    }
}

/// Whether a payload was opened and is `plaintext`.
pub open spec fn payload_is(payload: Option<Vec<u8>>, plaintext: Seq<u8>) -> bool {
    match payload {
        Some(p) => p@ == plaintext,
        None => false,
    }
}

/// The second at which a session issued at `issued_at` ends, held to the
/// last second there is.
pub open spec fn session_end(issued_at: i64, max_age: u64) -> i64 {
    if issued_at + max_age > i64::MAX {
        i64::MAX
    } else {
        (issued_at + max_age) as i64
    }
}

impl SessionView {
    /// A session key has the length that the cipher takes.
    pub open spec fn wf(self) -> bool {
        self.key.len() == KEY_LENGTH
    }

    /// The cookie value for `subject`, issued at `now` under `nonce`: `None`
    /// unless the nonce has twelve bytes and the subject is no longer than a
    /// session carries.
    pub open spec fn issue(self, subject: Seq<u8>, now: i64, nonce: Seq<u8>) -> Option<Seq<u8>> {
        if nonce.len() == NONCE_LENGTH && subject.len() <= MAX_SUBJECT_LENGTH {
            sealed_cookie(self.key, nonce, spec_frame(now, subject))
        } else {
            None
        }
    }

    /// What a payload that authenticated grants at `now`.
    pub open spec fn grant(self, payload: Seq<u8>, now: i64) -> Result<PrincipalView, AuthError> {
        match spec_unframe(payload) {
            None => Err(AuthError::Tampered),
            Some((issued_at, subject)) => if now - issued_at > self.max_age {
                Err(AuthError::Expired)
            } else {
                Ok(
                    PrincipalView {
                        subject,
                        expires_at: Some(session_end(issued_at, self.max_age)),
                    },
                )
            },
        }
    }

    /// What a presented cookie grants at `now`: `NoIdentity` where there is
    /// none, `Tampered` where it does not authenticate, `Expired` where more
    /// than the maximum age has passed since its issue, and else the
    /// principal that was sealed.
    pub open spec fn read(self, cookie: Option<Seq<u8>>, now: i64) -> Result<PrincipalView, AuthError> {
        match cookie {
            None => Err(AuthError::NoIdentity),
            Some(text) => match opened_cookie(self.key, text) {
                None => Err(AuthError::Tampered),
                Some(payload) => self.grant(payload, now),
            },
        }
    }
}

/// A presented cookie value, as a mathematical value.
pub open spec fn cookie_view(cookie: Option<&[u8]>) -> Option<Seq<u8>> {
    match cookie {
        Some(text) => Some(text@),
        None => None,
    }
}

/// The label that sets the session key apart from every other use of the
/// application's secret.
pub open spec fn session_label() -> Seq<u8> {
    seq![0x73u8, 0x65, 0x73, 0x73, 0x69, 0x6f, 0x6e, 0x2d, 0x6b, 0x65, 0x79]
}

/// The salt under which the session key is derived.
pub open spec fn session_salt(config: Config) -> Seq<u8> {
    encode_utf8(config.auth_salt@) + session_label()
}

/// Issues, reads and revokes session cookies.
pub struct SessionIdentity {
    key: Vec<u8>,
    max_age: u64,
}

impl SessionIdentity {
    #[verifier::type_invariant]
    spec fn key_fits_cipher(&self) -> bool {
        self.key@.len() == KEY_LENGTH
    }

    /// What the session holds.
    pub closed spec fn view(&self) -> SessionView {
        SessionView { key: self.key@, max_age: self.max_age }
    }

    /// A session under the given key, or `None` unless the key has 32 bytes.
    pub fn new(key: &[u8], max_age: u64) -> (session: Option<SessionIdentity>)
        ensures
            match session {
                Some(s) => s@ == (SessionView { key: key@, max_age }) && s@.wf(),
                None => key@.len() != KEY_LENGTH,
            },
    {
        if key.len() == KEY_LENGTH {
            Some(SessionIdentity { key: slice_to_vec(key), max_age })
        } else {
            None
        }
    }

    /// The session of a configuration: its key is derived from the
    /// application's secret under the application's salt, its maximum age is
    /// the configured one. `HashingFailed` where the secret or the salt is
    /// longer than can be hashed.
    pub fn from_config(config: &Config) -> (session: Result<SessionIdentity, AuthError>)
        ensures
            match session {
                Ok(s) => argon2_derived(encode_utf8(config.secret_key@), session_salt(*config))
                    == Some(s@.key) && s@.max_age == config.cookie_max_age && s@.wf(),
                Err(e) => e == AuthError::HashingFailed && argon2_derived(
                    encode_utf8(config.secret_key@),
                    session_salt(*config),
                ) is None,
            },
            session is Ok <==> encode_utf8(config.secret_key@).len() <= MAX_INPUT_LENGTH
                && session_salt(*config).len() <= MAX_INPUT_LENGTH,
    {
        let mut salt: Vec<u8> = Vec::new();
        salt.extend_from_slice(config.auth_salt.as_str().as_bytes());
        let label = vec![0x73u8, 0x65, 0x73, 0x73, 0x69, 0x6f, 0x6e, 0x2d, 0x6b, 0x65, 0x79];
        salt.extend_from_slice(label.as_slice());
        assert(label@ =~= session_label());
        assert(salt@ =~= session_salt(*config));
        match argon2_derive(config.secret_key.as_str().as_bytes(), salt.as_slice()) {
            Ok(key) => Ok(SessionIdentity { key, max_age: config.cookie_max_age }),
            Err(_) => Err(AuthError::HashingFailed),
        }
    }

    /// Seconds for which a cookie is accepted after its issue.
    pub fn max_age(&self) -> (seconds: u64)
        ensures
            seconds == self@.max_age,
            self@.wf(),
    {
        proof {
            use_type_invariant(self);
        }
        self.max_age
    }

    /// Seals `principal` and the time `now` into a cookie value. `nonce` is
    /// twelve bytes that the caller draws afresh for every cookie.
    pub fn issue(&self, principal: &Principal, now: i64, nonce: &[u8]) -> (cookie: Option<Vec<u8>>)
        ensures
            match cookie {
                Some(text) => self@.issue(principal@.subject, now, nonce@) == Some(text@),
                None => self@.issue(principal@.subject, now, nonce@) is None,
            },
            cookie is Some <==> nonce@.len() == NONCE_LENGTH && principal@.subject.len()
                <= MAX_SUBJECT_LENGTH,
            self@.wf(),
    {
        proof {
            use_type_invariant(self);
        }
        if nonce.len() != NONCE_LENGTH || principal.subject.len() > MAX_SUBJECT_LENGTH {
            return None;
        }
        let payload = frame(now, principal.subject.as_slice());
        match aead_seal(self.key.as_slice(), nonce, payload.as_slice()) {
            Ok(sealed) => {
                let mut raw: Vec<u8> = slice_to_vec(nonce);
                raw.extend_from_slice(sealed.as_slice());
                Some(encode(raw.as_slice()))
            },
            Err(_) => None,
        }
    }

    /// Opens a cookie value to the payload that was sealed in it.
    fn open(&self, text: &[u8]) -> (payload: Option<Vec<u8>>)
        ensures
            match payload {
                Some(p) => opened_cookie(self@.key, text@) == Some(p@),
                None => opened_cookie(self@.key, text@) is None,
            },
            forall|nonce: Seq<u8>, plaintext: Seq<u8>|
                nonce.len() == NONCE_LENGTH && #[trigger] sealed_cookie(
                    self@.key,
                    nonce,
                    plaintext,
                ) == Some(text@) ==> payload_is(payload, plaintext),
    {
        proof {
            use_type_invariant(self);
        }
        let raw = match decode(text) {
            Some(raw) => raw,
            None => {
                assert forall|nonce: Seq<u8>, plaintext: Seq<u8>|
                    nonce.len() == NONCE_LENGTH && #[trigger] sealed_cookie(
                        self@.key,
                        nonce,
                        plaintext,
                    ) == Some(text@) implies false by {
                    decode_inverts_encode(nonce + aead_sealed(self@.key, nonce, plaintext)->0);
                }
                return None;
            },
        };
        if raw.len() < NONCE_LENGTH {
            assert forall|nonce: Seq<u8>, plaintext: Seq<u8>|
                nonce.len() == NONCE_LENGTH && #[trigger] sealed_cookie(
                    self@.key,
                    nonce,
                    plaintext,
                ) == Some(text@) implies false by {
                decode_inverts_encode(nonce + aead_sealed(self@.key, nonce, plaintext)->0);
            }
            return None;
        }
        let head = slice_subrange(raw.as_slice(), 0, NONCE_LENGTH);
        let tail = slice_subrange(raw.as_slice(), NONCE_LENGTH, raw.len());
        assert(head@ =~= raw@.take(NONCE_LENGTH as int));
        assert(tail@ =~= raw@.skip(NONCE_LENGTH as int));
        let opened = match aead_open(self.key.as_slice(), head, tail) {
            Ok(payload) => Some(payload),
            Err(_) => None,
        };
        assert forall|nonce: Seq<u8>, plaintext: Seq<u8>|
            nonce.len() == NONCE_LENGTH && #[trigger] sealed_cookie(self@.key, nonce, plaintext)
                == Some(text@) implies payload_is(opened, plaintext) by {
            let sealed = aead_sealed(self@.key, nonce, plaintext)->0;
            decode_inverts_encode(nonce + sealed);
            assert((nonce + sealed).take(NONCE_LENGTH as int) =~= nonce);
            assert((nonce + sealed).skip(NONCE_LENGTH as int) =~= sealed);
        }
        opened
    }

    /// Reads the principal out of the cookie that was presented, if any.
    ///
    /// A cookie that this session issued for a subject grants that subject
    /// until more than the maximum age has passed since its issue, and is
    /// expired from then on.
    pub fn read(&self, cookie: Option<&[u8]>, now: i64) -> (r: Result<Principal, AuthError>)
        ensures
            outcome_view(r) == self@.read(cookie_view(cookie), now),
            self@.wf(),
            forall|subject: Seq<u8>, issued_at: i64, nonce: Seq<u8>|
                cookie is Some && #[trigger] self@.issue(subject, issued_at, nonce) == cookie_view(
                    cookie,
                ) ==> outcome_view(r) == (if now - issued_at > self@.max_age {
                    Err::<PrincipalView, AuthError>(AuthError::Expired)
                } else {
                    Ok::<PrincipalView, AuthError>(
                        PrincipalView {
                            subject,
                            expires_at: Some(session_end(issued_at, self@.max_age)),
                        },
                    )
                }),
    {
        proof {
            use_type_invariant(self);
        }
        let text = match cookie {
            Some(text) => text,
            None => {
                return Err(AuthError::NoIdentity);
            },
        };
        let opened = self.open(text);
        proof {
            assert forall|subject: Seq<u8>, issued_at: i64, nonce: Seq<u8>| #[trigger]
                self@.issue(subject, issued_at, nonce) == cookie_view(cookie) implies payload_is(
                opened,
                spec_frame(issued_at, subject),
            ) && spec_unframe(spec_frame(issued_at, subject)) == Some((issued_at, subject)) by {
                unframe_inverts_frame(issued_at, subject);
                assert(sealed_cookie(self@.key, nonce, spec_frame(issued_at, subject)) == Some(
                    text@,
                ));
            }
        }
        let payload = match opened {
            Some(payload) => payload,
            None => {
                return Err(AuthError::Tampered);
            },
        };
        let (issued_at, subject) = match unframe(payload.as_slice()) {
            Some(parts) => parts,
            None => {
                return Err(AuthError::Tampered);
            },
        };
        if now as i128 - issued_at as i128 > self.max_age as i128 {
            return Err(AuthError::Expired);
        }
        let end: i64 = if issued_at as i128 + self.max_age as i128 > i64::MAX as i128 {
            i64::MAX
        } else {
            (issued_at as i128 + self.max_age as i128) as i64
        };
        Ok(Principal { subject, expires_at: Some(end) })
    }

    /// Ends the session: the boundary layer is told to clear the cookie, and
    /// the caller is anonymous from then on. It makes no difference whether
    /// there was a session.
    pub fn revoke(&self) -> (change: CookieChange)
        ensures
            change@ == ChangeView::Clear,
    {
        CookieChange::Clear
    }

    /// Begins a session where a login was accepted: the cookie to set, or no
    /// change where the credentials were not accepted or `principal` cannot
    /// be sealed.
    pub fn login(&self, accepted: bool, principal: &Principal, now: i64, nonce: &[u8]) -> (change:
        CookieChange)
        ensures
            change@ == spec_login(self@, accepted, principal@.subject, now, nonce@),
    {
        if !accepted {
            return CookieChange::Keep;
        }
        match self.issue(principal, now, nonce) {
            Some(value) => CookieChange::Store(value),
            None => CookieChange::Keep,
        }
    }
}

/// What the boundary layer is told to do with the session cookie.
#[derive(Debug, PartialEq, Eq)]
pub enum CookieChange {
    /// Set the cookie to this value, with the attributes of the policy.
    Store(Vec<u8>),
    /// Clear the cookie.
    Clear,
    /// Leave the cookie as it is.
    Keep,
}

/// The mathematical form of a [`CookieChange`].
pub enum ChangeView {
    Store(Seq<u8>),
    Clear,
    Keep,
}

impl View for CookieChange {
    type V = ChangeView;

    open spec fn view(&self) -> ChangeView {
        match self {
            CookieChange::Store(value) => ChangeView::Store(value@),
            CookieChange::Clear => ChangeView::Clear,
            CookieChange::Keep => ChangeView::Keep,
        }
    }
}

/// What a login does to the cookie: set to a fresh session where the
/// credentials were accepted and the subject can be sealed, left alone
/// otherwise.
pub open spec fn spec_login(session: SessionView, accepted: bool, subject: Seq<u8>, now: i64, nonce: Seq<u8>) -> ChangeView {
    if accepted {
        match session.issue(subject, now, nonce) {
            Some(value) => ChangeView::Store(value),
            None => ChangeView::Keep,
        }
    } else {
        ChangeView::Keep
    }
}

/// Whether a caller is known.
pub enum SessionState {
    Anonymous,
    Authenticated(PrincipalView),
}

impl SessionState {
    /// The state after the boundary layer has carried out `change`, where
    /// `subject` logged in at `now` under a session of `max_age`.
    pub open spec fn after(self, change: ChangeView, subject: Seq<u8>, now: i64, max_age: u64) -> SessionState {
        match change {
            ChangeView::Store(_) => SessionState::Authenticated(
                PrincipalView { subject, expires_at: Some(session_end(now, max_age)) },
            ),
            ChangeView::Clear => SessionState::Anonymous,
            ChangeView::Keep => self,
        }
    }

    /// The state that a read of the cookie shows.
    pub open spec fn seen(outcome: Result<PrincipalView, AuthError>) -> SessionState {
        match outcome {
            Ok(principal) => SessionState::Authenticated(principal),
            Err(_) => SessionState::Anonymous,
        }
    }
}

/// Revoking twice is revoking once, and revoking an absent session leaves it
/// absent.
pub proof fn revoke_is_idempotent(state: SessionState, subject: Seq<u8>, now: i64, max_age: u64)
    ensures
        state.after(ChangeView::Clear, subject, now, max_age) == SessionState::Anonymous,
        state.after(ChangeView::Clear, subject, now, max_age).after(
            ChangeView::Clear,
            subject,
            now,
            max_age,
        ) == state.after(ChangeView::Clear, subject, now, max_age),
        SessionState::Anonymous.after(ChangeView::Clear, subject, now, max_age)
            == SessionState::Anonymous,
{
}

/// An anonymous caller becomes authenticated only by a login that was
/// accepted, and then as the subject that logged in; a rejected login leaves
/// every state as it was.
pub proof fn only_accepted_logins_authenticate(
    session: SessionView,
    accepted: bool,
    subject: Seq<u8>,
    now: i64,
    nonce: Seq<u8>,
)
    ensures
        SessionState::Anonymous.after(
            spec_login(session, accepted, subject, now, nonce),
            subject,
            now,
            session.max_age,
        ) != SessionState::Anonymous ==> accepted,
        !accepted ==> spec_login(session, accepted, subject, now, nonce) == ChangeView::Keep,
        accepted && nonce.len() == NONCE_LENGTH && subject.len() <= MAX_SUBJECT_LENGTH
            && session.issue(subject, now, nonce) is Some ==> SessionState::Anonymous.after(
            spec_login(session, accepted, subject, now, nonce),
            subject,
            now,
            session.max_age,
        ) == SessionState::Authenticated(
            PrincipalView { subject, expires_at: Some(session_end(now, session.max_age)) },
        ),
{
}

/// A cookie that does not open is tampered with, whatever the time: nothing
/// is granted, and nothing about its age is said.
pub proof fn unopened_cookies_are_tampered(session: SessionView, text: Seq<u8>, now: i64)
    requires
        opened_cookie(session.key, text) is None,
    ensures
        session.read(Some(text), now) == Err::<PrincipalView, AuthError>(AuthError::Tampered),
{
}

/// Text that is no encoding, or that is too short to hold a nonce, does not
/// open.
pub proof fn malformed_cookies_do_not_open(key: Seq<u8>, text: Seq<u8>)
    requires
        spec_decode(text) is None || spec_decode(text)->0.len() < NONCE_LENGTH,
    ensures
        opened_cookie(key, text) is None,
{
}

/// A session ends by itself: once more than the maximum age has passed, what
/// an authentic payload grants is `Expired`, and the caller is seen as
/// anonymous.
pub proof fn sessions_expire(session: SessionView, issued_at: i64, subject: Seq<u8>, now: i64)
    requires
        now - issued_at > session.max_age,
    ensures
        session.grant(spec_frame(issued_at, subject), now) == Err::<PrincipalView, AuthError>(
            AuthError::Expired,
        ),
        SessionState::seen(session.grant(spec_frame(issued_at, subject), now))
            == SessionState::Anonymous,
{
    unframe_inverts_frame(issued_at, subject);
}

/// Until then the payload grants the subject that was sealed, so a read
/// right after the issue does.
pub proof fn sessions_last(session: SessionView, issued_at: i64, subject: Seq<u8>, now: i64)
    requires
        now - issued_at <= session.max_age,
    ensures
        session.grant(spec_frame(issued_at, subject), now) == Ok::<PrincipalView, AuthError>(
            PrincipalView { subject, expires_at: Some(session_end(issued_at, session.max_age)) },
        ),
        session.grant(spec_frame(issued_at, subject), issued_at) is Ok,
{
    unframe_inverts_frame(issued_at, subject);
}

/// The attributes that the session cookie is set with.
#[derive(Debug, PartialEq, Eq)]
pub struct CookieAttributes {
    pub name: String,
    pub path: String,
    pub domain: String,
    /// Sent over secure transport only.
    pub secure: bool,
    /// Kept from scripts.
    pub http_only: bool,
    /// Seconds that the browser keeps the cookie.
    pub max_age: u64,
}

/// The attributes that the policy fixes: the cookie is named `auth`, scoped
/// to the root path and to the configured domain, sent over secure transport
/// only, and kept for the configured maximum age.
pub fn cookie_attributes(config: &Config) -> (attributes: CookieAttributes)
    ensures
        attributes.name@ == "auth"@,
        attributes.path@ == "/"@,
        attributes.domain@ == config.cookie_domain@,
        attributes.secure,
        attributes.http_only,
        attributes.max_age == config.cookie_max_age,
{
    CookieAttributes {
        name: "auth".to_owned(),
        path: "/".to_owned(),
        domain: config.cookie_domain.clone(),
        secure: true,
        http_only: true,
        max_age: config.cookie_max_age,
    }
}

} // verus!
