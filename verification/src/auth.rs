//! Password digests: derived with Argon2 under the application's secret,
//! checked against a stored credential.

use vstd::prelude::*;
use vstd::string::StringSliceAdditionalSpecFns;
use vstd::utf8::encode_utf8;

use crate::config::Config;
use crate::errors::AuthError;

verus! {

/// The error of the `argon2` crate, carried through unread.
#[verifier::external_type_specification]
#[verifier::external_body]
pub struct ExArgon2Error(argon2::Error);

/// The encoded digest that `argon2::hash_encoded` gives for a password, a
/// salt, a secret key and a number of passes, with every other setting at the
/// crate's default; `None` where it refuses the input.
pub uninterp spec fn argon2_encoded(
    password: Seq<u8>,
    salt: Seq<u8>,
    secret: Seq<u8>,
    passes: u32,
) -> Option<Seq<char>>;

/// What `argon2::verify_encoded_ext` answers for an encoded digest, a
/// password and a secret key, without associated data; `None` where it cannot
/// decode the digest or refuses what it decoded.
pub uninterp spec fn argon2_verdict(encoded: Seq<char>, password: Seq<u8>, secret: Seq<u8>) -> Option<
    bool,
>;

/// Shortest salt that Argon2 accepts, in bytes.
pub const MIN_SALT_LENGTH: usize = 8;

/// Longest password, salt or secret that Argon2 accepts, in bytes.
pub const MAX_INPUT_LENGTH: usize = 0xffff_ffff;

/// The inputs that Argon2 hashes: at least one pass, a salt of eight bytes or
/// more, and nothing longer than 32 bits can count.
pub open spec fn argon2_accepts(password: Seq<u8>, salt: Seq<u8>, secret: Seq<u8>, passes: u32) -> bool {
    &&& passes >= 1
    &&& MIN_SALT_LENGTH <= salt.len() <= MAX_INPUT_LENGTH
    &&& password.len() <= MAX_INPUT_LENGTH
    &&& secret.len() <= MAX_INPUT_LENGTH
}

/// Whether `encoded` is a digest of `password` under `secret`, for some salt
/// and some number of passes.
pub open spec fn is_digest_of(encoded: Seq<char>, password: Seq<u8>, secret: Seq<u8>) -> bool {
    exists|salt: Seq<u8>, passes: u32| #[trigger]
        argon2_encoded(password, salt, secret, passes) == Some(encoded)
}

/// Calls `argon2::hash_encoded` with the default configuration, but for the
/// secret key and the number of passes.
///
/// Trusted: the result is a function of the four arguments, and the call
/// succeeds exactly on the inputs that pass the crate's own validation of
/// lengths and passes.
#[verifier::external_body]
fn argon2_hash(password: &[u8], salt: &[u8], secret: &[u8], passes: u32) -> (r: Result<
    String,
    argon2::Error,
>)
    ensures
        match r {
            Ok(encoded) => argon2_encoded(password@, salt@, secret@, passes) == Some(encoded@),
            Err(_) => argon2_encoded(password@, salt@, secret@, passes) is None,
        },
        r is Ok <==> argon2_accepts(password@, salt@, secret@, passes),
{
    let config = argon2::Config { secret, time_cost: passes, ..argon2::Config::default() };
    argon2::hash_encoded(password, salt, &config)
}

/// Calls `argon2::verify_encoded_ext` without associated data.
///
/// Trusted: the result is a function of the three arguments, and a digest
/// that `argon2::hash_encoded` gave for this password under this secret is
/// decoded and found to match.
#[verifier::external_body]
fn argon2_verify(encoded: &str, password: &[u8], secret: &[u8]) -> (r: Result<bool, argon2::Error>)
    ensures
        match r {
            Ok(matches) => argon2_verdict(encoded@, password@, secret@) == Some(matches),
            Err(_) => argon2_verdict(encoded@, password@, secret@) is None,
        },
        is_digest_of(encoded@, password@, secret@) ==> r matches Ok(true),
{
    argon2::verify_encoded_ext(encoded, password, secret, &[])
}

/// The salt of one digest: the application's salt, then the bytes that are
/// fresh for this call.
pub open spec fn password_salt(config: Config, nonce: Seq<u8>) -> Seq<u8> {
    encode_utf8(config.auth_salt@) + nonce
}

/// The credential that hashing yields, or `HashingFailed` where the
/// configuration or the sizes are not ones that Argon2 accepts.
pub open spec fn spec_hash_password(password: Seq<u8>, nonce: Seq<u8>, config: Config) -> Result<
    Seq<char>,
    AuthError,
> {
    match argon2_encoded(
        password,
        password_salt(config, nonce),
        encode_utf8(config.secret_key@),
        config.hash_cost,
    ) {
        Some(encoded) => Ok(encoded),
        None => Err(AuthError::HashingFailed),
    }
}

/// Whether a stored credential matches a password, or `VerificationFailed`
/// where the credential cannot be decoded.
pub open spec fn spec_verify(hash: Seq<char>, password: Seq<u8>, config: Config) -> Result<
    bool,
    AuthError,
> {
    match argon2_verdict(hash, password, encode_utf8(config.secret_key@)) {
        Some(matches) => Ok(matches),
        None => Err(AuthError::VerificationFailed),
    }
}

/// Derives the credential to store for `password`.
///
/// The digest is salted with the application's salt followed by `nonce`,
/// which the caller draws afresh for every call, and keyed with the
/// application's secret. It fails only on the configuration and on sizes,
/// never on what the password holds.
pub fn hash_password(password: &str, nonce: &[u8], config: &Config) -> (r: Result<String, AuthError>)
    ensures
        match r {
            Ok(encoded) => spec_hash_password(password.spec_bytes(), nonce@, *config) == Ok::<
                Seq<char>,
                AuthError,
            >(encoded@),
            Err(e) => spec_hash_password(password.spec_bytes(), nonce@, *config) == Err::<
                Seq<char>,
                AuthError,
            >(e),
        },
        r is Ok <==> argon2_accepts(
            password.spec_bytes(),
            password_salt(*config, nonce@),
            encode_utf8(config.secret_key@),
            config.hash_cost,
        ),
        r is Err ==> r == Err::<String, AuthError>(AuthError::HashingFailed),
{
    let mut salt: Vec<u8> = Vec::new();
    salt.extend_from_slice(config.auth_salt.as_str().as_bytes());
    salt.extend_from_slice(nonce);
    assert(salt@ =~= password_salt(*config, nonce@));
    match argon2_hash(
        password.as_bytes(),
        salt.as_slice(),
        config.secret_key.as_str().as_bytes(),
        config.hash_cost,
    ) {
        Ok(encoded) => Ok(encoded),
        Err(_) => Err(AuthError::HashingFailed),
    }
}

/// Checks `password` against the stored credential `hash`.
///
/// A credential that decodes but does not match gives `Ok(false)`; only one
/// that cannot be decoded gives `VerificationFailed`. A credential that
/// `hash_password` gave for this password under this secret always matches.
pub fn verify(hash: &str, password: &str, config: &Config) -> (r: Result<bool, AuthError>)
    ensures
        r == spec_verify(hash@, password.spec_bytes(), *config),
        is_digest_of(hash@, password.spec_bytes(), encode_utf8(config.secret_key@)) ==> r == Ok::<
            bool,
            AuthError,
        >(true),
        forall|nonce: Seq<u8>| #[trigger]
            spec_hash_password(password.spec_bytes(), nonce, *config) == Ok::<Seq<char>, AuthError>(
                hash@,
            ) ==> r == Ok::<bool, AuthError>(true),
{
    let r = match argon2_verify(hash, password.as_bytes(), config.secret_key.as_str().as_bytes()) {
        Ok(matches) => Ok(matches),
        Err(_) => Err(AuthError::VerificationFailed),
    };
    assert forall|nonce: Seq<u8>| #[trigger]
        spec_hash_password(password.spec_bytes(), nonce, *config) == Ok::<Seq<char>, AuthError>(
            hash@,
        ) implies r == Ok::<bool, AuthError>(true) by {
        assert(argon2_encoded(
            password.spec_bytes(),
            password_salt(*config, nonce),
            encode_utf8(config.secret_key@),
            config.hash_cost,
        ) == Some(hash@));
    }
    r
}

/// What the caller of a login is told: whether the credentials were accepted,
/// and nothing of why they were not.
pub open spec fn spec_credentials_accepted(outcome: Result<bool, AuthError>) -> bool {
    outcome == Ok::<bool, AuthError>(true)
}

/// Whether hashing succeeds never depends on what the password holds: under
/// one configuration and one fresh salt, any two passwords that are not too
/// long to be counted are hashed or refused alike.
pub proof fn password_content_never_fails(
    first: Seq<u8>,
    second: Seq<u8>,
    nonce: Seq<u8>,
    config: Config,
)
    requires
        first.len() <= MAX_INPUT_LENGTH,
        second.len() <= MAX_INPUT_LENGTH,
    ensures
        argon2_accepts(
            first,
            password_salt(config, nonce),
            encode_utf8(config.secret_key@),
            config.hash_cost,
        ) == argon2_accepts(
            second,
            password_salt(config, nonce),
            encode_utf8(config.secret_key@),
            config.hash_cost,
        ),
{
}

/// A wrong password and a corrupt record are told apart by [`verify`] and
/// look the same once collapsed: both are refused.
pub proof fn refusals_look_alike(error: AuthError)
    ensures
        Ok::<bool, AuthError>(false) != Err::<bool, AuthError>(error),
        spec_credentials_accepted(Ok(false)) == spec_credentials_accepted(Err(error)),
        !spec_credentials_accepted(Err(error)),
{
}

/// Collapses the outcome of [`verify`] to what may be shown: a wrong password
/// and a corrupt record look the same.
pub fn credentials_accepted(outcome: Result<bool, AuthError>) -> (accepted: bool)
    ensures
        accepted == spec_credentials_accepted(outcome),
{
    match outcome {
        Ok(matches) => matches,
        Err(_) => false,
    }
}

} // verus!
