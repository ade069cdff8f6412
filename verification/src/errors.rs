//! The error taxonomy and how each kind is shown to the outside.

use vstd::prelude::*;

verus! {

/// Everything that can go wrong while establishing who the caller is.
///
/// The detailed kind is for internal logging. What leaves the process is
/// decided by [`AuthError::status_code`] and [`AuthError::external`].
#[derive(Clone, Copy, Debug, PartialEq, Eq, Structural)]
pub enum AuthError {
    /// A bearer token that is not three non-empty segments with a decodable
    /// header and payload.
    Malformed,
    /// The key id is not in the published key set.
    KeyNotFound,
    /// The signature does not verify under the key that was found.
    SignatureInvalid,
    /// The issuer is not the expected one, or the subject is missing.
    ClaimInvalid,
    /// The token or the session has outlived its time.
    Expired,
    /// A session cookie that does not authenticate.
    Tampered,
    /// No session cookie was presented.
    NoIdentity,
    /// The key set could not be fetched.
    FetchFailed,
    /// A password digest could not be derived.
    HashingFailed,
    /// A stored credential could not be decoded.
    VerificationFailed,
    /// The single failure that callers outside the process get to see.
    Unauthorized,
}

/// HTTP status for a failed authentication attempt.
pub const STATUS_UNAUTHORIZED: u16 = 401;

/// HTTP status for a failure of the system itself.
pub const STATUS_INTERNAL_ERROR: u16 = 500;

impl AuthError {
    /// Whether the failure is the system's own rather than a consequence of
    /// what the caller sent.
    pub open spec fn is_internal(self) -> bool {
        self == AuthError::FetchFailed || self == AuthError::HashingFailed
    }

    /// The status that the boundary layer answers with: 500 where the system
    /// could not do its work, 401 for every identity failure.
    pub open spec fn spec_status_code(self) -> u16 {
        if self.is_internal() {
            STATUS_INTERNAL_ERROR
        } else {
            STATUS_UNAUTHORIZED
        }
    }

    /// The kind that may be shown outside: internal failures stay what they
    /// are, every identity failure becomes `Unauthorized`.
    pub open spec fn spec_external(self) -> AuthError {
        if self.is_internal() {
            self
        } else {
            AuthError::Unauthorized
        }
    }

    pub fn status_code(&self) -> (code: u16)
        ensures
            code == self.spec_status_code(),
    {
        match self {
            AuthError::FetchFailed => STATUS_INTERNAL_ERROR,
            AuthError::HashingFailed => STATUS_INTERNAL_ERROR,
            _ => STATUS_UNAUTHORIZED,
        }
    }

    pub fn external(&self) -> (shown: AuthError)
        ensures
            shown == self.spec_external(),
    {
        match self {
            AuthError::FetchFailed => AuthError::FetchFailed,
            AuthError::HashingFailed => AuthError::HashingFailed,
            _ => AuthError::Unauthorized,
        }
    }
}

/// Two identity failures never differ in what the caller sees: neither in the
/// kind that is shown nor in the status.
pub proof fn identity_failures_look_alike(a: AuthError, b: AuthError)
    requires
        !a.is_internal(),
        !b.is_internal(),
    ensures
        a.spec_external() == b.spec_external(),
        a.spec_status_code() == b.spec_status_code(),
        a.spec_external() == AuthError::Unauthorized,
        a.spec_status_code() == STATUS_UNAUTHORIZED,
{
}

/// Collapsing an error twice shows what collapsing it once shows, and the
/// status is unchanged by it.
pub proof fn external_is_idempotent(e: AuthError)
    ensures
        e.spec_external().spec_external() == e.spec_external(),
        e.spec_external().spec_status_code() == e.spec_status_code(),
{
}

} // verus!
