//! The guard in front of protected operations: the one place where a request's
//! credentials are turned into a principal or into a refusal.

use vstd::prelude::*;
use vstd::slice::slice_subrange;

use vstd::utf8::encode_utf8;

use crate::auth::MAX_INPUT_LENGTH;
use crate::config::Config;
use crate::errors::AuthError;
use crate::keyset::{fetched_view, CacheView, Fetched, Key, KeySetCache};
use crate::principal::{outcome_view, Principal, PrincipalView};
use crate::session::{
    argon2_derived, cookie_view, session_salt, SessionIdentity, SessionView,
};
use crate::token::{
    fetch_needed, needs_fetch, spec_validate_cached, spec_validate_settled, validate_after,
    validate_cached, validate_settled, PolicyView, ValidationPolicy,
};

verus! {

/// What a request presents to prove who sent it.
#[derive(Clone, Copy, Debug, PartialEq, Eq)]
pub struct RequestCredentials<'a> {
    /// The bearer token of the `Authorization` header, if there is one.
    pub bearer: Option<&'a [u8]>,
    /// The value of the session cookie, if there is one.
    pub cookie: Option<&'a [u8]>,
}

/// Length of the scheme and the space that precede a bearer token.
pub const BEARER_PREFIX_LENGTH: usize = 7;

/// The lower-case form of an ASCII letter; every other byte as it is.
pub open spec fn lower(c: u8) -> u8 {
    if 0x41 <= c <= 0x5a {
        (c + 0x20) as u8
    } else {
        c
    }
}

/// The scheme of a bearer token and the space after it, in lower case.
pub open spec fn bearer_prefix() -> Seq<u8> {
    seq![0x62u8, 0x65, 0x61, 0x72, 0x65, 0x72, 0x20]
}

/// The token of an `Authorization` header value: what follows the scheme
/// `Bearer`, in any case, and one space, where anything follows.
pub open spec fn spec_bearer_token(header: Seq<u8>) -> Option<Seq<u8>> {
    if header.len() > BEARER_PREFIX_LENGTH && header.take(BEARER_PREFIX_LENGTH as int).map_values(
        |c: u8| lower(c),
    ) == bearer_prefix() {
        Some(header.skip(BEARER_PREFIX_LENGTH as int))
    } else {
        None
    }
}

fn lower_of(c: u8) -> (l: u8)
    ensures
        l == lower(c),
{
    if 0x41 <= c && c <= 0x5a {
        c + 0x20
    } else {
        c
    }
}

/// Takes the bearer token out of an `Authorization` header value.
pub fn bearer_token<'a>(header: &'a [u8]) -> (token: Option<&'a [u8]>)
    ensures
        cookie_view(token) == spec_bearer_token(header@),
{
    let n = header.len();
    let ghost head = header@.take(BEARER_PREFIX_LENGTH as int).map_values(|c: u8| lower(c));
    if n <= BEARER_PREFIX_LENGTH {
        return None;
    }
    if lower_of(header[0]) != 0x62 || lower_of(header[1]) != 0x65 || lower_of(header[2]) != 0x61
        || lower_of(header[3]) != 0x72 || lower_of(header[4]) != 0x65 || lower_of(header[5])
        != 0x72 || header[6] != 0x20 {
        proof {
            assert(head[0] == lower(header@[0]));
            assert(head[1] == lower(header@[1]));
            assert(head[2] == lower(header@[2]));
            assert(head[3] == lower(header@[3]));
            assert(head[4] == lower(header@[4]));
            assert(head[5] == lower(header@[5]));
            assert(head[6] == lower(header@[6]));
            let p = bearer_prefix();
            assert(p[0] == 0x62 && p[1] == 0x65 && p[2] == 0x61 && p[3] == 0x72 && p[4] == 0x65
                && p[5] == 0x72 && p[6] == 0x20);
        }
        return None;
    }
    assert(head =~= bearer_prefix());
    let token = slice_subrange(header, BEARER_PREFIX_LENGTH, n);
    assert(token@ =~= header@.skip(BEARER_PREFIX_LENGTH as int));
    Some(token)
}

/// Reads the credentials of a request off its `Authorization` header and its
/// session cookie.
pub fn credentials_of<'a>(authorization: Option<&'a [u8]>, cookie: Option<&'a [u8]>) -> (credentials:
    RequestCredentials<'a>)
    ensures
        cookie_view(credentials.bearer) == (match authorization {
            Some(header) => spec_bearer_token(header@),
            None => None,
        }),
        credentials.cookie == cookie,
{
    let bearer = match authorization {
        Some(header) => bearer_token(header),
        None => None,
    };
    RequestCredentials { bearer, cookie }
}

/// What the guard answers, given what the bearer token granted, if one was
/// presented, and what the session cookie granted.
///
/// The token is tried first and the cookie second; the first that grants a
/// principal decides. Where neither does, the refusal is `Unauthorized`,
/// unless the token could not be validated because the system itself failed:
/// then that failure is the answer.
pub open spec fn spec_decide(
    bearer: Option<Result<PrincipalView, AuthError>>,
    cookie: Result<PrincipalView, AuthError>,
) -> Result<PrincipalView, AuthError> {
    match bearer {
        Some(Ok(principal)) => Ok(principal),
        Some(Err(e)) => match cookie {
            Ok(principal) => Ok(principal),
            Err(_) => Err(e.spec_external()),
        },
        None => match cookie {
            Ok(principal) => Ok(principal),
            Err(e) => Err(e.spec_external()),
        },
    }
}

/// An outcome that may be absent, as a mathematical value.
pub open spec fn bearer_view(outcome: Option<Result<Principal, AuthError>>) -> Option<
    Result<PrincipalView, AuthError>,
> {
    match outcome {
        Some(r) => Some(outcome_view(r)),
        None => None,
    }
}

/// Decides on the outcomes of the two validations.
pub fn decide(bearer: Option<Result<Principal, AuthError>>, cookie: Result<Principal, AuthError>) -> (r:
    Result<Principal, AuthError>)
    ensures
        outcome_view(r) == spec_decide(bearer_view(bearer), outcome_view(cookie)),
{
    match bearer {
        Some(Ok(principal)) => Ok(principal),
        Some(Err(e)) => match cookie {
            Ok(principal) => Ok(principal),
            Err(_) => Err(e.external()),
        },
        None => match cookie {
            Ok(principal) => Ok(principal),
            Err(e) => Err(e.external()),
        },
    }
}

/// A refusal tells nothing of why: it is `Unauthorized`, or the
/// failure of the system itself.
pub proof fn refusals_tell_nothing(
    bearer: Option<Result<PrincipalView, AuthError>>,
    cookie: Result<PrincipalView, AuthError>,
)
    ensures
        spec_decide(bearer, cookie) matches Err(e) ==> e == AuthError::Unauthorized
            || e.is_internal(),
        spec_decide(bearer, cookie) matches Err(e) ==> e.spec_external() == e,
        bearer is None && cookie is Err ==> (cookie->Err_0.is_internal() || spec_decide(
            bearer,
            cookie,
        ) == Err::<PrincipalView, AuthError>(AuthError::Unauthorized)),
{
}

/// The guard grants exactly what one of the two validations granted, the
/// token's before the cookie's; it refuses exactly when neither granted
/// anything.
pub proof fn grants_come_from_a_validation(
    bearer: Option<Result<PrincipalView, AuthError>>,
    cookie: Result<PrincipalView, AuthError>,
)
    ensures
        spec_decide(bearer, cookie) matches Ok(p) ==> bearer == Some(
            Ok::<PrincipalView, AuthError>(p),
        ) || cookie == Ok::<PrincipalView, AuthError>(p),
        bearer matches Some(Ok(p)) ==> spec_decide(bearer, cookie) == Ok::<
            PrincipalView,
            AuthError,
        >(p),
        spec_decide(bearer, cookie) is Err <==> !(bearer matches Some(Ok(_))) && cookie is Err,
{
}

/// What the guard holds, as a mathematical value.
pub struct GateView {
    pub policy: PolicyView,
    pub session: SessionView,
}

impl GateView {
    /// What the guard answers to a request, and what the cache holds
    /// afterwards, where `fetched` is what a fetch brings if one is made.
    pub open spec fn authorize(
        self,
        bearer: Option<Seq<u8>>,
        cookie: Option<Seq<u8>>,
        cache: CacheView,
        now: i64,
        fetched: Fetched,
    ) -> (CacheView, Result<PrincipalView, AuthError>) {
        match bearer {
            Some(token) => {
                let (after, outcome) = spec_validate_cached(token, self.policy, cache, now, fetched);
                (after, spec_decide(Some(outcome), self.session.read(cookie, now)))
            },
            None => (cache, spec_decide(None, self.session.read(cookie, now))),
        }
    }

    /// Whether answering the request calls for a fetch of the key set.
    pub open spec fn needs_fetch(bearer: Option<Seq<u8>>, cache: CacheView, now: i64) -> bool {
        match bearer {
            Some(token) => needs_fetch(token, cache, now),
            None => false,
        }
    }

    /// What is answered to a request whose sender has waited for somebody
    /// else's fetch to end.
    pub open spec fn settle(
        self,
        bearer: Option<Seq<u8>>,
        cookie: Option<Seq<u8>>,
        cache: CacheView,
        now: i64,
    ) -> Result<PrincipalView, AuthError> {
        match bearer {
            Some(token) => spec_decide(
                Some(spec_validate_settled(token, self.policy, cache, now)),
                self.session.read(cookie, now),
            ),
            None => spec_decide(None, self.session.read(cookie, now)),
        }
    }
}

/// A request whose sender waited for a fetch is answered as the request of
/// the sender who performed it would be.
pub proof fn waiting_requests_get_the_same_answer(
    guard: GateView,
    bearer: Option<Seq<u8>>,
    cookie: Option<Seq<u8>>,
    cache: CacheView,
    now: i64,
    fetched: Fetched,
)
    requires
        GateView::needs_fetch(bearer, cache, now),
    ensures
        guard.settle(bearer, cookie, guard.authorize(bearer, cookie, cache, now, fetched).0, now)
            == guard.authorize(bearer, cookie, cache, now, fetched).1,
{
    let token = bearer->0;
    let opened = crate::token::spec_open(token)->Ok_0;
    crate::keyset::waiting_callers_get_the_same_answer(cache, opened.key_id, now, fetched);
}

/// The guard that protected operations depend on.
pub struct AuthGate {
    pub policy: ValidationPolicy,
    pub session: SessionIdentity,
}

impl View for AuthGate {
    type V = GateView;

    open spec fn view(&self) -> GateView {
        GateView { policy: self.policy@, session: self.session@ }
    }
}

impl AuthGate {
    pub fn new(policy: ValidationPolicy, session: SessionIdentity) -> (gate: AuthGate)
        ensures
            gate@ == (GateView { policy: policy@, session: session@ }),
    {
        AuthGate { policy, session }
    }

    /// The guard of a configuration: its policy expects the configured
    /// issuer, its session is the one of the configuration. `HashingFailed`
    /// where the session key cannot be derived.
    pub fn from_config(config: &Config) -> (guard: Result<AuthGate, AuthError>)
        ensures
            match guard {
                Ok(g) => g@.policy == (PolicyView {
                    issuer: encode_utf8(config.token_issuer@),
                    clock_skew: 0,
                }) && argon2_derived(encode_utf8(config.secret_key@), session_salt(*config))
                    == Some(g@.session.key) && g@.session.max_age == config.cookie_max_age
                    && g@.session.wf(),
                Err(e) => e == AuthError::HashingFailed,
            },
            guard is Ok <==> encode_utf8(config.secret_key@).len() <= MAX_INPUT_LENGTH
                && session_salt(*config).len() <= MAX_INPUT_LENGTH,
    {
        match SessionIdentity::from_config(config) {
            Ok(session) => Ok(AuthGate { policy: ValidationPolicy::from_config(config), session }),
            Err(e) => Err(e),
        }
    }

    /// Says whether answering the request calls for a fetch of the key set.
    pub fn needs_fetch(&self, credentials: &RequestCredentials, cache: &KeySetCache, now: i64) -> (needed:
        bool)
        ensures
            needed == GateView::needs_fetch(cookie_view(credentials.bearer), cache@, now),
    {
        match credentials.bearer {
            Some(token) => fetch_needed(token, cache, now),
            None => false,
        }
    }

    /// Answers a request whose sender was not granted the fetch and has
    /// waited for it to end.
    pub fn authorize_settled(&self, credentials: &RequestCredentials, cache: &KeySetCache, now: i64) -> (r:
        Result<Principal, AuthError>)
        ensures
            outcome_view(r) == self@.settle(
                cookie_view(credentials.bearer),
                cookie_view(credentials.cookie),
                cache@,
                now,
            ),
    {
        let bearer = match credentials.bearer {
            Some(token) => Some(validate_settled(token, &self.policy, cache, now)),
            None => None,
        };
        let cookie = self.session.read(credentials.cookie, now);
        decide(bearer, cookie)
    }

    /// Answers a request with what one fetch of the key set brought: `Some`
    /// with the keys, `None` where the fetch failed.
    pub fn authorize_after(
        &self,
        credentials: &RequestCredentials,
        cache: &mut KeySetCache,
        now: i64,
        fetched: Option<Vec<Key>>,
    ) -> (r: Result<Principal, AuthError>)
        ensures
            (final(cache)@, outcome_view(r)) == self@.authorize(
                cookie_view(credentials.bearer),
                cookie_view(credentials.cookie),
                old(cache)@,
                now,
                fetched_view(fetched),
            ),
    {
        let bearer = match credentials.bearer {
            Some(token) => Some(validate_after(token, &self.policy, cache, now, fetched)),
            None => None,
        };
        let cookie = self.session.read(credentials.cookie, now);
        decide(bearer, cookie)
    }

    /// Answers a request, calling `fetch` once where a bearer token names a
    /// key that is not served out of a fresh set.
    pub fn authorize<F: FnOnce() -> Option<Vec<Key>>>(
        &self,
        credentials: &RequestCredentials,
        cache: &mut KeySetCache,
        now: i64,
        fetch: F,
    ) -> (r: Result<Principal, AuthError>)
        requires
            fetch.requires(()),
        ensures
            GateView::needs_fetch(cookie_view(credentials.bearer), old(cache)@, now) ==> exists|
                fetched: Option<Vec<Key>>,
            |
                fetch.ensures((), fetched) && #[trigger] self@.authorize(
                    cookie_view(credentials.bearer),
                    cookie_view(credentials.cookie),
                    old(cache)@,
                    now,
                    fetched_view(fetched),
                ) == (final(cache)@, outcome_view(r)),
            !GateView::needs_fetch(cookie_view(credentials.bearer), old(cache)@, now) ==> (
                final(cache)@,
                outcome_view(r),
            ) == self@.authorize(
                cookie_view(credentials.bearer),
                cookie_view(credentials.cookie),
                old(cache)@,
                now,
                Fetched::Failed,
            ),
            r matches Err(e) ==> e == AuthError::Unauthorized || e.is_internal(),
    {
        match credentials.bearer {
            Some(token) => {
                let outcome = validate_cached(token, &self.policy, cache, now, fetch);
                let ghost seen = outcome_view(outcome);
                let cookie = self.session.read(credentials.cookie, now);
                let r = decide(Some(outcome), cookie);
                proof {
                    if needs_fetch(token@, old(cache)@, now) {
                        let brought = choose|fetched: Option<Vec<Key>>|
                            fetch.ensures((), fetched) && #[trigger] spec_validate_cached(
                                token@,
                                self.policy@,
                                old(cache)@,
                                now,
                                fetched_view(fetched),
                            ) == (cache@, seen);
                        assert(self@.authorize(
                            cookie_view(credentials.bearer),
                            cookie_view(credentials.cookie),
                            old(cache)@,
                            now,
                            fetched_view(brought),
                        ) == (cache@, outcome_view(r)));
                    }
                }
                r
            },
            None => {
                let cookie = self.session.read(credentials.cookie, now);
                decide(None, cookie)
            },
        }
    }
}

} // verus!
