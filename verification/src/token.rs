//! Bearer tokens: three base64url segments joined by dots, a header that
//! names the signing key, a payload of claims, and a signature over the
//! first two segments.

use vstd::prelude::*;
use vstd::slice::{slice_subrange, slice_to_vec};
use vstd::utf8::encode_utf8;

use crate::base64url::{decode, spec_decode};
use crate::config::Config;
use crate::errors::AuthError;
use crate::json_object::{
    find, parse_object, spec_find, spec_parse_object, JsonValue, Member, MemberView, ValueView,
};
use crate::keyset::{
    answer_view, find_key, keys_view, spec_find_key, CacheView, Key, KeySetCache, KeyView,
};
use crate::principal::{outcome_view, Principal, PrincipalView};
use crate::signature::{signature_valid, spec_signature_valid};

verus! {

/// What a token must satisfy beyond its signature.
#[derive(Debug, PartialEq, Eq)]
pub struct ValidationPolicy {
    /// The issuer that the token must name.
    pub issuer: Vec<u8>,
    /// Seconds by which an expiry may lie in the past and still be accepted.
    pub clock_skew: u64,
}

/// The mathematical form of a [`ValidationPolicy`].
pub struct PolicyView {
    pub issuer: Seq<u8>,
    pub clock_skew: u64,
}

impl View for ValidationPolicy {
    type V = PolicyView;

    open spec fn view(&self) -> PolicyView {
        PolicyView { issuer: self.issuer@, clock_skew: self.clock_skew }
    }
}

impl ValidationPolicy {
    /// The policy that expects `issuer` and tolerates no clock skew.
    pub fn new(issuer: &[u8]) -> (policy: ValidationPolicy)
        ensures
            policy@ == (PolicyView { issuer: issuer@, clock_skew: 0 }),
    {
        ValidationPolicy { issuer: slice_to_vec(issuer), clock_skew: 0 }
    }

    /// The policy of a configuration: it expects the configured issuer and
    /// tolerates no clock skew.
    pub fn from_config(config: &Config) -> (policy: ValidationPolicy)
        ensures
            policy@ == (PolicyView { issuer: encode_utf8(config.token_issuer@), clock_skew: 0 }),
    {
        ValidationPolicy {
            issuer: slice_to_vec(config.token_issuer.as_str().as_bytes()),
            clock_skew: 0,
        }
    }

    /// The same policy with a tolerance of `seconds`.
    pub fn with_clock_skew(self, seconds: u64) -> (policy: ValidationPolicy)
        ensures
            policy@ == (PolicyView { issuer: self@.issuer, clock_skew: seconds }),
    {
        ValidationPolicy { issuer: self.issuer, clock_skew: seconds }
    }
}

/// The name of the header member that holds the key id.
pub open spec fn name_kid() -> Seq<u8> {
    seq![0x6bu8, 0x69, 0x64]
}

/// The name of the issuer claim.
pub open spec fn name_iss() -> Seq<u8> {
    seq![0x69u8, 0x73, 0x73]
}

/// The name of the subject claim.
pub open spec fn name_sub() -> Seq<u8> {
    seq![0x73u8, 0x75, 0x62]
}

/// The name of the expiry claim.
pub open spec fn name_exp() -> Seq<u8> {
    seq![0x65u8, 0x78, 0x70]
}

/// The first position from `i` on that holds a dot; the end where none does.
pub open spec fn dot_from(s: Seq<u8>, i: int) -> int
    decreases s.len() - i,
{
    if 0 <= i < s.len() && s[i] != 0x2e {
        dot_from(s, i + 1)
    } else {
        i
    }
}

/// The positions of the two dots of a token that is exactly three non-empty
/// segments.
pub open spec fn spec_dots(token: Seq<u8>) -> Option<(int, int)> {
    let a = dot_from(token, 0);
    let b = dot_from(token, a + 1);
    if 0 < a && a + 1 < b && b + 1 < token.len() && dot_from(token, b + 1) == token.len() {
        Some((a, b))
    } else {
        None
    }
}

/// Whether `s` holds no dot.
pub open spec fn dot_free(s: Seq<u8>) -> bool {
    forall|i: int| 0 <= i < s.len() ==> #[trigger] s[i] != 0x2e
}

/// A token splits exactly when it is three non-empty dot-free segments joined
/// by dots, and then at those dots.
pub open spec fn is_three_segments(token: Seq<u8>, a: int, b: int) -> bool {
    &&& 0 < a && a + 1 < b && b + 1 < token.len()
    &&& token[a] == 0x2e && token[b] == 0x2e
    &&& dot_free(token.subrange(0, a))
    &&& dot_free(token.subrange(a + 1, b))
    &&& dot_free(token.subrange(b + 1, token.len() as int))
}

/// Nothing between `i` and the next dot is a dot, and the next dot is one
/// unless it is the end.
pub proof fn dot_from_is_first(s: Seq<u8>, i: int)
    requires
        0 <= i <= s.len(),
    ensures
        i <= dot_from(s, i) <= s.len(),
        dot_from(s, i) < s.len() ==> s[dot_from(s, i)] == 0x2e,
        forall|k: int| i <= k < dot_from(s, i) ==> #[trigger] s[k] != 0x2e,
    decreases s.len() - i,
{
    if i < s.len() && s[i] != 0x2e {
        dot_from_is_first(s, i + 1);
    }
}

/// The first dot from `i` on is at `d` when nothing before `d` is a dot and
/// `d` is one or the end.
pub proof fn dot_from_is_unique(s: Seq<u8>, i: int, d: int)
    requires
        0 <= i <= d <= s.len(),
        forall|k: int| i <= k < d ==> #[trigger] s[k] != 0x2e,
        d < s.len() ==> s[d] == 0x2e,
    ensures
        dot_from(s, i) == d,
    decreases d - i,
{
    if i < d {
        dot_from_is_unique(s, i + 1, d);
    }
}

/// The split is the only way to read a token as three non-empty segments.
pub proof fn dots_are_the_segment_boundaries(token: Seq<u8>, a: int, b: int)
    ensures
        spec_dots(token) == Some((a, b)) <==> is_three_segments(token, a, b),
{
    let n = token.len() as int;
    if spec_dots(token) == Some((a, b)) {
        dot_from_is_first(token, 0);
        dot_from_is_first(token, a + 1);
        dot_from_is_first(token, b + 1);
        assert forall|i: int| 0 <= i < token.subrange(a + 1, b).len() implies #[trigger] token.subrange(
            a + 1,
            b,
        )[i] != 0x2e by {
            assert(token[a + 1 + i] != 0x2e);
        }
        assert forall|i: int| 0 <= i < token.subrange(b + 1, n).len() implies #[trigger] token.subrange(
            b + 1,
            n,
        )[i] != 0x2e by {
            assert(token[b + 1 + i] != 0x2e);
        }
        assert forall|i: int| 0 <= i < token.subrange(0, a).len() implies #[trigger] token.subrange(
            0,
            a,
        )[i] != 0x2e by {
            assert(token[i] != 0x2e);
        }
    }
    if is_three_segments(token, a, b) {
        assert forall|k: int| 0 <= k < a implies #[trigger] token[k] != 0x2e by {
            assert(token.subrange(0, a)[k] != 0x2e);
        }
        dot_from_is_unique(token, 0, a);
        assert forall|k: int| a + 1 <= k < b implies #[trigger] token[k] != 0x2e by {
            assert(token.subrange(a + 1, b)[k - a - 1] != 0x2e);
        }
        dot_from_is_unique(token, a + 1, b);
        assert forall|k: int| b + 1 <= k < n implies #[trigger] token[k] != 0x2e by {
            assert(token.subrange(b + 1, n)[k - b - 1] != 0x2e);
        }
        dot_from_is_unique(token, b + 1, n);
    }
}

/// Finds the next dot.
fn next_dot(s: &[u8], i: usize) -> (j: usize)
    requires
        i <= s@.len(),
    ensures
        j == dot_from(s@, i as int),
        i <= j <= s@.len(),
{
    let mut j = i;
    while j < s.len() && s[j] != 0x2e
        invariant
            i <= j <= s@.len(),
            dot_from(s@, i as int) == dot_from(s@, j as int),
        decreases s@.len() - j,
    {
        j = j + 1;
    }
    j
}

/// Finds the two dots of a token of three non-empty segments.
pub fn split(token: &[u8]) -> (dots: Option<(usize, usize)>)
    ensures
        match dots {
            Some((a, b)) => spec_dots(token@) == Some((a as int, b as int)) && a < b < token@.len(),
            None => spec_dots(token@) is None,
        },
{
    let n = token.len();
    let a = next_dot(token, 0);
    if a == 0 || a >= n {
        return None;
    }
    let b = next_dot(token, a + 1);
    if b <= a + 1 || b >= n || n - b <= 1 {
        return None;
    }
    let c = next_dot(token, b + 1);
    if c != n {
        return None;
    }
    Some((a, b))
}

/// A token taken apart, before anything in it is trusted.
#[derive(Debug, PartialEq, Eq)]
pub struct OpenedToken {
    /// The key id that the header names.
    pub key_id: Vec<u8>,
    /// What the signature is over: the first two segments with their dot.
    pub signed: Vec<u8>,
    /// The signature.
    pub signature: Vec<u8>,
    /// The payload, still undecoded claims.
    pub payload: Vec<u8>,
}

/// The mathematical form of an [`OpenedToken`].
pub struct OpenedView {
    pub key_id: Seq<u8>,
    pub signed: Seq<u8>,
    pub signature: Seq<u8>,
    pub payload: Seq<u8>,
}

impl View for OpenedToken {
    type V = OpenedView;

    open spec fn view(&self) -> OpenedView {
        OpenedView {
            key_id: self.key_id@,
            signed: self.signed@,
            signature: self.signature@,
            payload: self.payload@,
        }
    }
}

/// An opened token or the reason there is none, as a mathematical value.
pub open spec fn opened_view(r: Result<OpenedToken, AuthError>) -> Result<OpenedView, AuthError> {
    match r {
        Ok(opened) => Ok(opened@),
        Err(e) => Err(e),
    }
}

/// The key id that a decoded header names: the text of its `kid` member.
pub open spec fn spec_key_id(header: Seq<u8>) -> Option<Seq<u8>> {
    match spec_parse_object(header) {
        Some(members) => match spec_find(members, name_kid()) {
            Some(ValueView::Text(id)) => Some(id),
            _ => None,
        },
        None => None,
    }
}

/// A token taken apart: `Malformed` unless it is three non-empty segments
/// that each decode, with a header that is an object naming a key id.
pub open spec fn spec_open(token: Seq<u8>) -> Result<OpenedView, AuthError> {
    match spec_dots(token) {
        None => Err(AuthError::Malformed),
        Some((a, b)) => {
            let header = spec_decode(token.subrange(0, a));
            let payload = spec_decode(token.subrange(a + 1, b));
            let signature = spec_decode(token.subrange(b + 1, token.len() as int));
            if header is Some && payload is Some && signature is Some {
                match spec_key_id(header->0) {
                    Some(key_id) => Ok(
                        OpenedView {
                            key_id,
                            signed: token.subrange(0, b),
                            signature: signature->0,
                            payload: payload->0,
                        },
                    ),
                    None => Err(AuthError::Malformed),
                }
            } else {
                Err(AuthError::Malformed)
            }
        },
    }
}

/// What the claims grant at `now`: `ClaimInvalid` unless the issuer is the
/// expected one and the subject is a non-empty text, `Expired` where an
/// expiry lies further in the past than the skew allows, and otherwise the
/// principal that the subject names. An expiry that is no integer is an
/// invalid claim.
pub open spec fn spec_check_claims(claims: Seq<MemberView>, policy: PolicyView, now: i64) -> Result<
    PrincipalView,
    AuthError,
> {
    if spec_find(claims, name_iss()) != Some(ValueView::Text(policy.issuer)) {
        Err(AuthError::ClaimInvalid)
    } else {
        match spec_find(claims, name_sub()) {
            Some(ValueView::Text(subject)) => if subject.len() == 0 {
                Err(AuthError::ClaimInvalid)
            } else {
                match spec_find(claims, name_exp()) {
                    None => Ok(PrincipalView { subject, expires_at: None }),
                    Some(ValueView::Integer(exp)) => if now > exp + policy.clock_skew {
                        Err(AuthError::Expired)
                    } else {
                        Ok(PrincipalView { subject, expires_at: Some(exp as i64) })
                    },
                    Some(_) => Err(AuthError::ClaimInvalid),
                }
            },
            _ => Err(AuthError::ClaimInvalid),
        }
    }
}

/// What an opened token grants under `key`: `SignatureInvalid` unless the
/// signature verifies, `Malformed` where the payload is no object, and then
/// what its claims grant.
pub open spec fn spec_check(opened: OpenedView, key: KeyView, policy: PolicyView, now: i64) -> Result<
    PrincipalView,
    AuthError,
> {
    if !spec_signature_valid(key, opened.signed, opened.signature) {
        Err(AuthError::SignatureInvalid)
    } else {
        match spec_parse_object(opened.payload) {
            None => Err(AuthError::Malformed),
            Some(claims) => spec_check_claims(claims, policy, now),
        }
    }
}

/// What a token grants against a set of published keys.
pub open spec fn spec_validate(token: Seq<u8>, policy: PolicyView, keys: Seq<KeyView>, now: i64) -> Result<
    PrincipalView,
    AuthError,
> {
    match spec_open(token) {
        Err(e) => Err(e),
        Ok(opened) => match spec_find_key(keys, opened.key_id) {
            None => Err(AuthError::KeyNotFound),
            Some(key) => spec_check(opened, key, policy, now),
        },
    }
}

/// The claims of a token whose signature verifies under a published key.
pub open spec fn spec_verified_claims(token: Seq<u8>, keys: Seq<KeyView>) -> Option<Seq<MemberView>> {
    match spec_open(token) {
        Ok(opened) => match spec_find_key(keys, opened.key_id) {
            Some(key) => if spec_signature_valid(key, opened.signed, opened.signature) {
                spec_parse_object(opened.payload)
            } else {
                None
            },
            None => None,
        },
        Err(_) => None,
    }
}

/// Whether the claims name the issuer that the policy expects.
pub open spec fn issuer_matches(claims: Seq<MemberView>, policy: PolicyView) -> bool {
    spec_find(claims, name_iss()) == Some(ValueView::Text(policy.issuer))
}

/// The subject that the claims name: a text that is not empty.
pub open spec fn spec_subject(claims: Seq<MemberView>) -> Option<Seq<u8>> {
    match spec_find(claims, name_sub()) {
        Some(ValueView::Text(subject)) => if subject.len() > 0 {
            Some(subject)
        } else {
            None
        },
        _ => None,
    }
}

/// The expiry that the claims name, where it is an integer.
pub open spec fn spec_expiry(claims: Seq<MemberView>) -> Option<int> {
    match spec_find(claims, name_exp()) {
        Some(ValueView::Integer(exp)) => Some(exp),
        _ => None,
    }
}

/// Whether an outcome is the failure `error`.
pub open spec fn fails_with(outcome: Result<Principal, AuthError>, error: AuthError) -> bool {
    outcome_view(outcome) == Err::<PrincipalView, AuthError>(error)
}

fn kid_name() -> (name: Vec<u8>)
    ensures
        name@ == name_kid(),
{
    let name = vec![0x6bu8, 0x69, 0x64];
    assert(name@ =~= name_kid());
    name
}

fn iss_name() -> (name: Vec<u8>)
    ensures
        name@ == name_iss(),
{
    let name = vec![0x69u8, 0x73, 0x73];
    assert(name@ =~= name_iss());
    name
}

fn sub_name() -> (name: Vec<u8>)
    ensures
        name@ == name_sub(),
{
    let name = vec![0x73u8, 0x75, 0x62];
    assert(name@ =~= name_sub());
    name
}

fn exp_name() -> (name: Vec<u8>)
    ensures
        name@ == name_exp(),
{
    let name = vec![0x65u8, 0x78, 0x70];
    assert(name@ =~= name_exp());
    name
}

/// Reads the key id out of a decoded header.
pub fn key_id_of(header: &[u8]) -> (key_id: Option<Vec<u8>>)
    ensures
        match key_id {
            Some(id) => spec_key_id(header@) == Some(id@),
            None => spec_key_id(header@) is None,
        },
{
    let members = match parse_object(header) {
        Some(members) => members,
        None => {
            return None;
        },
    };
    let name = kid_name();
    match find(&members, name.as_slice()) {
        Some(JsonValue::Text(id)) => Some(slice_to_vec(id.as_slice())),
        _ => None,
    }
}

/// Takes a token apart without trusting anything in it.
pub fn open_token(token: &[u8]) -> (r: Result<OpenedToken, AuthError>)
    ensures
        opened_view(r) == spec_open(token@),
{
    let (a, b) = match split(token) {
        Some(dots) => dots,
        None => {
            return Err(AuthError::Malformed);
        },
    };
    let n = token.len();
    let header = decode(slice_subrange(token, 0, a));
    let payload = decode(slice_subrange(token, a + 1, b));
    let signature = decode(slice_subrange(token, b + 1, n));
    match (header, payload, signature) {
        (Some(header), Some(payload), Some(signature)) => {
            match key_id_of(header.as_slice()) {
                Some(key_id) => Ok(
                    OpenedToken {
                        key_id,
                        signed: slice_to_vec(slice_subrange(token, 0, b)),
                        signature,
                        payload,
                    },
                ),
                None => Err(AuthError::Malformed),
            }
        },
        _ => Err(AuthError::Malformed),
    }
}

/// Decides what a set of verified claims grants at `now`.
pub fn check_claims(claims: &Vec<Member>, policy: &ValidationPolicy, now: i64) -> (r: Result<
    Principal,
    AuthError,
>)
    ensures
        outcome_view(r) == spec_check_claims(crate::json_object::members_view(claims@), policy@, now),
{
    let iss = iss_name();
    let sub = sub_name();
    let exp = exp_name();
    match find(claims, iss.as_slice()) {
        Some(JsonValue::Text(issuer)) => {
            if !crate::json_object::same_bytes(issuer.as_slice(), policy.issuer.as_slice()) {
                return Err(AuthError::ClaimInvalid);
            }
        },
        _ => {
            return Err(AuthError::ClaimInvalid);
        },
    }
    let subject = match find(claims, sub.as_slice()) {
        Some(JsonValue::Text(subject)) => subject,
        _ => {
            return Err(AuthError::ClaimInvalid);
        },
    };
    if subject.len() == 0 {
        return Err(AuthError::ClaimInvalid);
    }
    match find(claims, exp.as_slice()) {
        None => Ok(Principal { subject: slice_to_vec(subject.as_slice()), expires_at: None }),
        Some(JsonValue::Integer(at)) => {
            if now as i128 > *at as i128 + policy.clock_skew as i128 {
                Err(AuthError::Expired)
            } else {
                Ok(Principal { subject: slice_to_vec(subject.as_slice()), expires_at: Some(*at) })
            }
        },
        Some(_) => Err(AuthError::ClaimInvalid),
    }
}

/// Decides what an opened token grants under the key that its header named.
pub fn check_token(opened: &OpenedToken, key: &Key, policy: &ValidationPolicy, now: i64) -> (r:
    Result<Principal, AuthError>)
    ensures
        outcome_view(r) == spec_check(opened@, key@, policy@, now),
{
    if !signature_valid(key, opened.signed.as_slice(), opened.signature.as_slice()) {
        return Err(AuthError::SignatureInvalid);
    }
    match parse_object(opened.payload.as_slice()) {
        None => Err(AuthError::Malformed),
        Some(claims) => check_claims(&claims, policy, now),
    }
}

/// Validates a bearer token against the published keys.
///
/// The steps fail in this order, and the first failure is the answer: the
/// token is malformed; its key is not published; its signature does not
/// verify; its payload is no object; a claim is invalid; it has expired.
pub fn validate(token: &[u8], policy: &ValidationPolicy, keys: &Vec<Key>, now: i64) -> (r: Result<
    Principal,
    AuthError,
>)
    ensures
        outcome_view(r) == spec_validate(token@, policy@, keys_view(keys@), now),
        // A string that is not three non-empty segments is malformed.
        spec_dots(token@) is None ==> fails_with(r, AuthError::Malformed),
        // A key that is not published is not found.
        spec_open(token@) matches Ok(opened) && spec_find_key(keys_view(keys@), opened.key_id)
            is None ==> fails_with(r, AuthError::KeyNotFound),
        // A signature that does not verify under the key is invalid, whatever
        // the claims say.
        spec_open(token@) matches Ok(opened) && spec_find_key(
            keys_view(keys@),
            opened.key_id,
        ) matches Some(key) && !spec_signature_valid(key, opened.signed, opened.signature)
            ==> fails_with(r, AuthError::SignatureInvalid),
        // Another issuer, or no subject, is an invalid claim.
        spec_verified_claims(token@, keys_view(keys@)) matches Some(claims) && (spec_find(
            claims,
            name_iss(),
        ) != Some(ValueView::Text(policy@.issuer)) || spec_find(claims, name_sub()) is None)
            ==> fails_with(r, AuthError::ClaimInvalid),
        // An expiry further in the past than the skew allows is expired, with
        // the signature and the other claims in order.
        spec_verified_claims(token@, keys_view(keys@)) matches Some(claims) ==> (issuer_matches(
            claims,
            policy@,
        ) && spec_subject(claims) is Some && spec_expiry(claims) is Some && spec_expiry(claims)->0
            + policy@.clock_skew < now ==> fails_with(r, AuthError::Expired)),
        // Success names the subject of claims that were verified.
        r matches Ok(principal) ==> spec_verified_claims(token@, keys_view(keys@)) is Some
            && spec_subject(spec_verified_claims(token@, keys_view(keys@))->0) == Some(
            principal@.subject,
        ),
{
    let opened = match open_token(token) {
        Ok(opened) => opened,
        Err(e) => {
            return Err(e);
        },
    };
    match find_key(keys, opened.key_id.as_slice()) {
        None => Err(AuthError::KeyNotFound),
        Some(key) => check_token(&opened, key, policy, now),
    }
}

/// What a token grants against the cache, and what the cache holds
/// afterwards, where `fetched` is what a fetch brings if one is made: none is
/// made for a malformed token, nor for a key that a fresh set holds.
pub open spec fn spec_validate_cached(
    token: Seq<u8>,
    policy: PolicyView,
    cache: CacheView,
    now: i64,
    fetched: crate::keyset::Fetched,
) -> (CacheView, Result<PrincipalView, AuthError>) {
    match spec_open(token) {
        Err(e) => (cache, Err(e)),
        Ok(opened) => {
            let (after, answer) = cache.get_key(opened.key_id, now, fetched);
            (
                after,
                match answer {
                    Ok(key) => spec_check(opened, key, policy, now),
                    Err(e) => Err(e),
                },
            )
        },
    }
}

/// Whether validating `token` against `cache` at `now` calls for a fetch.
pub open spec fn needs_fetch(token: Seq<u8>, cache: CacheView, now: i64) -> bool {
    spec_open(token) matches Ok(opened) && cache.lookup(opened.key_id, now) is None
}

/// Validates a bearer token against the cache, with what one fetch of the
/// key set brought: `Some` with the keys, `None` where the fetch failed.
pub fn validate_after(
    token: &[u8],
    policy: &ValidationPolicy,
    cache: &mut KeySetCache,
    now: i64,
    fetched: Option<Vec<Key>>,
) -> (r: Result<Principal, AuthError>)
    ensures
        (final(cache)@, outcome_view(r)) == spec_validate_cached(
            token@,
            policy@,
            old(cache)@,
            now,
            crate::keyset::fetched_view(fetched),
        ),
{
    let opened = match open_token(token) {
        Ok(opened) => opened,
        Err(e) => {
            return Err(e);
        },
    };
    match cache.get_key_after(opened.key_id.as_slice(), now, fetched) {
        Ok(key) => check_token(&opened, &key, policy, now),
        Err(e) => Err(e),
    }
}

/// What a token grants to a caller that has waited for somebody else's fetch
/// to end.
pub open spec fn spec_validate_settled(token: Seq<u8>, policy: PolicyView, cache: CacheView, now: i64) -> Result<
    PrincipalView,
    AuthError,
> {
    match spec_open(token) {
        Err(e) => Err(e),
        Ok(opened) => match cache.settle(opened.key_id, now) {
            Ok(key) => spec_check(opened, key, policy, now),
            Err(e) => Err(e),
        },
    }
}

/// Says whether validating `token` against `cache` calls for a fetch.
pub fn fetch_needed(token: &[u8], cache: &KeySetCache, now: i64) -> (needed: bool)
    ensures
        needed == needs_fetch(token@, cache@, now),
{
    match open_token(token) {
        Ok(opened) => cache.lookup(opened.key_id.as_slice(), now).is_none(),
        Err(_) => false,
    }
}

/// Validates a bearer token for a caller that was not granted the fetch and
/// has waited for it to end.
pub fn validate_settled(token: &[u8], policy: &ValidationPolicy, cache: &KeySetCache, now: i64) -> (r:
    Result<Principal, AuthError>)
    ensures
        outcome_view(r) == spec_validate_settled(token@, policy@, cache@, now),
{
    let opened = match open_token(token) {
        Ok(opened) => opened,
        Err(e) => {
            return Err(e);
        },
    };
    match cache.settle(opened.key_id.as_slice(), now) {
        Ok(key) => check_token(&opened, &key, policy, now),
        Err(e) => Err(e),
    }
}

/// Validates a bearer token against the cache, calling `fetch` once where
/// the key is not served out of a fresh set.
pub fn validate_cached<F: FnOnce() -> Option<Vec<Key>>>(
    token: &[u8],
    policy: &ValidationPolicy,
    cache: &mut KeySetCache,
    now: i64,
    fetch: F,
) -> (r: Result<Principal, AuthError>)
    requires
        fetch.requires(()),
    ensures
        needs_fetch(token@, old(cache)@, now) ==> exists|fetched: Option<Vec<Key>>|
            fetch.ensures((), fetched) && #[trigger] spec_validate_cached(
                token@,
                policy@,
                old(cache)@,
                now,
                crate::keyset::fetched_view(fetched),
            ) == (final(cache)@, outcome_view(r)),
        !needs_fetch(token@, old(cache)@, now) ==> (final(cache)@, outcome_view(r))
            == spec_validate_cached(
            token@,
            policy@,
            old(cache)@,
            now,
            crate::keyset::Fetched::Failed,
        ),
{
    let opened = match open_token(token) {
        Ok(opened) => opened,
        Err(e) => {
            return Err(e);
        },
    };
    let answer = cache.get_key(opened.key_id.as_slice(), now, fetch);
    let ghost seen = answer_view(answer);
    let r = match answer {
        Ok(key) => check_token(&opened, &key, policy, now),
        Err(e) => Err(e),
    };
    proof {
        if needs_fetch(token@, old(cache)@, now) {
            let brought = choose|fetched: Option<Vec<Key>>|
                fetch.ensures((), fetched) && #[trigger] old(cache)@.get_key(
                    opened.key_id@,
                    now,
                    crate::keyset::fetched_view(fetched),
                ) == (cache@, seen);
            assert(spec_validate_cached(
                token@,
                policy@,
                old(cache)@,
                now,
                crate::keyset::fetched_view(brought),
            ) == (cache@, outcome_view(r)));
        }
    }
    r
}

/// A token whose key the authority does not publish is answered with
/// `KeyNotFound` once a fetch has brought the published set, whatever else
/// the token holds, and the set that was brought is kept.
pub proof fn unpublished_key_is_not_found(
    token: Seq<u8>,
    policy: PolicyView,
    cache: CacheView,
    now: i64,
    published: Seq<KeyView>,
)
    requires
        needs_fetch(token, cache, now),
        published.len() > 0,
        spec_find_key(published, spec_open(token)->Ok_0.key_id) is None,
    ensures
        spec_validate_cached(token, policy, cache, now, crate::keyset::Fetched::Keys(published)).1
            == Err::<PrincipalView, AuthError>(AuthError::KeyNotFound),
        spec_validate_cached(
            token,
            policy,
            cache,
            now,
            crate::keyset::Fetched::Keys(published),
        ).0.keys == published,
{
}

/// The cache changes nothing in what a token grants: validation against the
/// cache answers as validation against the set that the cache serves, which
/// is the set that was just fetched where a fetch was needed, and the set
/// that is held where none was.
pub proof fn cached_validation_agrees(
    token: Seq<u8>,
    policy: PolicyView,
    cache: CacheView,
    now: i64,
    fetched: crate::keyset::Fetched,
)
    ensures
        needs_fetch(token, cache, now) ==> (fetched matches crate::keyset::Fetched::Keys(published)
            ==> (published.len() > 0 ==> spec_validate_cached(token, policy, cache, now, fetched).1
            == spec_validate(token, policy, published, now))),
        !needs_fetch(token, cache, now) ==> spec_validate_cached(token, policy, cache, now, fetched).1
            == spec_validate(token, policy, cache.keys, now),
        !needs_fetch(token, cache, now) ==> spec_validate_cached(token, policy, cache, now, fetched).0
            == cache,
{
}

/// A failed fetch fails the validation that needed it, unless the key is in a
/// set that is still within the grace window; and the cache keeps what it
/// held.
pub proof fn failed_fetch_fails_validation(token: Seq<u8>, policy: PolicyView, cache: CacheView, now: i64)
    requires
        needs_fetch(token, cache, now),
    ensures
        !cache.servable_stale(now) ==> spec_validate_cached(
            token,
            policy,
            cache,
            now,
            crate::keyset::Fetched::Failed,
        ).1 == Err::<PrincipalView, AuthError>(AuthError::FetchFailed),
        spec_validate_cached(token, policy, cache, now, crate::keyset::Fetched::Failed).0.keys
            == cache.keys,
        !spec_validate_cached(token, policy, cache, now, crate::keyset::Fetched::Failed).0.fetching,
{
}

} // verus!
