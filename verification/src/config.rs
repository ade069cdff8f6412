//! Process-wide configuration: an immutable value that is built once and
//! handed by reference to the components that need it.

use vstd::prelude::*;
use vstd::string::StringSliceAdditionalSpecFns;

verus! {

/// Passes over memory used to hash a password when none is configured.
pub const DEFAULT_HASH_COST: u32 = 3;

/// Seconds a session lives when none is configured: one day.
pub const DEFAULT_COOKIE_MAX_AGE: u64 = 86400;

/// What the process is configured with.
#[derive(Clone, Debug)]
pub struct Config {
    /// Application-wide salt, the first part of every password salt.
    pub auth_salt: String,
    /// Application-wide secret: the pepper of password digests and the
    /// source of the session key.
    pub secret_key: String,
    pub database_url: String,
    pub rust_backtrace: u8,
    /// Base URL of the authority that publishes the signing keys.
    pub authority_url: String,
    /// Issuer that bearer tokens must name.
    pub token_issuer: String,
    /// Domain that the session cookie is scoped to.
    pub cookie_domain: String,
    /// Seconds after which a session cookie is no longer accepted.
    pub cookie_max_age: u64,
    /// Passes over memory for password hashing.
    pub hash_cost: u32,
}

/// Whether `b` is an ASCII decimal digit.
pub open spec fn is_digit(b: u8) -> bool {
    0x30 <= b <= 0x39
}

/// Whether `s` is one or more decimal digits.
pub open spec fn is_digits(s: Seq<u8>) -> bool {
    s.len() > 0 && forall|i: int| 0 <= i < s.len() ==> is_digit(#[trigger] s[i])
}

/// The number that a run of decimal digits writes.
pub open spec fn digits_value(s: Seq<u8>) -> nat
    decreases s.len(),
{
    if s.len() == 0 {
        0
    } else {
        digits_value(s.drop_last()) * 10 + (s.last() - 0x30) as nat
    }
}

/// The digits of an unsigned setting: the text without an optional leading
/// plus sign.
pub open spec fn unsigned_digits(s: Seq<u8>) -> Seq<u8> {
    if s.len() > 0 && s[0] == 0x2b {
        s.skip(1)
    } else {
        s
    }
}

/// What a setting means as an unsigned number of at most `max`: an optional
/// plus sign, then digits only, and a value within the bound.
pub open spec fn unsigned_setting(s: Seq<u8>, max: nat) -> Option<nat> {
    let digits = unsigned_digits(s);
    if is_digits(digits) && digits_value(digits) <= max {
        Some(digits_value(digits))
    } else {
        None
    }
}

/// A longer run of digits never writes a smaller number.
pub proof fn digits_value_monotonic(s: Seq<u8>, n: int)
    requires
        0 <= n <= s.len(),
        forall|i: int| 0 <= i < s.len() ==> is_digit(#[trigger] s[i]),
    ensures
        digits_value(s.take(n)) <= digits_value(s),
    decreases s.len() - n,
{
    if n == s.len() {
        assert(s.take(n) =~= s);
    } else {
        digits_value_monotonic(s, n + 1);
        let t = s.take(n + 1);
        assert(t.drop_last() =~= s.take(n));
        assert(is_digit(t.last()));
    }
}

/// Reads an unsigned decimal setting of at most `max`.
pub fn parse_unsigned(text: &[u8], max: u64) -> (value: Option<u64>)
    ensures
        match value {
            Some(v) => unsigned_setting(text@, max as nat) == Some(v as nat),
            None => unsigned_setting(text@, max as nat) is None,
        },
{
    let start: usize = if text.len() > 0 && text[0] == 0x2b {
        1
    } else {
        0
    };
    let ghost digits = unsigned_digits(text@);
    assert(digits =~= text@.skip(start as int));
    if start == text.len() {
        return None;
    }
    let mut acc: u64 = 0;
    let mut i: usize = start;
    while i < text.len()
        invariant
            start <= i <= text.len(),
            digits == text@.skip(start as int),
            digits == unsigned_digits(text@),
            digits.len() > 0,
            forall|j: int| 0 <= j < i - start ==> is_digit(#[trigger] digits[j]),
            acc as nat == digits_value(digits.take(i - start)),
            acc <= max,
        decreases text.len() - i,
    {
        let b = text[i];
        assert(digits[i - start] == b);
        if b < 0x30 || b > 0x39 {
            assert(!is_digit(digits[i - start]));
            return None;
        }
        let d: u64 = (b - 0x30) as u64;
        proof {
            let t = digits.take(i - start + 1);
            assert(t.drop_last() =~= digits.take(i - start));
            assert(t.last() == b);
            assert(digits_value(t) == acc * 10 + d);
            if is_digits(digits) {
                digits_value_monotonic(digits, i - start + 1);
            }
        }
        if acc > max / 10 {
            assert(acc * 10 + d > max) by (nonlinear_arith)
                requires
                    acc > max / 10,
            {
            }
            return None;
        }
        assert(acc * 10 <= max) by (nonlinear_arith)
            requires
                acc <= max / 10,
        {
        }
        if d > max - acc * 10 {
            return None;
        }
        acc = acc * 10 + d;
        i = i + 1;
    }
    assert(digits.take(i - start) =~= digits);
    Some(acc)
}

/// The cost that a raw setting selects: its value where it is set and is a
/// 32-bit unsigned number, `default` otherwise.
pub open spec fn spec_cost_or(raw: Option<Seq<u8>>, default: u32) -> u32 {
    match raw {
        Some(s) => match unsigned_setting(s, u32::MAX as nat) {
            Some(v) => v as u32,
            None => default,
        },
        None => default,
    }
}

/// The hashing cost that a raw setting selects: its value where it is set and
/// is a 32-bit unsigned number, [`DEFAULT_HASH_COST`] otherwise.
pub open spec fn spec_hashing_cost(raw: Option<Seq<u8>>) -> u32 {
    spec_cost_or(raw, DEFAULT_HASH_COST)
}

/// The session lifetime that a raw setting selects: its value where it is set
/// and is a 64-bit unsigned number, one day otherwise.
pub open spec fn spec_cookie_max_age(raw: Option<Seq<u8>>) -> u64 {
    match raw {
        Some(s) => match unsigned_setting(s, u64::MAX as nat) {
            Some(v) => v as u64,
            None => DEFAULT_COOKIE_MAX_AGE,
        },
        None => DEFAULT_COOKIE_MAX_AGE,
    }
}

/// Picks a cost from the raw setting, if there is one that is a number, and
/// `default` otherwise.
pub fn cost_or(raw: Option<&str>, default: u32) -> (cost: u32)
    ensures
        cost == spec_cost_or(
            match raw {
                Some(s) => Some(s.spec_bytes()),
                None => None,
            },
            default,
        ),
{
    match raw {
        Some(s) => match parse_unsigned(s.as_bytes(), 0xffff_ffff) {
            Some(v) => v as u32,
            None => default,
        },
        None => default,
    }
}

/// Picks the hashing cost from the raw setting, if there is one.
pub fn hashing_cost(raw: Option<&str>) -> (cost: u32)
    ensures
        cost == spec_hashing_cost(
            match raw {
                Some(s) => Some(s.spec_bytes()),
                None => None,
            },
        ),
{
    cost_or(raw, DEFAULT_HASH_COST)
}

/// Picks the session lifetime from the raw setting, if there is one.
pub fn cookie_max_age(raw: Option<&str>) -> (seconds: u64)
    ensures
        seconds == spec_cookie_max_age(
            match raw {
                Some(s) => Some(s.spec_bytes()),
                None => None,
            },
        ),
{
    match raw {
        Some(s) => match parse_unsigned(s.as_bytes(), 0xffff_ffff_ffff_ffff) {
            Some(v) => v,
            None => DEFAULT_COOKIE_MAX_AGE,
        },
        None => DEFAULT_COOKIE_MAX_AGE,
    }
}

} // verus!
