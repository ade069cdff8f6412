//! Tokens as an issuer writes them, and the proof of what validation answers
//! to every one of them.
//!
//! Nothing here runs: the module describes the plain way of writing a header
//! and a set of claims, and shows that the readers of this library read back
//! exactly what was written.

use vstd::prelude::*;

use crate::base64url::{char_sextet, decode_inverts_encode, spec_encode};
use crate::config::{digits_value, is_digit, is_digits};
use crate::errors::AuthError;
use crate::json::{
    digits_end, exponent_end, fraction_end, integer_part_end, number_at, string_at, string_body,
    ws_end,
};
use crate::json_object::{
    kept_integer, member_at, members_from, number_value, spec_find, spec_parse_object,
    MemberView, ValueView, MAX_INTEGER,
};
use crate::keyset::{spec_find_key, KeyView};
use crate::principal::PrincipalView;
use crate::signature::spec_signature_valid;
use crate::token::{
    dot_free, dots_are_the_segment_boundaries, name_exp, name_iss, name_kid, name_sub,
    spec_check_claims, spec_key_id, spec_open, spec_validate, OpenedView, PolicyView,
};

verus! {

/// Whether a string can hold the byte as it is: no quote, no backslash, no
/// control character.
pub open spec fn is_plain_byte(c: u8) -> bool {
    c >= 0x20 && c != 0x22 && c != 0x5c
}

/// Whether a string can hold every byte of `s` as it is.
pub open spec fn is_plain(s: Seq<u8>) -> bool {
    forall|i: int| 0 <= i < s.len() ==> is_plain_byte(#[trigger] s[i])
}

/// `s` between quotes.
pub open spec fn quoted(s: Seq<u8>) -> Seq<u8> {
    seq![0x22u8] + s + seq![0x22u8]
}

/// The decimal digits of `n`.
pub open spec fn decimal(n: nat) -> Seq<u8>
    decreases n,
{
    if n < 10 {
        seq![(0x30 + n) as u8]
    } else {
        decimal(n / 10).push((0x30 + n % 10) as u8)
    }
}

/// A member whose value is a text: the name, a colon, the text.
pub open spec fn text_member(name: Seq<u8>, value: Seq<u8>) -> Seq<u8> {
    quoted(name) + seq![0x3au8] + quoted(value)
}

/// A member whose value is a number: the name, a colon, the digits.
pub open spec fn number_member(name: Seq<u8>, value: nat) -> Seq<u8> {
    quoted(name) + seq![0x3au8] + decimal(value)
}

/// The rest of a plain string is read as it stands, up to the closing quote.
pub proof fn plain_string_body(s: Seq<u8>, i: int, t: Seq<u8>)
    requires
        0 <= i,
        i + t.len() < s.len(),
        s.subrange(i, i + t.len()) == t,
        is_plain(t),
        s[i + t.len()] == 0x22,
    ensures
        string_body(s, i) == Some((t, i + t.len() + 1)),
    decreases t.len(),
{
    if t.len() == 0 {
        assert(t =~= Seq::<u8>::empty());
    } else {
        assert(s[i] == t[0]) by {
            assert(s.subrange(i, i + t.len())[0] == s[i]);
        }
        assert(is_plain_byte(t[0]));
        let rest = t.skip(1);
        assert(s.subrange(i + 1, i + 1 + rest.len()) =~= rest) by {
            assert forall|k: int| 0 <= k < rest.len() implies s.subrange(i + 1, i + 1 + rest.len())[k]
                == rest[k] by {
                assert(s.subrange(i, i + t.len())[k + 1] == s[i + 1 + k]);
            }
        }
        assert(is_plain(rest)) by {
            assert forall|k: int| 0 <= k < rest.len() implies is_plain_byte(#[trigger] rest[k]) by {
                assert(is_plain_byte(t[k + 1]));
            }
        }
        plain_string_body(s, i + 1, rest);
        assert(seq![s[i]] + rest =~= t);
    }
}

/// A plain string between quotes is read as that string.
pub proof fn quoted_string_is_read(s: Seq<u8>, i: int, t: Seq<u8>)
    requires
        0 <= i,
        i + t.len() + 2 <= s.len(),
        s.subrange(i, i + t.len() + 2) == quoted(t),
        is_plain(t),
    ensures
        string_at(s, i) == Some((t, i + t.len() + 2)),
{
    let q = quoted(t);
    let w = s.subrange(i, i + t.len() + 2);
    assert(q.len() == t.len() + 2);
    assert(s[i] == 0x22) by {
        assert(w[0] == s[i]);
        assert(q[0] == 0x22);
    }
    assert(s[i + t.len() + 1] == 0x22) by {
        assert(w[t.len() as int + 1] == s[i + t.len() + 1]);
        assert(q[t.len() as int + 1] == 0x22);
    }
    assert(s.subrange(i + 1, i + 1 + t.len()) =~= t) by {
        assert forall|k: int| 0 <= k < t.len() implies s.subrange(i + 1, i + 1 + t.len())[k]
            == t[k] by {
            assert(w[k + 1] == s[i + 1 + k]);
            assert(q[k + 1] == t[k]);
        }
    }
    plain_string_body(s, i + 1, t);
}

/// The decimal digits of a number are digits, begin with a zero only for
/// zero itself, and write that number.
pub proof fn decimal_writes_its_number(n: nat)
    ensures
        is_digits(decimal(n)),
        digits_value(decimal(n)) == n,
        decimal(n)[0] == 0x30 ==> n == 0 && decimal(n).len() == 1,
    decreases n,
{
    let d = decimal(n);
    if n < 10 {
        assert(d.len() == 1);
        assert(d.drop_last() =~= Seq::<u8>::empty());
        assert(digits_value(d.drop_last()) == 0);
        assert(d.last() == (0x30 + n) as u8);
    } else {
        let head = decimal(n / 10);
        decimal_writes_its_number(n / 10);
        assert(d.drop_last() =~= head);
        assert(d.last() == (0x30 + n % 10) as u8);
        assert(d[0] == head[0]);
        assert forall|i: int| 0 <= i < d.len() implies is_digit(#[trigger] d[i]) by {
            if i < head.len() {
                assert(d[i] == head[i]);
                assert(is_digit(head[i]));
            }
        }
    }
}

/// A run of digits that something else follows ends where that begins.
pub proof fn digits_run_ends(s: Seq<u8>, i: int, d: Seq<u8>)
    requires
        0 <= i,
        i + d.len() <= s.len(),
        s.subrange(i, i + d.len()) == d,
        forall|k: int| 0 <= k < d.len() ==> is_digit(#[trigger] d[k]),
        i + d.len() < s.len() ==> !is_digit(s[i + d.len()]),
    ensures
        digits_end(s, i) == i + d.len(),
    decreases d.len(),
{
    if d.len() > 0 {
        assert(s[i] == d[0]) by {
            assert(s.subrange(i, i + d.len())[0] == s[i]);
        }
        assert(is_digit(d[0]));
        let rest = d.skip(1);
        assert(s.subrange(i + 1, i + 1 + rest.len()) =~= rest) by {
            assert forall|k: int| 0 <= k < rest.len() implies s.subrange(i + 1, i + 1 + rest.len())[k]
                == rest[k] by {
                assert(s.subrange(i, i + d.len())[k + 1] == s[i + 1 + k]);
            }
        }
        assert forall|k: int| 0 <= k < rest.len() implies is_digit(#[trigger] rest[k]) by {
            assert(is_digit(d[k + 1]));
        }
        digits_run_ends(s, i + 1, rest);
    }
}

/// The decimal digits of a number, followed by the end of the object or by
/// a comma, are read as that number.
pub proof fn decimal_number_is_read(s: Seq<u8>, i: int, n: nat)
    requires
        0 <= i,
        i + decimal(n).len() < s.len(),
        s.subrange(i, i + decimal(n).len()) == decimal(n),
        s[i + decimal(n).len()] == 0x7d || s[i + decimal(n).len()] == 0x2c,
    ensures
        number_at(s, i) == Some((Some(n as int), i + decimal(n).len())),
{
    let d = decimal(n);
    let end = i + d.len();
    decimal_writes_its_number(n);
    assert(s[i] == d[0]) by {
        assert(s.subrange(i, end)[0] == s[i]);
    }
    assert(is_digit(d[0]));
    digits_run_ends(s, i, d);
    assert(s[i] != 0x2d);
    if s[i] == 0x30 {
        assert(end == i + 1);
    }
    assert(integer_part_end(s, i) == Some(end));
    assert(fraction_end(s, end) == Some(end));
    assert(exponent_end(s, end) == Some(end));
}

/// A part of a part of `s` is a part of `s`.
proof fn part_of_part(s: Seq<u8>, i: int, p: Seq<u8>, a: int, b: int)
    requires
        0 <= i,
        i + p.len() <= s.len(),
        s.subrange(i, i + p.len()) == p,
        0 <= a <= b <= p.len(),
    ensures
        s.subrange(i + a, i + b) == p.subrange(a, b),
{
    assert forall|k: int| 0 <= k < b - a implies s.subrange(i + a, i + b)[k] == p.subrange(a, b)[k] by {
        assert(s.subrange(i, i + p.len())[a + k] == s[i + a + k]);
    }
    assert(s.subrange(i + a, i + b) =~= p.subrange(a, b));
}

/// A member that was written with a plain name and a plain text is read as
/// that name and that text.
pub proof fn text_member_is_read(s: Seq<u8>, i: int, name: Seq<u8>, value: Seq<u8>)
    requires
        0 <= i,
        i + text_member(name, value).len() <= s.len(),
        s.subrange(i, i + text_member(name, value).len()) == text_member(name, value),
        is_plain(name),
        is_plain(value),
    ensures
        text_member(name, value).len() == name.len() + value.len() + 5,
        member_at(s, i) == Some(
            (
                MemberView { key: name, value: ValueView::Text(value) },
                i + name.len() + value.len() + 5,
            ),
        ),
{
    let m = text_member(name, value);
    let qn = quoted(name);
    let qv = quoted(value);
    let j = i + name.len() + 2;
    assert(m.len() == name.len() + value.len() + 5);
    part_of_part(s, i, m, 0, qn.len() as int);
    assert(m.subrange(0, qn.len() as int) =~= qn);
    quoted_string_is_read(s, i, name);
    assert(s[j] == 0x3a) by {
        assert(s.subrange(i, i + m.len())[name.len() as int + 2] == s[j]);
        assert(m[name.len() as int + 2] == 0x3a);
    }
    part_of_part(s, i, m, qn.len() as int + 1, m.len() as int);
    assert(m.subrange(qn.len() as int + 1, m.len() as int) =~= qv);
    quoted_string_is_read(s, j + 1, value);
    assert(s[j + 1] == 0x22) by {
        assert(s.subrange(j + 1, j + 1 + qv.len())[0] == s[j + 1]);
        assert(qv[0] == 0x22);
    }
    assert(ws_end(s, j) == j);
    assert(ws_end(s, j + 1) == j + 1);
}

/// A member that was written with a plain name and the digits of a number
/// is read as that name and that number, where the end of the object or a
/// comma follows.
pub proof fn number_member_is_read(s: Seq<u8>, i: int, name: Seq<u8>, value: nat)
    requires
        0 <= i,
        i + number_member(name, value).len() < s.len(),
        s.subrange(i, i + number_member(name, value).len()) == number_member(name, value),
        s[i + number_member(name, value).len()] == 0x7d || s[i + number_member(name, value).len()]
            == 0x2c,
        is_plain(name),
        value <= MAX_INTEGER,
    ensures
        number_member(name, value).len() == name.len() + decimal(value).len() + 3,
        member_at(s, i) == Some(
            (
                MemberView { key: name, value: ValueView::Integer(value as int) },
                i + name.len() + decimal(value).len() + 3,
            ),
        ),
{
    let m = number_member(name, value);
    let qn = quoted(name);
    let d = decimal(value);
    let j = i + name.len() + 2;
    assert(m.len() == name.len() + d.len() + 3);
    part_of_part(s, i, m, 0, qn.len() as int);
    assert(m.subrange(0, qn.len() as int) =~= qn);
    quoted_string_is_read(s, i, name);
    assert(s[j] == 0x3a) by {
        assert(s.subrange(i, i + m.len())[name.len() as int + 2] == s[j]);
        assert(m[name.len() as int + 2] == 0x3a);
    }
    part_of_part(s, i, m, qn.len() as int + 1, m.len() as int);
    assert(m.subrange(qn.len() as int + 1, m.len() as int) =~= d);
    decimal_writes_its_number(value);
    decimal_number_is_read(s, j + 1, value);
    assert(s[j + 1] == d[0]) by {
        assert(s.subrange(j + 1, j + 1 + d.len())[0] == s[j + 1]);
    }
    assert(is_digit(d[0]));
    assert(ws_end(s, j) == j);
    assert(ws_end(s, j + 1) == j + 1);
    assert(number_value(s, j + 1) == Some(value as int));
    assert(kept_integer(s, j + 1) == Some(value as int));
}

/// The last member of an object is read, and the object ends with it.
pub proof fn last_member_is_read(s: Seq<u8>, i: int, member: MemberView, end: int)
    requires
        member_at(s, i) == Some((member, end)),
        0 <= end,
        end + 1 == s.len(),
        s[end] == 0x7d,
    ensures
        members_from(s, i) == Some(seq![member]),
{
    assert(ws_end(s, end) == end);
    assert(ws_end(s, end + 1) == end + 1);
}

/// A member that a comma and further members follow is read before them.
pub proof fn further_members_are_read(
    s: Seq<u8>,
    i: int,
    member: MemberView,
    end: int,
    rest: Seq<MemberView>,
)
    requires
        member_at(s, i) == Some((member, end)),
        0 <= i <= end,
        end + 1 < s.len(),
        s[end] == 0x2c,
        s[end + 1] == 0x22,
        members_from(s, end + 1) == Some(rest),
    ensures
        members_from(s, i) == Some(seq![member] + rest),
{
    assert(ws_end(s, end) == end);
    assert(ws_end(s, end + 1) == end + 1);
}

/// An object whose members are read from its second byte on is read as
/// those members.
pub proof fn object_is_read(s: Seq<u8>, members: Seq<MemberView>)
    requires
        s.len() > 1,
        s[0] == 0x7b,
        s[1] == 0x22,
        members_from(s, 1) == Some(members),
    ensures
        spec_parse_object(s) == Some(members),
{
    assert(ws_end(s, 0) == 0);
    assert(ws_end(s, 1) == 1);
}

/// The header that names the key `kid`, written plainly.
pub open spec fn canonical_header(kid: Seq<u8>) -> Seq<u8> {
    seq![0x7bu8] + text_member(name_kid(), kid) + seq![0x7du8]
}

/// The claims of an issuer, a subject and an expiry, if there is one,
/// written plainly and in this order.
pub open spec fn canonical_claims(issuer: Seq<u8>, subject: Seq<u8>, expiry: Option<nat>) -> Seq<u8> {
    match expiry {
        Some(at) => seq![0x7bu8] + text_member(name_iss(), issuer) + seq![0x2cu8] + text_member(
            name_sub(),
            subject,
        ) + seq![0x2cu8] + number_member(name_exp(), at) + seq![0x7du8],
        None => seq![0x7bu8] + text_member(name_iss(), issuer) + seq![0x2cu8] + text_member(
            name_sub(),
            subject,
        ) + seq![0x7du8],
    }
}

/// The members that such claims hold.
pub open spec fn claims_members(issuer: Seq<u8>, subject: Seq<u8>, expiry: Option<nat>) -> Seq<
    MemberView,
> {
    let named = seq![
        MemberView { key: name_iss(), value: ValueView::Text(issuer) },
        MemberView { key: name_sub(), value: ValueView::Text(subject) },
    ];
    match expiry {
        Some(at) => named.push(MemberView { key: name_exp(), value: ValueView::Integer(at as int) }),
        None => named,
    }
}

/// The names of the members are plain, and no two of them are the same.
proof fn names_are_plain_and_distinct()
    ensures
        is_plain(name_kid()),
        is_plain(name_iss()),
        is_plain(name_sub()),
        is_plain(name_exp()),
        name_iss() != name_sub(),
        name_iss() != name_exp(),
        name_sub() != name_exp(),
{
    let kid = name_kid();
    let iss = name_iss();
    let sub = name_sub();
    let exp = name_exp();
    assert(is_plain_byte(kid[0]) && is_plain_byte(kid[1]) && is_plain_byte(kid[2]));
    assert(is_plain_byte(iss[0]) && is_plain_byte(iss[1]) && is_plain_byte(iss[2]));
    assert(is_plain_byte(sub[0]) && is_plain_byte(sub[1]) && is_plain_byte(sub[2]));
    assert(is_plain_byte(exp[0]) && is_plain_byte(exp[1]) && is_plain_byte(exp[2]));
    assert(iss[0] != sub[0]);
    assert(iss[0] != exp[0]);
    assert(sub[0] != exp[0]);
}

/// A plainly written header is read as naming its key.
pub proof fn canonical_header_names_its_key(kid: Seq<u8>)
    requires
        is_plain(kid),
    ensures
        spec_key_id(canonical_header(kid)) == Some(kid),
        canonical_header(kid).len() > 0,
{
    let h = canonical_header(kid);
    let m = text_member(name_kid(), kid);
    let member = MemberView { key: name_kid(), value: ValueView::Text(kid) };
    names_are_plain_and_distinct();
    assert(m.len() == kid.len() + 8);
    assert(h.len() == m.len() + 2);
    let end: int = (1 + m.len()) as int;
    assert(h.subrange(1, end) =~= m);
    text_member_is_read(h, 1, name_kid(), kid);
    assert(h[1] == 0x22) by {
        assert(h.subrange(1, end)[0] == h[1]);
        assert(m[0] == 0x22);
    }
    last_member_is_read(h, 1, member, end);
    object_is_read(h, seq![member]);
    let members = seq![member];
    assert(members.last() == member);
    assert(spec_find(members, name_kid()) == Some(ValueView::Text(kid)));
}

/// Where the parts of an object of two members lie.
proof fn layout_of_two(a: Seq<u8>, b: Seq<u8>)
    requires
        a.len() > 0,
        b.len() > 0,
    ensures
        ({
            let c = seq![0x7bu8] + a + seq![0x2cu8] + b + seq![0x7du8];
            let e1 = 1 + a.len() as int;
            let e2 = e1 + 1 + b.len();
            &&& c.len() == e2 + 1
            &&& c[0] == 0x7b
            &&& c[1] == a[0]
            &&& c.subrange(1, e1) == a
            &&& c[e1] == 0x2c
            &&& c[e1 + 1] == b[0]
            &&& c.subrange(e1 + 1, e2) == b
            &&& c[e2] == 0x7d
        }),
{
    let c = seq![0x7bu8] + a + seq![0x2cu8] + b + seq![0x7du8];
    let e1 = 1 + a.len() as int;
    let e2 = e1 + 1 + b.len();
    assert(c.subrange(1, e1) =~= a);
    assert(c.subrange(e1 + 1, e2) =~= b);
}

/// Where the parts of an object of three members lie.
proof fn layout_of_three(a: Seq<u8>, b: Seq<u8>, d: Seq<u8>)
    requires
        a.len() > 0,
        b.len() > 0,
        d.len() > 0,
    ensures
        ({
            let c = seq![0x7bu8] + a + seq![0x2cu8] + b + seq![0x2cu8] + d + seq![0x7du8];
            let e1 = 1 + a.len() as int;
            let e2 = e1 + 1 + b.len();
            let e3 = e2 + 1 + d.len();
            &&& c.len() == e3 + 1
            &&& c[0] == 0x7b
            &&& c[1] == a[0]
            &&& c.subrange(1, e1) == a
            &&& c[e1] == 0x2c
            &&& c[e1 + 1] == b[0]
            &&& c.subrange(e1 + 1, e2) == b
            &&& c[e2] == 0x2c
            &&& c[e2 + 1] == d[0]
            &&& c.subrange(e2 + 1, e3) == d
            &&& c[e3] == 0x7d
        }),
{
    let c = seq![0x7bu8] + a + seq![0x2cu8] + b + seq![0x2cu8] + d + seq![0x7du8];
    let e1 = 1 + a.len() as int;
    let e2 = e1 + 1 + b.len();
    let e3 = e2 + 1 + d.len();
    assert(c.subrange(1, e1) =~= a);
    assert(c.subrange(e1 + 1, e2) =~= b);
    assert(c.subrange(e2 + 1, e3) =~= d);
}

/// An object of two members is read as those two.
proof fn object_of_two_is_read(
    c: Seq<u8>,
    first: MemberView,
    e1: int,
    second: MemberView,
    e2: int,
)
    requires
        1 <= e1,
        e1 + 1 <= e2,
        c.len() == e2 + 1,
        c[0] == 0x7b,
        c[1] == 0x22,
        member_at(c, 1) == Some((first, e1)),
        c[e1] == 0x2c,
        c[e1 + 1] == 0x22,
        member_at(c, e1 + 1) == Some((second, e2)),
        c[e2] == 0x7d,
    ensures
        spec_parse_object(c) == Some(seq![first, second]),
{
    last_member_is_read(c, e1 + 1, second, e2);
    further_members_are_read(c, 1, first, e1, seq![second]);
    assert(seq![first] + seq![second] =~= seq![first, second]);
    object_is_read(c, seq![first, second]);
}

/// An object of three members is read as those three.
proof fn object_of_three_is_read(
    c: Seq<u8>,
    first: MemberView,
    e1: int,
    second: MemberView,
    e2: int,
    third: MemberView,
    e3: int,
)
    requires
        1 <= e1,
        e1 + 1 <= e2,
        e2 + 1 <= e3,
        c.len() == e3 + 1,
        c[0] == 0x7b,
        c[1] == 0x22,
        member_at(c, 1) == Some((first, e1)),
        c[e1] == 0x2c,
        c[e1 + 1] == 0x22,
        member_at(c, e1 + 1) == Some((second, e2)),
        c[e2] == 0x2c,
        c[e2 + 1] == 0x22,
        member_at(c, e2 + 1) == Some((third, e3)),
        c[e3] == 0x7d,
    ensures
        spec_parse_object(c) == Some(seq![first, second, third]),
{
    last_member_is_read(c, e2 + 1, third, e3);
    further_members_are_read(c, e1 + 1, second, e2, seq![third]);
    further_members_are_read(c, 1, first, e1, seq![second] + seq![third]);
    assert(seq![first] + (seq![second] + seq![third]) =~= seq![first, second, third]);
    object_is_read(c, seq![first, second, third]);
}

/// Where the members of claims without an expiry lie.
proof fn claims_without_expiry_lie(issuer: Seq<u8>, subject: Seq<u8>, e1: int, e2: int)
    requires
        e1 == issuer.len() + 9,
        e2 == e1 + subject.len() + 9,
    ensures
        ({
            let c = canonical_claims(issuer, subject, None);
            &&& c.len() == e2 + 1
            &&& c[0] == 0x7b
            &&& c[1] == 0x22
            &&& c.subrange(1, e1) == text_member(name_iss(), issuer)
            &&& c[e1] == 0x2c
            &&& c[e1 + 1] == 0x22
            &&& c.subrange(e1 + 1, e2) == text_member(name_sub(), subject)
            &&& c[e2] == 0x7d
        }),
{
    let m1 = text_member(name_iss(), issuer);
    let m2 = text_member(name_sub(), subject);
    assert(m1.len() == issuer.len() + 8 && m1[0] == 0x22);
    assert(m2.len() == subject.len() + 8 && m2[0] == 0x22);
    layout_of_two(m1, m2);
}

/// Claims whose two members lie where they should are read as those two.
proof fn two_members_are_read(c: Seq<u8>, issuer: Seq<u8>, subject: Seq<u8>, e1: int, e2: int)
    requires
        is_plain(issuer),
        is_plain(subject),
        e1 == issuer.len() + 9,
        e2 == e1 + subject.len() + 9,
        c.len() == e2 + 1,
        c[0] == 0x7b,
        c[1] == 0x22,
        c.subrange(1, e1) == text_member(name_iss(), issuer),
        c[e1] == 0x2c,
        c[e1 + 1] == 0x22,
        c.subrange(e1 + 1, e2) == text_member(name_sub(), subject),
        c[e2] == 0x7d,
    ensures
        spec_parse_object(c) == Some(
            seq![
                MemberView { key: name_iss(), value: ValueView::Text(issuer) },
                MemberView { key: name_sub(), value: ValueView::Text(subject) },
            ],
        ),
{
    let first = MemberView { key: name_iss(), value: ValueView::Text(issuer) };
    let second = MemberView { key: name_sub(), value: ValueView::Text(subject) };
    names_are_plain_and_distinct();
    assert(name_iss().len() == 3 && name_sub().len() == 3);
    text_member_is_read(c, 1, name_iss(), issuer);
    text_member_is_read(c, e1 + 1, name_sub(), subject);
    object_of_two_is_read(c, first, e1, second, e2);
}

/// Plainly written claims without an expiry are read as the two members
/// that were written.
proof fn claims_without_expiry_are_read(issuer: Seq<u8>, subject: Seq<u8>)
    requires
        is_plain(issuer),
        is_plain(subject),
    ensures
        spec_parse_object(canonical_claims(issuer, subject, None)) == Some(
            claims_members(issuer, subject, None),
        ),
        canonical_claims(issuer, subject, None).len() > 0,
{
    let e1: int = (issuer.len() + 9) as int;
    let e2: int = e1 + subject.len() + 9;
    claims_without_expiry_lie(issuer, subject, e1, e2);
    two_members_are_read(canonical_claims(issuer, subject, None), issuer, subject, e1, e2);
}

/// The three members of claims with an expiry are read where they lie.
proof fn members_with_expiry_are_read(
    c: Seq<u8>,
    issuer: Seq<u8>,
    subject: Seq<u8>,
    at: nat,
    e1: int,
    e2: int,
    e3: int,
)
    requires
        is_plain(issuer),
        is_plain(subject),
        at <= MAX_INTEGER,
        e1 == issuer.len() + 9,
        e2 == e1 + subject.len() + 9,
        e3 == e2 + decimal(at).len() + 7,
        c.len() == e3 + 1,
        c.subrange(1, e1) == text_member(name_iss(), issuer),
        c.subrange(e1 + 1, e2) == text_member(name_sub(), subject),
        c.subrange(e2 + 1, e3) == number_member(name_exp(), at),
        c[e3] == 0x7d,
    ensures
        member_at(c, 1) == Some(
            (MemberView { key: name_iss(), value: ValueView::Text(issuer) }, e1),
        ),
        member_at(c, e1 + 1) == Some(
            (MemberView { key: name_sub(), value: ValueView::Text(subject) }, e2),
        ),
        member_at(c, e2 + 1) == Some(
            (MemberView { key: name_exp(), value: ValueView::Integer(at as int) }, e3),
        ),
{
    names_are_plain_and_distinct();
    assert(name_iss().len() == 3 && name_sub().len() == 3 && name_exp().len() == 3);
    text_member_is_read(c, 1, name_iss(), issuer);
    text_member_is_read(c, e1 + 1, name_sub(), subject);
    number_member_is_read(c, e2 + 1, name_exp(), at);
}

/// Where the members of claims with an expiry lie.
proof fn claims_with_expiry_lie(issuer: Seq<u8>, subject: Seq<u8>, at: nat, e1: int, e2: int, e3: int)
    requires
        e1 == issuer.len() + 9,
        e2 == e1 + subject.len() + 9,
        e3 == e2 + decimal(at).len() + 7,
    ensures
        ({
            let c = canonical_claims(issuer, subject, Some(at));
            &&& c.len() == e3 + 1
            &&& c[0] == 0x7b
            &&& c[1] == 0x22
            &&& c.subrange(1, e1) == text_member(name_iss(), issuer)
            &&& c[e1] == 0x2c
            &&& c[e1 + 1] == 0x22
            &&& c.subrange(e1 + 1, e2) == text_member(name_sub(), subject)
            &&& c[e2] == 0x2c
            &&& c[e2 + 1] == 0x22
            &&& c.subrange(e2 + 1, e3) == number_member(name_exp(), at)
            &&& c[e3] == 0x7d
        }),
{
    let m1 = text_member(name_iss(), issuer);
    let m2 = text_member(name_sub(), subject);
    let m3 = number_member(name_exp(), at);
    assert(m1.len() == issuer.len() + 8 && m1[0] == 0x22);
    assert(m2.len() == subject.len() + 8 && m2[0] == 0x22);
    assert(m3.len() == decimal(at).len() + 6 && m3[0] == 0x22);
    layout_of_three(m1, m2, m3);
}

/// Claims whose three members lie where they should are read as those
/// three.
proof fn three_members_are_read(
    c: Seq<u8>,
    issuer: Seq<u8>,
    subject: Seq<u8>,
    at: nat,
    e1: int,
    e2: int,
    e3: int,
)
    requires
        is_plain(issuer),
        is_plain(subject),
        at <= MAX_INTEGER,
        e1 == issuer.len() + 9,
        e2 == e1 + subject.len() + 9,
        e3 == e2 + decimal(at).len() + 7,
        c.len() == e3 + 1,
        c[0] == 0x7b,
        c[1] == 0x22,
        c.subrange(1, e1) == text_member(name_iss(), issuer),
        c[e1] == 0x2c,
        c[e1 + 1] == 0x22,
        c.subrange(e1 + 1, e2) == text_member(name_sub(), subject),
        c[e2] == 0x2c,
        c[e2 + 1] == 0x22,
        c.subrange(e2 + 1, e3) == number_member(name_exp(), at),
        c[e3] == 0x7d,
    ensures
        spec_parse_object(c) == Some(
            seq![
                MemberView { key: name_iss(), value: ValueView::Text(issuer) },
                MemberView { key: name_sub(), value: ValueView::Text(subject) },
                MemberView { key: name_exp(), value: ValueView::Integer(at as int) },
            ],
        ),
{
    let first = MemberView { key: name_iss(), value: ValueView::Text(issuer) };
    let second = MemberView { key: name_sub(), value: ValueView::Text(subject) };
    let third = MemberView { key: name_exp(), value: ValueView::Integer(at as int) };
    members_with_expiry_are_read(c, issuer, subject, at, e1, e2, e3);
    object_of_three_is_read(c, first, e1, second, e2, third, e3);
}

/// Plainly written claims with an expiry are read as the three members that
/// were written.
proof fn claims_with_expiry_are_read(issuer: Seq<u8>, subject: Seq<u8>, at: nat)
    requires
        is_plain(issuer),
        is_plain(subject),
        at <= MAX_INTEGER,
    ensures
        spec_parse_object(canonical_claims(issuer, subject, Some(at))) == Some(
            claims_members(issuer, subject, Some(at)),
        ),
        canonical_claims(issuer, subject, Some(at)).len() > 0,
{
    let e1: int = (issuer.len() + 9) as int;
    let e2: int = e1 + subject.len() + 9;
    let e3: int = e2 + decimal(at).len() + 7;
    claims_with_expiry_lie(issuer, subject, at, e1, e2, e3);
    three_members_are_read(
        canonical_claims(issuer, subject, Some(at)),
        issuer,
        subject,
        at,
        e1,
        e2,
        e3,
    );
    members_with_expiry(issuer, subject, at);
}

/// The members of claims with an expiry, one by one.
proof fn members_with_expiry(issuer: Seq<u8>, subject: Seq<u8>, at: nat)
    ensures
        claims_members(issuer, subject, Some(at)) == seq![
            MemberView { key: name_iss(), value: ValueView::Text(issuer) },
            MemberView { key: name_sub(), value: ValueView::Text(subject) },
            MemberView { key: name_exp(), value: ValueView::Integer(at as int) },
        ],
{
    assert(claims_members(issuer, subject, Some(at)) =~= seq![
        MemberView { key: name_iss(), value: ValueView::Text(issuer) },
        MemberView { key: name_sub(), value: ValueView::Text(subject) },
        MemberView { key: name_exp(), value: ValueView::Integer(at as int) },
    ]);
}

/// Plainly written claims are read as the members that were written.
pub proof fn canonical_claims_are_read(issuer: Seq<u8>, subject: Seq<u8>, expiry: Option<nat>)
    requires
        is_plain(issuer),
        is_plain(subject),
        expiry matches Some(at) ==> at <= MAX_INTEGER,
    ensures
        spec_parse_object(canonical_claims(issuer, subject, expiry)) == Some(
            claims_members(issuer, subject, expiry),
        ),
        canonical_claims(issuer, subject, expiry).len() > 0,
{
    match expiry {
        Some(at) => claims_with_expiry_are_read(issuer, subject, at),
        None => claims_without_expiry_are_read(issuer, subject),
    }
}

/// Each claim is found under its name among the members that were written.
pub proof fn claims_are_found(issuer: Seq<u8>, subject: Seq<u8>, expiry: Option<nat>)
    ensures
        spec_find(claims_members(issuer, subject, expiry), name_iss()) == Some(
            ValueView::Text(issuer),
        ),
        spec_find(claims_members(issuer, subject, expiry), name_sub()) == Some(
            ValueView::Text(subject),
        ),
        spec_find(claims_members(issuer, subject, expiry), name_exp()) == (match expiry {
            Some(at) => Some(ValueView::Integer(at as int)),
            None => None,
        }),
{
    let members = claims_members(issuer, subject, expiry);
    let first = MemberView { key: name_iss(), value: ValueView::Text(issuer) };
    let second = MemberView { key: name_sub(), value: ValueView::Text(subject) };
    let two = seq![first, second];
    names_are_plain_and_distinct();
    reveal_with_fuel(spec_find, 4);
    assert(two.drop_last() =~= seq![first]);
    assert(seq![first].drop_last() =~= Seq::<MemberView>::empty());
    match expiry {
        Some(at) => {
            assert(members.drop_last() =~= two);
        },
        None => {},
    }
}

/// What a signature is over: the encoded header, a dot, the encoded
/// payload.
pub open spec fn signing_input(header: Seq<u8>, payload: Seq<u8>) -> Seq<u8> {
    spec_encode(header) + seq![0x2eu8] + spec_encode(payload)
}

/// The token of a header, a payload and a signature.
pub open spec fn token_of(header: Seq<u8>, payload: Seq<u8>, signature: Seq<u8>) -> Seq<u8> {
    signing_input(header, payload) + seq![0x2eu8] + spec_encode(signature)
}

/// An encoding holds no dot, and is empty only where nothing was encoded.
pub proof fn encoding_is_a_segment(bytes: Seq<u8>)
    ensures
        dot_free(spec_encode(bytes)),
        bytes.len() > 0 ==> spec_encode(bytes).len() > 0,
{
    let text = spec_encode(bytes);
    decode_inverts_encode(bytes);
    assert forall|i: int| 0 <= i < text.len() implies #[trigger] text[i] != 0x2e by {
        assert(char_sextet(text[i]) is Some);
    }
}

/// Where the segments of a token lie.
proof fn token_segments_lie(header: Seq<u8>, payload: Seq<u8>, signature: Seq<u8>, a: int, b: int)
    requires
        a == spec_encode(header).len(),
        b == a + 1 + spec_encode(payload).len(),
    ensures
        ({
            let token = token_of(header, payload, signature);
            &&& token.len() == b + 1 + spec_encode(signature).len()
            &&& token[a] == 0x2e
            &&& token[b] == 0x2e
            &&& token.subrange(0, a) == spec_encode(header)
            &&& token.subrange(a + 1, b) == spec_encode(payload)
            &&& token.subrange(b + 1, token.len() as int) == spec_encode(signature)
            &&& token.subrange(0, b) == signing_input(header, payload)
        }),
{
    let token = token_of(header, payload, signature);
    assert(token.subrange(0, a) =~= spec_encode(header));
    assert(token.subrange(a + 1, b) =~= spec_encode(payload));
    assert(token.subrange(b + 1, token.len() as int) =~= spec_encode(signature));
    assert(token.subrange(0, b) =~= signing_input(header, payload));
}

/// A token that is put together of a header, a payload and a signature is
/// taken apart as them, where the header names a key; and is malformed
/// where it does not.
pub proof fn token_is_taken_apart(header: Seq<u8>, payload: Seq<u8>, signature: Seq<u8>)
    requires
        header.len() > 0,
        payload.len() > 0,
        signature.len() > 0,
    ensures
        spec_open(token_of(header, payload, signature)) == (match spec_key_id(header) {
            Some(key_id) => Ok::<OpenedView, AuthError>(
                OpenedView { key_id, signed: signing_input(header, payload), signature, payload },
            ),
            None => Err::<OpenedView, AuthError>(AuthError::Malformed),
        }),
{
    let token = token_of(header, payload, signature);
    let a = spec_encode(header).len() as int;
    let b = a + 1 + spec_encode(payload).len();
    token_segments_lie(header, payload, signature, a, b);
    encoding_is_a_segment(header);
    encoding_is_a_segment(payload);
    encoding_is_a_segment(signature);
    dots_are_the_segment_boundaries(token, a, b);
    decode_inverts_encode(header);
    decode_inverts_encode(payload);
    decode_inverts_encode(signature);
}

/// What validation is to answer to a token that names the key `kid` and
/// claims `issuer`, `subject` and `expiry`, given whether its signature
/// verifies under the key of that name.
pub open spec fn expected_outcome(
    key: Option<KeyView>,
    signed: Seq<u8>,
    signature: Seq<u8>,
    issuer: Seq<u8>,
    subject: Seq<u8>,
    expiry: Option<nat>,
    policy: PolicyView,
    now: i64,
) -> Result<PrincipalView, AuthError> {
    match key {
        None => Err(AuthError::KeyNotFound),
        Some(key) => if !spec_signature_valid(key, signed, signature) {
            Err(AuthError::SignatureInvalid)
        } else if issuer != policy.issuer || subject.len() == 0 {
            Err(AuthError::ClaimInvalid)
        } else {
            match expiry {
                Some(at) => if now > at + policy.clock_skew {
                    Err(AuthError::Expired)
                } else {
                    Ok(PrincipalView { subject, expires_at: Some(at as i64) })
                },
                None => Ok(PrincipalView { subject, expires_at: None }),
            }
        },
    }
}

/// What the claims that were written grant.
pub open spec fn expected_grant(
    issuer: Seq<u8>,
    subject: Seq<u8>,
    expiry: Option<nat>,
    policy: PolicyView,
    now: i64,
) -> Result<PrincipalView, AuthError> {
    if issuer != policy.issuer || subject.len() == 0 {
        Err(AuthError::ClaimInvalid)
    } else {
        match expiry {
            Some(at) => if now > at + policy.clock_skew {
                Err(AuthError::Expired)
            } else {
                Ok(PrincipalView { subject, expires_at: Some(at as i64) })
            },
            None => Ok(PrincipalView { subject, expires_at: None }),
        }
    }
}

/// The members that were written grant what the claims say.
pub proof fn written_claims_grant(
    issuer: Seq<u8>,
    subject: Seq<u8>,
    expiry: Option<nat>,
    policy: PolicyView,
    now: i64,
)
    ensures
        spec_check_claims(claims_members(issuer, subject, expiry), policy, now) == expected_grant(
            issuer,
            subject,
            expiry,
            policy,
            now,
        ),
{
    claims_are_found(issuer, subject, expiry);
}

/// A token of a header that names a key and of a payload that is an object
/// is validated by looking the key up, checking the signature, and asking
/// what the members of the payload grant.
pub proof fn token_is_validated(
    header: Seq<u8>,
    payload: Seq<u8>,
    signature: Seq<u8>,
    kid: Seq<u8>,
    members: Seq<MemberView>,
    keys: Seq<KeyView>,
    policy: PolicyView,
    now: i64,
)
    requires
        header.len() > 0,
        payload.len() > 0,
        signature.len() > 0,
        spec_key_id(header) == Some(kid),
        spec_parse_object(payload) == Some(members),
    ensures
        spec_validate(token_of(header, payload, signature), policy, keys, now) == (
        match spec_find_key(keys, kid) {
            None => Err::<PrincipalView, AuthError>(AuthError::KeyNotFound),
            Some(key) => if spec_signature_valid(key, signing_input(header, payload), signature) {
                spec_check_claims(members, policy, now)
            } else {
                Err::<PrincipalView, AuthError>(AuthError::SignatureInvalid)
            },
        }),
{
    token_is_taken_apart(header, payload, signature);
}

/// Validation answers every plainly written token as it should: with the
/// subject where the key is published, the signature verifies, the issuer is
/// the expected one and the expiry has not passed, and otherwise with the
/// first of these that fails.
pub proof fn canonical_tokens_are_validated(
    kid: Seq<u8>,
    issuer: Seq<u8>,
    subject: Seq<u8>,
    expiry: Option<nat>,
    signature: Seq<u8>,
    keys: Seq<KeyView>,
    policy: PolicyView,
    now: i64,
)
    requires
        is_plain(kid),
        is_plain(issuer),
        is_plain(subject),
        expiry matches Some(at) ==> at <= MAX_INTEGER,
        signature.len() > 0,
    ensures
        spec_validate(
            token_of(canonical_header(kid), canonical_claims(issuer, subject, expiry), signature),
            policy,
            keys,
            now,
        ) == expected_outcome(
            spec_find_key(keys, kid),
            signing_input(canonical_header(kid), canonical_claims(issuer, subject, expiry)),
            signature,
            issuer,
            subject,
            expiry,
            policy,
            now,
        ),
{
    canonical_header_names_its_key(kid);
    canonical_claims_are_read(issuer, subject, expiry);
    written_claims_grant(issuer, subject, expiry, policy, now);
    token_is_validated(
        canonical_header(kid),
        canonical_claims(issuer, subject, expiry),
        signature,
        kid,
        claims_members(issuer, subject, expiry),
        keys,
        policy,
        now,
    );
}

} // verus!
