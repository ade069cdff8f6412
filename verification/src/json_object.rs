//! The members of a JSON object as the library reads them: text and integer
//! values are kept, every other value is checked and passed over.

use vstd::prelude::*;
use vstd::slice::slice_subrange;

use crate::config::{is_digit, is_digits, parse_unsigned};
use crate::json::{
    elements_end, exponent_end, fraction_end, has, has_word, integer_part_end, literal_end,
    member_value_end, members_end, number_at, number_end, read_string, skip_digits, skip_ws,
    string_at, value_end, ws_end, MAX_DEPTH,
};

verus! {

/// Largest magnitude of an integer that is kept as one.
pub const MAX_INTEGER: u64 = 0x7fff_ffff_ffff_ffff;

/// What the number at `i` counts, where it is written as an integer.
pub open spec fn number_value(s: Seq<u8>, i: int) -> Option<int> {
    match number_at(s, i) {
        Some((v, _)) => v,
        None => None,
    }
}

/// The integer that is kept for the number at `i`: its value where it is
/// written as an integer of at most [`MAX_INTEGER`] in magnitude.
pub open spec fn kept_integer(s: Seq<u8>, i: int) -> Option<int> {
    match number_value(s, i) {
        Some(v) => if -(MAX_INTEGER as int) <= v <= MAX_INTEGER as int {
            Some(v)
        } else {
            None
        },
        None => None,
    }
}

/// Reads the number at `i`.
pub fn read_number(s: &[u8], i: usize) -> (r: Option<(Option<i64>, usize)>)
    ensures
        match r {
            Some((value, end)) => {
                &&& number_end(s@, i as int) == Some(end as int)
                &&& i < end <= s@.len()
                &&& match value {
                    Some(v) => kept_integer(s@, i as int) == Some(v as int),
                    None => kept_integer(s@, i as int) is None,
                }
            },
            None => number_end(s@, i as int) is None,
        },
{
    let n = s.len();
    let j: usize = if i < n && s[i] == 0x2d {
        i + 1
    } else {
        i
    };
    if j >= n || s[j] < 0x30 || s[j] > 0x39 {
        return None;
    }
    let k: usize = if s[j] == 0x30 {
        j + 1
    } else {
        skip_digits(s, j + 1)
    };
    assert(integer_part_end(s@, j as int) == Some(k as int));
    assert(forall|x: int| j <= x < k ==> is_digit(#[trigger] s@[x]));
    let f: usize = if k < n && s[k] == 0x2e {
        if k + 1 < n && 0x30 <= s[k + 1] && s[k + 1] <= 0x39 {
            skip_digits(s, k + 2)
        } else {
            return None;
        }
    } else {
        k
    };
    assert(fraction_end(s@, k as int) == Some(f as int));
    let e: usize = if f < n && (s[f] == 0x65 || s[f] == 0x45) {
        let m: usize = if f + 1 < n && (s[f + 1] == 0x2b || s[f + 1] == 0x2d) {
            f + 2
        } else {
            f + 1
        };
        if m < n && 0x30 <= s[m] && s[m] <= 0x39 {
            skip_digits(s, m + 1)
        } else {
            return None;
        }
    } else {
        f
    };
    assert(exponent_end(s@, f as int) == Some(e as int));
    if e != k {
        return Some((None, e));
    }
    let digits = slice_subrange(s, j, k);
    proof {
        assert(is_digits(digits@));
        assert(digits@[0] != 0x2b);
    }
    match parse_unsigned(digits, MAX_INTEGER) {
        Some(m) => {
            let v: i64 = if j == i {
                m as i64
            } else {
                -(m as i64)
            };
            Some((Some(v), e))
        },
        None => Some((None, e)),
    }
}

/// Passes over the literal at `i`.
pub fn skip_literal(s: &[u8], i: usize) -> (r: Option<usize>)
    ensures
        match r {
            Some(end) => literal_end(s@, i as int) == Some(end as int) && i < end <= s@.len(),
            None => literal_end(s@, i as int) is None,
        },
{
    let n = s.len();
    if i > n {
        return None;
    }
    let ghost t = seq![0x74u8, 0x72, 0x75, 0x65];
    let ghost f = seq![0x66u8, 0x61, 0x6c, 0x73, 0x65];
    let ghost u = seq![0x6eu8, 0x75, 0x6c, 0x6c];
    if n - i >= 4 && s[i] == 0x74 && s[i + 1] == 0x72 && s[i + 2] == 0x75 && s[i + 3] == 0x65 {
        assert(s@.subrange(i as int, i + 4) =~= t);
        return Some(i + 4);
    }
    proof {
        if has_word(s@, i as int, t) {
            let w = s@.subrange(i as int, i + 4);
            assert(w[0] == t[0] && w[1] == t[1] && w[2] == t[2] && w[3] == t[3]);
        }
    }
    if n - i >= 5 && s[i] == 0x66 && s[i + 1] == 0x61 && s[i + 2] == 0x6c && s[i + 3] == 0x73 && s[i
        + 4] == 0x65 {
        assert(s@.subrange(i as int, i + 5) =~= f);
        return Some(i + 5);
    }
    proof {
        if has_word(s@, i as int, f) {
            let w = s@.subrange(i as int, i + 5);
            assert(w[0] == f[0] && w[1] == f[1] && w[2] == f[2] && w[3] == f[3] && w[4] == f[4]);
        }
    }
    if n - i >= 4 && s[i] == 0x6e && s[i + 1] == 0x75 && s[i + 2] == 0x6c && s[i + 3] == 0x6c {
        assert(s@.subrange(i as int, i + 4) =~= u);
        return Some(i + 4);
    }
    proof {
        if has_word(s@, i as int, u) {
            let w = s@.subrange(i as int, i + 4);
            assert(w[0] == u[0] && w[1] == u[1] && w[2] == u[2] && w[3] == u[3]);
        }
    }
    None
}

/// Passes over the value at `i`, nesting no deeper than `depth`.
pub fn skip_value(s: &[u8], i: usize, depth: u32) -> (r: Option<usize>)
    ensures
        match r {
            Some(end) => value_end(s@, i as int, depth as nat) == Some(end as int) && i < end
                <= s@.len(),
            None => value_end(s@, i as int, depth as nat) is None,
        },
    decreases depth,
{
    let n = s.len();
    if i >= n {
        return None;
    }
    let c = s[i];
    if c == 0x22 {
        match read_string(s, i) {
            Some((_, end)) => Some(end),
            None => None,
        }
    } else if c == 0x7b {
        if depth == 0 {
            return None;
        }
        let first = skip_ws(s, i + 1);
        if first < n && s[first] == 0x7d {
            return Some(first + 1);
        }
        let mut j: usize = first;
        loop
            invariant
                i < j <= s@.len(),
                n == s@.len(),
                depth > 0,
                value_end(s@, i as int, depth as nat) == members_end(
                    s@,
                    first as int,
                    (depth - 1) as nat,
                ),
                members_end(s@, first as int, (depth - 1) as nat) == members_end(
                    s@,
                    j as int,
                    (depth - 1) as nat,
                ),
            decreases s@.len() - j,
        {
            proof {
                reveal_with_fuel(member_value_end, 2);
                reveal_with_fuel(members_end, 2);
            }
            let after_key = match read_string(s, j) {
                Some((_, end)) => end,
                None => {
                    return None;
                },
            };
            let colon = skip_ws(s, after_key);
            if colon >= n || s[colon] != 0x3a {
                return None;
            }
            let start = skip_ws(s, colon + 1);
            let end = match skip_value(s, start, depth - 1) {
                Some(end) => end,
                None => {
                    return None;
                },
            };
            let k = skip_ws(s, end);
            if k < n && s[k] == 0x2c {
                j = skip_ws(s, k + 1);
            } else if k < n && s[k] == 0x7d {
                return Some(k + 1);
            } else {
                return None;
            }
        }
    } else if c == 0x5b {
        if depth == 0 {
            return None;
        }
        let first = skip_ws(s, i + 1);
        if first < n && s[first] == 0x5d {
            return Some(first + 1);
        }
        let mut j: usize = first;
        loop
            invariant
                i < j <= s@.len(),
                n == s@.len(),
                depth > 0,
                value_end(s@, i as int, depth as nat) == elements_end(
                    s@,
                    first as int,
                    (depth - 1) as nat,
                ),
                elements_end(s@, first as int, (depth - 1) as nat) == elements_end(
                    s@,
                    j as int,
                    (depth - 1) as nat,
                ),
            decreases s@.len() - j,
        {
            let end = match skip_value(s, j, depth - 1) {
                Some(end) => end,
                None => {
                    return None;
                },
            };
            let k = skip_ws(s, end);
            if k < n && s[k] == 0x2c {
                j = skip_ws(s, k + 1);
            } else if k < n && s[k] == 0x5d {
                return Some(k + 1);
            } else {
                return None;
            }
        }
    } else if c == 0x74 || c == 0x66 || c == 0x6e {
        skip_literal(s, i)
    } else {
        match read_number(s, i) {
            Some((_, end)) => Some(end),
            None => None,
        }
    }
}

/// A value of a member, as far as the library reads it.
#[derive(Clone, Debug, PartialEq, Eq)]
pub enum JsonValue {
    /// A string, as the bytes it writes.
    Text(Vec<u8>),
    /// A number written as an integer of at most [`MAX_INTEGER`] in magnitude.
    Integer(i64),
    /// Any other value: another number, a literal, an array or an object.
    Other,
}

/// The mathematical form of a [`JsonValue`].
pub enum ValueView {
    Text(Seq<u8>),
    Integer(int),
    Other,
}

impl View for JsonValue {
    type V = ValueView;

    open spec fn view(&self) -> ValueView {
        match self {
            JsonValue::Text(t) => ValueView::Text(t@),
            JsonValue::Integer(v) => ValueView::Integer(*v as int),
            JsonValue::Other => ValueView::Other,
        }
    }
}

/// One member of an object.
#[derive(Clone, Debug, PartialEq, Eq)]
pub struct Member {
    pub key: Vec<u8>,
    pub value: JsonValue,
}

/// The mathematical form of a [`Member`].
pub struct MemberView {
    pub key: Seq<u8>,
    pub value: ValueView,
}

impl View for Member {
    type V = MemberView;

    open spec fn view(&self) -> MemberView {
        MemberView { key: self.key@, value: self.value@ }
    }
}

/// The members of a list, each in its mathematical form.
pub open spec fn members_view(members: Seq<Member>) -> Seq<MemberView> {
    members.map_values(|m: Member| m@)
}

/// The value at `i` as the library reads it, and where it ends.
pub open spec fn scalar_at(s: Seq<u8>, i: int) -> Option<(ValueView, int)> {
    if has(s, i, 0x22) {
        match string_at(s, i) {
            Some((text, e)) => Some((ValueView::Text(text), e)),
            None => None,
        }
    } else if has(s, i, 0x2d) || (0 <= i < s.len() && is_digit(s[i])) {
        match number_end(s, i) {
            Some(e) => Some(
                (
                    match kept_integer(s, i) {
                        Some(v) => ValueView::Integer(v),
                        None => ValueView::Other,
                    },
                    e,
                ),
            ),
            None => None,
        }
    } else {
        match value_end(s, i, MAX_DEPTH as nat) {
            Some(e) => Some((ValueView::Other, e)),
            None => None,
        }
    }
}

/// The member whose key starts at `i`, and where its value ends.
pub open spec fn member_at(s: Seq<u8>, i: int) -> Option<(MemberView, int)> {
    match string_at(s, i) {
        None => None,
        Some((key, j)) => {
            let k = ws_end(s, j);
            if has(s, k, 0x3a) {
                match scalar_at(s, ws_end(s, k + 1)) {
                    Some((value, e)) => Some((MemberView { key, value }, e)),
                    None => None,
                }
            } else {
                None
            }
        },
    }
}

/// The members from the one whose key starts at `i` to the end of the
/// object, after which only whitespace may follow.
pub open spec fn members_from(s: Seq<u8>, i: int) -> Option<Seq<MemberView>>
    decreases s.len() - i,
{
    match member_at(s, i) {
        None => None,
        Some((member, e)) => {
            let k = ws_end(s, e);
            if has(s, k, 0x2c) {
                let n = ws_end(s, k + 1);
                if i < n <= s.len() {
                    match members_from(s, n) {
                        Some(rest) => Some(seq![member] + rest),
                        None => None,
                    }
                } else {
                    None
                }
            } else if has(s, k, 0x7d) {
                if ws_end(s, k + 1) == s.len() {
                    Some(seq![member])
                } else {
                    None
                }
            } else {
                None
            }
        },
    }
}

/// The members of the object that `s` holds, in the order they are written;
/// `None` where `s` is not one well-formed object.
pub open spec fn spec_parse_object(s: Seq<u8>) -> Option<Seq<MemberView>> {
    let i = ws_end(s, 0);
    if has(s, i, 0x7b) {
        let j = ws_end(s, i + 1);
        if has(s, j, 0x7d) {
            if ws_end(s, j + 1) == s.len() {
                Some(Seq::empty())
            } else {
                None
            }
        } else {
            members_from(s, j)
        }
    } else {
        None
    }
}

/// The value of the last member named `key`.
pub open spec fn spec_find(members: Seq<MemberView>, key: Seq<u8>) -> Option<ValueView>
    decreases members.len(),
{
    if members.len() == 0 {
        None
    } else if members.last().key == key {
        Some(members.last().value)
    } else {
        spec_find(members.drop_last(), key)
    }
}

/// Reads the value at `i` as the library keeps it.
pub fn read_scalar(s: &[u8], i: usize) -> (r: Option<(JsonValue, usize)>)
    ensures
        match r {
            Some((value, end)) => scalar_at(s@, i as int) == Some((value@, end as int)) && i < end
                <= s@.len(),
            None => scalar_at(s@, i as int) is None,
        },
{
    if i < s.len() && s[i] == 0x22 {
        match read_string(s, i) {
            Some((text, end)) => Some((JsonValue::Text(text), end)),
            None => None,
        }
    } else if i < s.len() && (s[i] == 0x2d || (0x30 <= s[i] && s[i] <= 0x39)) {
        match read_number(s, i) {
            Some((Some(v), end)) => Some((JsonValue::Integer(v), end)),
            Some((None, end)) => Some((JsonValue::Other, end)),
            None => None,
        }
    } else {
        match skip_value(s, i, MAX_DEPTH) {
            Some(end) => Some((JsonValue::Other, end)),
            None => None,
        }
    }
}

/// Reads the member whose key starts at `i`.
pub fn read_member(s: &[u8], i: usize) -> (r: Option<(Member, usize)>)
    ensures
        match r {
            Some((member, end)) => member_at(s@, i as int) == Some((member@, end as int)) && i < end
                <= s@.len(),
            None => member_at(s@, i as int) is None,
        },
{
    let (key, after_key) = match read_string(s, i) {
        Some(found) => found,
        None => {
            return None;
        },
    };
    let colon = skip_ws(s, after_key);
    if colon >= s.len() || s[colon] != 0x3a {
        return None;
    }
    let start = skip_ws(s, colon + 1);
    match read_scalar(s, start) {
        Some((value, end)) => Some((Member { key, value }, end)),
        None => None,
    }
}

/// Reads the one object that `doc` holds.
pub fn parse_object(doc: &[u8]) -> (r: Option<Vec<Member>>)
    ensures
        match r {
            Some(members) => spec_parse_object(doc@) == Some(members_view(members@)),
            None => spec_parse_object(doc@) is None,
        },
{
    let n = doc.len();
    let open = skip_ws(doc, 0);
    if open >= n || doc[open] != 0x7b {
        return None;
    }
    let first = skip_ws(doc, open + 1);
    let mut members: Vec<Member> = Vec::new();
    if first < n && doc[first] == 0x7d {
        if skip_ws(doc, first + 1) == n {
            assert(members_view(members@) =~= Seq::<MemberView>::empty());
            return Some(members);
        }
        return None;
    }
    assert(members_view(members@) =~= Seq::<MemberView>::empty());
    let mut j: usize = first;
    loop
        invariant
            j <= doc@.len(),
            n == doc@.len(),
            spec_parse_object(doc@) == members_from(doc@, first as int),
            members_from(doc@, first as int) == (match members_from(doc@, j as int) {
                Some(rest) => Some(members_view(members@) + rest),
                None => None,
            }),
        decreases doc@.len() - j,
    {
        let (member, end) = match read_member(doc, j) {
            Some(found) => found,
            None => {
                return None;
            },
        };
        let ghost before = members_view(members@);
        let ghost m = member@;
        members.push(member);
        assert(members_view(members@) =~= before + seq![m]);
        let k = skip_ws(doc, end);
        if k < n && doc[k] == 0x2c {
            let next = skip_ws(doc, k + 1);
            proof {
                match members_from(doc@, next as int) {
                    Some(rest) => {
                        assert(before + (seq![m] + rest) =~= (before + seq![m]) + rest);
                    },
                    None => {},
                }
            }
            j = next;
        } else if k < n && doc[k] == 0x7d {
            if skip_ws(doc, k + 1) == n {
                return Some(members);
            }
            return None;
        } else {
            return None;
        }
    }
}

/// Whether two byte strings are the same.
pub fn same_bytes(a: &[u8], b: &[u8]) -> (same: bool)
    ensures
        same == (a@ == b@),
{
    if a.len() != b.len() {
        return false;
    }
    let mut i: usize = 0;
    while i < a.len()
        invariant
            i <= a@.len(),
            a@.len() == b@.len(),
            forall|k: int| 0 <= k < i ==> a@[k] == b@[k],
        decreases a@.len() - i,
    {
        if a[i] != b[i] {
            return false;
        }
        i = i + 1;
    }
    assert(a@ =~= b@);
    true
}

/// Finds the value of the last member named `key`.
pub fn find<'a>(members: &'a Vec<Member>, key: &[u8]) -> (r: Option<&'a JsonValue>)
    ensures
        match r {
            Some(value) => spec_find(members_view(members@), key@) == Some(value@),
            None => spec_find(members_view(members@), key@) is None,
        },
{
    let ghost all = members_view(members@);
    let mut i: usize = members.len();
    assert(all.take(i as int) =~= all);
    while i > 0
        invariant
            i <= members@.len(),
            all == members_view(members@),
            spec_find(all, key@) == spec_find(all.take(i as int), key@),
        decreases i,
    {
        assert(all.take(i as int).last() == members@[i - 1]@);
        assert(all.take(i as int).drop_last() =~= all.take(i - 1));
        if same_bytes(members[i - 1].key.as_slice(), key) {
            return Some(&members[i - 1].value);
        }
        i = i - 1;
    }
    assert(all.take(0).len() == 0);
    None
}

} // verus!
