//! Reading a JSON object: the members of the outermost object, with their
//! text and integer values; everything else is checked for syntax and passed
//! over.

use vstd::prelude::*;

use crate::config::{digits_value, is_digit};

verus! {

/// Deepest nesting of arrays and objects that is read.
pub const MAX_DEPTH: u32 = 32;

/// Whether `c` is JSON whitespace.
pub open spec fn is_ws(c: u8) -> bool {
    c == 0x20 || c == 0x09 || c == 0x0a || c == 0x0d
}

/// The first position from `i` on that holds no whitespace.
pub open spec fn ws_end(s: Seq<u8>, i: int) -> int
    decreases s.len() - i,
{
    if 0 <= i < s.len() && is_ws(s[i]) {
        ws_end(s, i + 1)
    } else {
        i
    }
}

/// The first position from `i` on that holds no decimal digit.
pub open spec fn digits_end(s: Seq<u8>, i: int) -> int
    decreases s.len() - i,
{
    if 0 <= i < s.len() && is_digit(s[i]) {
        digits_end(s, i + 1)
    } else {
        i
    }
}

/// Whether position `i` of `s` holds the byte `c`.
pub open spec fn has(s: Seq<u8>, i: int, c: u8) -> bool {
    0 <= i < s.len() && s[i] == c
}

/// The value of a hexadecimal digit.
pub open spec fn hex_value(c: u8) -> Option<int> {
    if 0x30 <= c <= 0x39 {
        Some(c - 0x30)
    } else if 0x41 <= c <= 0x46 {
        Some(c - 0x41 + 10)
    } else if 0x61 <= c <= 0x66 {
        Some(c - 0x61 + 10)
    } else {
        None
    }
}

/// The 16-bit value of the four hexadecimal digits at `i`.
pub open spec fn hex4(s: Seq<u8>, i: int) -> Option<int> {
    if 0 <= i && i + 4 <= s.len() && hex_value(s[i]) is Some && hex_value(s[i + 1]) is Some
        && hex_value(s[i + 2]) is Some && hex_value(s[i + 3]) is Some {
        Some(
            hex_value(s[i])->0 * 4096 + hex_value(s[i + 1])->0 * 256 + hex_value(s[i + 2])->0 * 16
                + hex_value(s[i + 3])->0,
        )
    } else {
        None
    }
}

/// The UTF-8 form of a code point below 0x110000.
pub open spec fn utf8_of(cp: int) -> Seq<u8> {
    if cp < 0x80 {
        seq![cp as u8]
    } else if cp < 0x800 {
        seq![(0xc0 + cp / 64) as u8, (0x80 + cp % 64) as u8]
    } else if cp < 0x10000 {
        seq![(0xe0 + cp / 4096) as u8, (0x80 + (cp / 64) % 64) as u8, (0x80 + cp % 64) as u8]
    } else {
        seq![
            (0xf0 + cp / 262144) as u8,
            (0x80 + (cp / 4096) % 64) as u8,
            (0x80 + (cp / 64) % 64) as u8,
            (0x80 + cp % 64) as u8,
        ]
    }
}

/// What the escape whose letter stands at `i` writes, and where it ends.
///
/// A `\u` escape writes the UTF-8 form of its code point; a high surrogate
/// must be followed by an escaped low surrogate, and a low surrogate cannot
/// stand alone.
pub open spec fn escape_at(s: Seq<u8>, i: int) -> Option<(Seq<u8>, int)> {
    if !(0 <= i < s.len()) {
        None
    } else if s[i] == 0x22 || s[i] == 0x5c || s[i] == 0x2f {
        Some((seq![s[i]], i + 1))
    } else if s[i] == 0x62 {
        Some((seq![0x08u8], i + 1))
    } else if s[i] == 0x66 {
        Some((seq![0x0cu8], i + 1))
    } else if s[i] == 0x6e {
        Some((seq![0x0au8], i + 1))
    } else if s[i] == 0x72 {
        Some((seq![0x0du8], i + 1))
    } else if s[i] == 0x74 {
        Some((seq![0x09u8], i + 1))
    } else if s[i] == 0x75 {
        match hex4(s, i + 1) {
            None => None,
            Some(unit) => if 0xd800 <= unit < 0xdc00 {
                if has(s, i + 5, 0x5c) && has(s, i + 6, 0x75) {
                    match hex4(s, i + 7) {
                        Some(low) => if 0xdc00 <= low < 0xe000 {
                            Some(
                                (
                                    utf8_of(0x10000 + (unit - 0xd800) * 1024 + (low - 0xdc00)),
                                    i + 11,
                                ),
                            )
                        } else {
                            None
                        },
                        None => None,
                    }
                } else {
                    None
                }
            } else if 0xdc00 <= unit < 0xe000 {
                None
            } else {
                Some((utf8_of(unit), i + 5))
            },
        }
    } else {
        None
    }
}

/// The bytes that the escape at `i` writes.
pub open spec fn escape_bytes(s: Seq<u8>, i: int) -> Seq<u8> {
    match escape_at(s, i) {
        Some((bytes, _)) => bytes,
        None => Seq::empty(),
    }
}

/// The position after the escape at `i`.
pub open spec fn escape_end(s: Seq<u8>, i: int) -> int {
    match escape_at(s, i) {
        Some((_, next)) => next,
        None => i,
    }
}

/// The rest of a string from inside it: the bytes it writes up to the closing
/// quote, and the position after that quote.
pub open spec fn string_body(s: Seq<u8>, i: int) -> Option<(Seq<u8>, int)>
    decreases s.len() - i,
{
    if !(0 <= i < s.len()) {
        None
    } else if s[i] == 0x22 {
        Some((Seq::empty(), i + 1))
    } else if s[i] < 0x20 {
        None
    } else if s[i] == 0x5c {
        match escape_at(s, i + 1) {
            Some((bytes, next)) => if next > i {
                match string_body(s, next) {
                    Some((rest, end)) => Some((bytes + rest, end)),
                    None => None,
                }
            } else {
                None
            },
            None => None,
        }
    } else {
        match string_body(s, i + 1) {
            Some((rest, end)) => Some((seq![s[i]] + rest, end)),
            None => None,
        }
    }
}

/// The string that opens at `i`: the bytes it writes and the position after
/// its closing quote.
pub open spec fn string_at(s: Seq<u8>, i: int) -> Option<(Seq<u8>, int)> {
    if has(s, i, 0x22) {
        string_body(s, i + 1)
    } else {
        None
    }
}

/// Passes over whitespace.
pub fn skip_ws(s: &[u8], i: usize) -> (j: usize)
    ensures
        j == ws_end(s@, i as int),
        i <= j,
        i <= s@.len() ==> j <= s@.len(),
{
    let mut j = i;
    while j < s.len() && (s[j] == 0x20 || s[j] == 0x09 || s[j] == 0x0a || s[j] == 0x0d)
        invariant
            i <= j,
            i <= s@.len() ==> j <= s@.len(),
            ws_end(s@, i as int) == ws_end(s@, j as int),
        decreases s@.len() - j,
    {
        j = j + 1;
    }
    j
}

/// Passes over decimal digits.
pub fn skip_digits(s: &[u8], i: usize) -> (j: usize)
    ensures
        j == digits_end(s@, i as int),
        i <= j,
        i <= s@.len() ==> j <= s@.len(),
        forall|k: int| i <= k < j ==> is_digit(#[trigger] s@[k]),
{
    let mut j = i;
    while j < s.len() && 0x30 <= s[j] && s[j] <= 0x39
        invariant
            i <= j,
            i <= s@.len() ==> j <= s@.len(),
            digits_end(s@, i as int) == digits_end(s@, j as int),
            forall|k: int| i <= k < j ==> is_digit(#[trigger] s@[k]),
        decreases s@.len() - j,
    {
        j = j + 1;
    }
    j
}

/// Reads one hexadecimal digit.
fn hex_digit(c: u8) -> (r: Option<u32>)
    ensures
        match r {
            Some(v) => hex_value(c) == Some(v as int) && v < 16,
            None => hex_value(c) is None,
        },
{
    if 0x30 <= c && c <= 0x39 {
        Some((c - 0x30) as u32)
    } else if 0x41 <= c && c <= 0x46 {
        Some((c - 0x41 + 10) as u32)
    } else if 0x61 <= c && c <= 0x66 {
        Some((c - 0x61 + 10) as u32)
    } else {
        None
    }
}

/// Reads four hexadecimal digits.
fn read_hex4(s: &[u8], i: usize) -> (r: Option<u32>)
    requires
        i <= s@.len(),
    ensures
        match r {
            Some(v) => hex4(s@, i as int) == Some(v as int) && v < 0x10000 && i + 4 <= s@.len(),
            None => hex4(s@, i as int) is None,
        },
{
    if s.len() - i < 4 {
        return None;
    }
    let a = match hex_digit(s[i]) {
        Some(v) => v,
        None => {
            return None;
        },
    };
    let b = match hex_digit(s[i + 1]) {
        Some(v) => v,
        None => {
            return None;
        },
    };
    let c = match hex_digit(s[i + 2]) {
        Some(v) => v,
        None => {
            return None;
        },
    };
    let d = match hex_digit(s[i + 3]) {
        Some(v) => v,
        None => {
            return None;
        },
    };
    Some(a * 4096 + b * 256 + c * 16 + d)
}

/// Appends the UTF-8 form of a code point.
fn push_utf8(out: &mut Vec<u8>, cp: u32)
    requires
        cp < 0x110000,
    ensures
        final(out)@ == old(out)@ + utf8_of(cp as int),
{
    if cp < 0x80 {
        out.push(cp as u8);
    } else if cp < 0x800 {
        out.push((0xc0 + cp / 64) as u8);
        out.push((0x80 + cp % 64) as u8);
    } else if cp < 0x10000 {
        out.push((0xe0 + cp / 4096) as u8);
        out.push((0x80 + (cp / 64) % 64) as u8);
        out.push((0x80 + cp % 64) as u8);
    } else {
        out.push((0xf0 + cp / 262144) as u8);
        out.push((0x80 + (cp / 4096) % 64) as u8);
        out.push((0x80 + (cp / 64) % 64) as u8);
        out.push((0x80 + cp % 64) as u8);
    }
    assert(out@ =~= old(out)@ + utf8_of(cp as int));
}

/// Reads the escape whose letter stands at `i` and appends what it writes.
fn read_escape(s: &[u8], i: usize, out: &mut Vec<u8>) -> (r: Option<usize>)
    requires
        i <= s@.len(),
    ensures
        match r {
            Some(next) => {
                &&& escape_at(s@, i as int) is Some
                &&& final(out)@ == old(out)@ + escape_bytes(s@, i as int)
                &&& next == escape_end(s@, i as int)
                &&& i < next <= s@.len()
            },
            None => escape_at(s@, i as int) is None,
        },
{
    if i >= s.len() {
        return None;
    }
    let c = s[i];
    if c == 0x22 || c == 0x5c || c == 0x2f {
        out.push(c);
        assert(out@ =~= old(out)@ + seq![c]);
        Some(i + 1)
    } else if c == 0x62 {
        out.push(0x08);
        assert(out@ =~= old(out)@ + seq![0x08u8]);
        Some(i + 1)
    } else if c == 0x66 {
        out.push(0x0c);
        assert(out@ =~= old(out)@ + seq![0x0cu8]);
        Some(i + 1)
    } else if c == 0x6e {
        out.push(0x0a);
        assert(out@ =~= old(out)@ + seq![0x0au8]);
        Some(i + 1)
    } else if c == 0x72 {
        out.push(0x0d);
        assert(out@ =~= old(out)@ + seq![0x0du8]);
        Some(i + 1)
    } else if c == 0x74 {
        out.push(0x09);
        assert(out@ =~= old(out)@ + seq![0x09u8]);
        Some(i + 1)
    } else if c == 0x75 {
        let unit = match read_hex4(s, i + 1) {
            Some(v) => v,
            None => {
                return None;
            },
        };
        if 0xd800 <= unit && unit < 0xdc00 {
            if s.len() - i < 7 || s[i + 5] != 0x5c || s[i + 6] != 0x75 {
                return None;
            }
            let low = match read_hex4(s, i + 7) {
                Some(v) => v,
                None => {
                    return None;
                },
            };
            if low < 0xdc00 || low >= 0xe000 {
                return None;
            }
            push_utf8(out, 0x10000 + (unit - 0xd800) * 1024 + (low - 0xdc00));
            Some(i + 11)
        } else if 0xdc00 <= unit && unit < 0xe000 {
            None
        } else {
            push_utf8(out, unit);
            Some(i + 5)
        }
    } else {
        None
    }
}

/// Reads the string that opens at `i`.
pub fn read_string(s: &[u8], i: usize) -> (r: Option<(Vec<u8>, usize)>)
    ensures
        match r {
            Some((text, end)) => string_at(s@, i as int) == Some((text@, end as int)) && i < end
                <= s@.len(),
            None => string_at(s@, i as int) is None,
        },
{
    if i >= s.len() || s[i] != 0x22 {
        return None;
    }
    let mut out: Vec<u8> = Vec::new();
    let mut j: usize = i + 1;
    loop
        invariant
            i < j <= s@.len(),
            has(s@, i as int, 0x22),
            string_body(s@, i + 1) == (match string_body(s@, j as int) {
                Some((rest, end)) => Some((out@ + rest, end)),
                None => None,
            }),
        decreases s@.len() - j,
    {
        if j >= s.len() {
            return None;
        }
        let c = s[j];
        if c == 0x22 {
            assert(out@ + Seq::<u8>::empty() =~= out@);
            return Some((out, j + 1));
        }
        if c < 0x20 {
            return None;
        }
        if c == 0x5c {
            let ghost before = out@;
            match read_escape(s, j + 1, &mut out) {
                Some(next) => {
                    proof {
                        let bytes = escape_bytes(s@, j + 1);
                        match string_body(s@, next as int) {
                            Some((rest, end)) => {
                                assert(before + (bytes + rest) =~= (before + bytes) + rest);
                            },
                            None => {},
                        }
                    }
                    j = next;
                },
                None => {
                    return None;
                },
            }
        } else {
            let ghost before = out@;
            out.push(c);
            proof {
                match string_body(s@, j + 1) {
                    Some((rest, end)) => {
                        assert(before + (seq![c] + rest) =~= before.push(c) + rest);
                    },
                    None => {},
                }
            }
            j = j + 1;
        }
    }
}

/// Where the integer part that starts at `j` ends: a single zero, or digits
/// that do not start with one.
pub open spec fn integer_part_end(s: Seq<u8>, j: int) -> Option<int> {
    if !(0 <= j < s.len() && is_digit(s[j])) {
        None
    } else if s[j] == 0x30 {
        Some(j + 1)
    } else {
        Some(digits_end(s, j))
    }
}

/// Where the optional fraction at `k` ends.
pub open spec fn fraction_end(s: Seq<u8>, k: int) -> Option<int> {
    if has(s, k, 0x2e) {
        if k + 1 < s.len() && is_digit(s[k + 1]) {
            Some(digits_end(s, k + 1))
        } else {
            None
        }
    } else {
        Some(k)
    }
}

/// Where the digits of an exponent begin, if one opens at `k`.
pub open spec fn exponent_digits(s: Seq<u8>, k: int) -> int {
    if has(s, k + 1, 0x2b) || has(s, k + 1, 0x2d) {
        k + 2
    } else {
        k + 1
    }
}

/// Where the optional exponent at `k` ends.
pub open spec fn exponent_end(s: Seq<u8>, k: int) -> Option<int> {
    if has(s, k, 0x65) || has(s, k, 0x45) {
        let m = exponent_digits(s, k);
        if 0 <= m < s.len() && is_digit(s[m]) {
            Some(digits_end(s, m))
        } else {
            None
        }
    } else {
        Some(k)
    }
}

/// The number at `i`: where it ends, and what it counts where it is written
/// without fraction and exponent.
pub open spec fn number_at(s: Seq<u8>, i: int) -> Option<(Option<int>, int)> {
    let j = if has(s, i, 0x2d) {
        i + 1
    } else {
        i
    };
    match integer_part_end(s, j) {
        None => None,
        Some(k) => match fraction_end(s, k) {
            None => None,
            Some(f) => match exponent_end(s, f) {
                None => None,
                Some(e) => Some(
                    (
                        if e == k {
                            let magnitude = digits_value(s.subrange(j, k)) as int;
                            Some(
                                if j == i {
                                    magnitude
                                } else {
                                    -magnitude
                                },
                            )
                        } else {
                            None
                        },
                        e,
                    ),
                ),
            },
        },
    }
}

/// Where the number at `i` ends.
pub open spec fn number_end(s: Seq<u8>, i: int) -> Option<int> {
    match number_at(s, i) {
        Some((_, e)) => Some(e),
        None => None,
    }
}

/// Whether the bytes of `word` stand at `i`.
pub open spec fn has_word(s: Seq<u8>, i: int, word: Seq<u8>) -> bool {
    0 <= i && i + word.len() <= s.len() && s.subrange(i, i + word.len()) == word
}

/// Where the literal at `i` ends: `true`, `false` or `null`.
pub open spec fn literal_end(s: Seq<u8>, i: int) -> Option<int> {
    if has_word(s, i, seq![0x74u8, 0x72, 0x75, 0x65]) {
        Some(i + 4)
    } else if has_word(s, i, seq![0x66u8, 0x61, 0x6c, 0x73, 0x65]) {
        Some(i + 5)
    } else if has_word(s, i, seq![0x6eu8, 0x75, 0x6c, 0x6c]) {
        Some(i + 4)
    } else {
        None
    }
}

/// Where the value at `i` ends, if it is well-formed and nests no deeper than
/// `depth`.
pub open spec fn value_end(s: Seq<u8>, i: int, depth: nat) -> Option<int>
    decreases depth, 0int, 0int,
{
    if !(0 <= i < s.len()) {
        None
    } else if s[i] == 0x22 {
        match string_at(s, i) {
            Some((_, e)) => Some(e),
            None => None,
        }
    } else if s[i] == 0x7b {
        if depth == 0 {
            None
        } else {
            let j = ws_end(s, i + 1);
            if has(s, j, 0x7d) {
                Some(j + 1)
            } else {
                members_end(s, j, (depth - 1) as nat)
            }
        }
    } else if s[i] == 0x5b {
        if depth == 0 {
            None
        } else {
            let j = ws_end(s, i + 1);
            if has(s, j, 0x5d) {
                Some(j + 1)
            } else {
                elements_end(s, j, (depth - 1) as nat)
            }
        }
    } else if s[i] == 0x74 || s[i] == 0x66 || s[i] == 0x6e {
        literal_end(s, i)
    } else {
        number_end(s, i)
    }
}

/// Where the array ends whose next element starts at `i`.
pub open spec fn elements_end(s: Seq<u8>, i: int, depth: nat) -> Option<int>
    decreases depth, 1int, s.len() - i,
{
    match value_end(s, i, depth) {
        None => None,
        Some(e) => {
            let k = ws_end(s, e);
            if has(s, k, 0x2c) {
                let n = ws_end(s, k + 1);
                if i < n <= s.len() {
                    elements_end(s, n, depth)
                } else {
                    None
                }
            } else if has(s, k, 0x5d) {
                Some(k + 1)
            } else {
                None
            }
        },
    }
}

/// Where the value of the member ends whose key starts at `i`.
pub open spec fn member_value_end(s: Seq<u8>, i: int, depth: nat) -> Option<int>
    decreases depth, 1int, 0int,
{
    match string_at(s, i) {
        None => None,
        Some((_, j)) => {
            let k = ws_end(s, j);
            if has(s, k, 0x3a) {
                value_end(s, ws_end(s, k + 1), depth)
            } else {
                None
            }
        },
    }
}

/// Where the object ends whose next member starts at `i`.
pub open spec fn members_end(s: Seq<u8>, i: int, depth: nat) -> Option<int>
    decreases depth, 2int, s.len() - i,
{
    match member_value_end(s, i, depth) {
        None => None,
        Some(e) => {
            let k = ws_end(s, e);
            if has(s, k, 0x2c) {
                let n = ws_end(s, k + 1);
                if i < n <= s.len() {
                    members_end(s, n, depth)
                } else {
                    None
                }
            } else if has(s, k, 0x7d) {
                Some(k + 1)
            } else {
                None
            }
        },
    }
}

} // verus!
