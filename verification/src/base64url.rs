//! The URL-safe base64 alphabet without padding, as it appears in the
//! segments of a bearer token and in a session cookie.
//!
//! Only the canonical form is accepted: the bits that the last character
//! leaves over must be zero, so every byte string has exactly one encoding.

use vstd::prelude::*;

verus! {

/// The character that stands for a six-bit value.
pub open spec fn sextet_char(v: int) -> u8 {
    if 0 <= v < 26 {
        (0x41 + v) as u8
    } else if 26 <= v < 52 {
        (0x61 + v - 26) as u8
    } else if 52 <= v < 62 {
        (0x30 + v - 52) as u8
    } else if v == 62 {
        0x2d
    } else {
        0x5f
    }
}

/// The six-bit value that a character stands for, if it is in the alphabet.
pub open spec fn char_sextet(c: u8) -> Option<int> {
    if 0x41 <= c <= 0x5a {
        Some(c - 0x41)
    } else if 0x61 <= c <= 0x7a {
        Some(c - 0x61 + 26)
    } else if 0x30 <= c <= 0x39 {
        Some(c - 0x30 + 52)
    } else if c == 0x2d {
        Some(62)
    } else if c == 0x5f {
        Some(63)
    } else {
        None
    }
}

/// The six-bit value at position `j` of `text`; 0 outside the alphabet.
pub open spec fn sextet_at(text: Seq<u8>, j: int) -> int {
    match char_sextet(text[j]) {
        Some(v) => v,
        None => 0,
    }
}

/// Number of bytes that `n` characters decode to.
pub open spec fn decoded_len(n: int) -> int {
    n * 3 / 4
}

/// Number of characters that `n` bytes encode to.
pub open spec fn encoded_len(n: int) -> int {
    (n * 4 + 2) / 3
}

/// Whether `text` is the encoding of some bytes: alphabet characters only,
/// a possible length, and no stray bits in the last character.
pub open spec fn is_encoded(text: Seq<u8>) -> bool {
    &&& text.len() % 4 != 1
    &&& forall|j: int| 0 <= j < text.len() ==> (#[trigger] char_sextet(text[j])) is Some
    &&& text.len() % 4 == 2 ==> sextet_at(text, text.len() - 1) % 16 == 0
    &&& text.len() % 4 == 3 ==> sextet_at(text, text.len() - 1) % 4 == 0
}

/// Byte `i` of what `text` decodes to.
pub open spec fn decoded_byte(text: Seq<u8>, i: int) -> u8 {
    let q = 4 * (i / 3);
    if i % 3 == 0 {
        (sextet_at(text, q) * 4 + sextet_at(text, q + 1) / 16) as u8
    } else if i % 3 == 1 {
        ((sextet_at(text, q + 1) % 16) * 16 + sextet_at(text, q + 2) / 4) as u8
    } else {
        ((sextet_at(text, q + 2) % 4) * 64 + sextet_at(text, q + 3)) as u8
    }
}

/// The bytes that `text` encodes, if it encodes any.
pub open spec fn spec_decode(text: Seq<u8>) -> Option<Seq<u8>> {
    if is_encoded(text) {
        Some(Seq::new(decoded_len(text.len() as int) as nat, |i: int| decoded_byte(text, i)))
    } else {
        None
    }
}

/// Byte `i` of `bytes`, and 0 past its end.
pub open spec fn byte_or_zero(bytes: Seq<u8>, i: int) -> int {
    if 0 <= i < bytes.len() {
        bytes[i] as int
    } else {
        0
    }
}

/// Character `j` of the encoding of `bytes`.
pub open spec fn encoded_char(bytes: Seq<u8>, j: int) -> u8 {
    let q = 3 * (j / 4);
    if j % 4 == 0 {
        sextet_char(byte_or_zero(bytes, q) / 4)
    } else if j % 4 == 1 {
        sextet_char((byte_or_zero(bytes, q) % 4) * 16 + byte_or_zero(bytes, q + 1) / 16)
    } else if j % 4 == 2 {
        sextet_char((byte_or_zero(bytes, q + 1) % 16) * 4 + byte_or_zero(bytes, q + 2) / 64)
    } else {
        sextet_char(byte_or_zero(bytes, q + 2) % 64)
    }
}

/// The encoding of `bytes`.
pub open spec fn spec_encode(bytes: Seq<u8>) -> Seq<u8> {
    Seq::new(encoded_len(bytes.len() as int) as nat, |j: int| encoded_char(bytes, j))
}

/// A six-bit value survives being written as a character and read back.
pub proof fn sextet_round_trip(v: int)
    requires
        0 <= v < 64,
    ensures
        char_sextet(sextet_char(v)) == Some(v),
{
}

/// A character of the alphabet survives being read and written back.
pub proof fn char_round_trip(c: u8)
    requires
        char_sextet(c) is Some,
    ensures
        0 <= char_sextet(c)->0 < 64,
        sextet_char(char_sextet(c)->0) == c,
{
}

/// The four six-bit values of three bytes, and back.
proof fn group_of_bytes(b0: int, b1: int, b2: int)
    requires
        0 <= b0 < 256,
        0 <= b1 < 256,
        0 <= b2 < 256,
    ensures
        0 <= b0 / 4 < 64,
        0 <= (b0 % 4) * 16 + b1 / 16 < 64,
        0 <= (b1 % 16) * 4 + b2 / 64 < 64,
        0 <= b2 % 64 < 64,
        (b0 / 4) * 4 + ((b0 % 4) * 16 + b1 / 16) / 16 == b0,
        (((b0 % 4) * 16 + b1 / 16) % 16) * 16 + ((b1 % 16) * 4 + b2 / 64) / 4 == b1,
        (((b1 % 16) * 4 + b2 / 64) % 4) * 64 + b2 % 64 == b2,
        b1 == 0 ==> ((b0 % 4) * 16 + b1 / 16) % 16 == 0,
        b2 == 0 ==> ((b1 % 16) * 4 + b2 / 64) % 4 == 0,
{
}

/// The three bytes of four six-bit values, and back.
proof fn group_of_sextets(s0: int, s1: int, s2: int, s3: int)
    requires
        0 <= s0 < 64,
        0 <= s1 < 64,
        0 <= s2 < 64,
        0 <= s3 < 64,
    ensures
        0 <= s0 * 4 + s1 / 16 < 256,
        0 <= (s1 % 16) * 16 + s2 / 4 < 256,
        0 <= (s2 % 4) * 64 + s3 < 256,
        (s0 * 4 + s1 / 16) / 4 == s0,
        ((s0 * 4 + s1 / 16) % 4) * 16 + ((s1 % 16) * 16 + s2 / 4) / 16 == s1,
        (((s1 % 16) * 16 + s2 / 4) % 16) * 4 + ((s2 % 4) * 64 + s3) / 64 == s2,
        ((s2 % 4) * 64 + s3) % 64 == s3,
        s1 % 16 == 0 ==> ((s0 * 4 + s1 / 16) % 4) * 16 == s1,
        s2 % 4 == 0 ==> (((s1 % 16) * 16 + s2 / 4) % 16) * 4 == s2,
{
}

/// The six-bit value behind character `j` of an encoding.
proof fn sextet_of_encoding(bytes: Seq<u8>, j: int)
    requires
        0 <= j < encoded_len(bytes.len() as int),
    ensures
        char_sextet(spec_encode(bytes)[j]) is Some,
        0 <= sextet_at(spec_encode(bytes), j) < 64,
        j % 4 == 0 ==> sextet_at(spec_encode(bytes), j) == byte_or_zero(bytes, 3 * (j / 4)) / 4,
        j % 4 == 1 ==> sextet_at(spec_encode(bytes), j) == (byte_or_zero(bytes, 3 * (j / 4)) % 4)
            * 16 + byte_or_zero(bytes, 3 * (j / 4) + 1) / 16,
        j % 4 == 2 ==> sextet_at(spec_encode(bytes), j) == (byte_or_zero(bytes, 3 * (j / 4) + 1)
            % 16) * 4 + byte_or_zero(bytes, 3 * (j / 4) + 2) / 64,
        j % 4 == 3 ==> sextet_at(spec_encode(bytes), j) == byte_or_zero(bytes, 3 * (j / 4) + 2)
            % 64,
{
    let q = 3 * (j / 4);
    let b0 = byte_or_zero(bytes, q);
    let b1 = byte_or_zero(bytes, q + 1);
    let b2 = byte_or_zero(bytes, q + 2);
    group_of_bytes(b0, b1, b2);
    assert(spec_encode(bytes)[j] == encoded_char(bytes, j));
    if j % 4 == 0 {
        sextet_round_trip(b0 / 4);
    } else if j % 4 == 1 {
        sextet_round_trip((b0 % 4) * 16 + b1 / 16);
    } else if j % 4 == 2 {
        sextet_round_trip((b1 % 16) * 4 + b2 / 64);
    } else {
        sextet_round_trip(b2 % 64);
    }
}

/// Byte `i` of what an encoding decodes to is byte `i` of what was encoded.
proof fn byte_of_encoding(bytes: Seq<u8>, i: int)
    requires
        0 <= i < bytes.len(),
    ensures
        decoded_byte(spec_encode(bytes), i) == bytes[i],
{
    let text = spec_encode(bytes);
    let n = bytes.len() as int;
    let a = i / 3;
    let q = 4 * a;
    assert(text.len() == (n * 4 + 2) / 3);
    assert(q / 4 == a && q % 4 == 0);
    assert((q + 1) / 4 == a && (q + 1) % 4 == 1);
    assert((q + 2) / 4 == a && (q + 2) % 4 == 2);
    assert((q + 3) / 4 == a && (q + 3) % 4 == 3);
    let b0 = byte_or_zero(bytes, 3 * a);
    let b1 = byte_or_zero(bytes, 3 * a + 1);
    let b2 = byte_or_zero(bytes, 3 * a + 2);
    group_of_bytes(b0, b1, b2);
    assert(q + 1 < text.len());
    sextet_of_encoding(bytes, q);
    sextet_of_encoding(bytes, q + 1);
    if i % 3 == 0 {
        assert(i == 3 * a);
    } else if i % 3 == 1 {
        assert(i == 3 * a + 1);
        assert(q + 2 < text.len());
        sextet_of_encoding(bytes, q + 2);
    } else {
        assert(i == 3 * a + 2);
        assert(q + 3 < text.len());
        sextet_of_encoding(bytes, q + 2);
        sextet_of_encoding(bytes, q + 3);
    }
}

/// An encoding has a possible length and leaves no stray bits.
proof fn encoding_is_canonical(bytes: Seq<u8>)
    ensures
        is_encoded(spec_encode(bytes)),
{
    let text = spec_encode(bytes);
    let n = bytes.len() as int;
    let m = text.len() as int;
    assert(m == (n * 4 + 2) / 3);
    assert forall|j: int| 0 <= j < m implies (#[trigger] char_sextet(text[j])) is Some by {
        sextet_of_encoding(bytes, j);
    }
    if m % 4 == 2 {
        let a = (m - 1) / 4;
        assert(m - 1 == 4 * a + 1);
        assert(n == 3 * a + 1);
        sextet_of_encoding(bytes, m - 1);
        group_of_bytes(byte_or_zero(bytes, 3 * a), 0, 0);
    }
    if m % 4 == 3 {
        let a = (m - 1) / 4;
        assert(m - 1 == 4 * a + 2);
        assert(n == 3 * a + 2);
        sextet_of_encoding(bytes, m - 1);
        group_of_bytes(0, byte_or_zero(bytes, 3 * a + 1), 0);
    }
}

/// Decoding undoes encoding: every byte string is what its encoding decodes
/// to.
pub proof fn decode_inverts_encode(bytes: Seq<u8>)
    ensures
        is_encoded(spec_encode(bytes)),
        spec_decode(spec_encode(bytes)) == Some(bytes),
{
    let text = spec_encode(bytes);
    let n = bytes.len() as int;
    encoding_is_canonical(bytes);
    assert(text.len() == (n * 4 + 2) / 3);
    assert(decoded_len(text.len() as int) == n);
    let back = spec_decode(text)->0;
    assert forall|i: int| 0 <= i < n implies back[i] == bytes[i] by {
        byte_of_encoding(bytes, i);
    }
    assert(back =~= bytes);
}

/// Character `j` of the encoding of what a text decodes to is character `j`
/// of the text.
proof fn char_of_decoding(text: Seq<u8>, j: int)
    requires
        is_encoded(text),
        0 <= j < text.len(),
    ensures
        encoded_char(spec_decode(text)->0, j) == text[j],
{
    let bytes = spec_decode(text)->0;
    let m = text.len() as int;
    let n = bytes.len() as int;
    assert(n == m * 3 / 4);
    let a = j / 4;
    let base = 4 * a;
    let q = 3 * a;
    assert(q / 3 == a && q % 3 == 0);
    assert((q + 1) / 3 == a && (q + 1) % 3 == 1);
    assert((q + 2) / 3 == a && (q + 2) % 3 == 2);
    let s0 = sextet_at(text, base);
    let s1 = if base + 1 < m { sextet_at(text, base + 1) } else { 0 };
    let s2 = if base + 2 < m { sextet_at(text, base + 2) } else { 0 };
    let s3 = if base + 3 < m { sextet_at(text, base + 3) } else { 0 };
    assert(char_sextet(text[base]) is Some);
    char_round_trip(text[base]);
    assert(base + 1 < m);
    assert(char_sextet(text[base + 1]) is Some);
    char_round_trip(text[base + 1]);
    if base + 2 < m {
        assert(char_sextet(text[base + 2]) is Some);
        char_round_trip(text[base + 2]);
    }
    if base + 3 < m {
        assert(char_sextet(text[base + 3]) is Some);
        char_round_trip(text[base + 3]);
    }
    group_of_sextets(s0, s1, s2, s3);
    assert(q < n);
    assert(bytes[q] == decoded_byte(text, q));
    assert(byte_or_zero(bytes, q) == s0 * 4 + s1 / 16);
    if base + 2 < m {
        assert(q + 1 < n);
        assert(bytes[q + 1] == decoded_byte(text, q + 1));
        assert(byte_or_zero(bytes, q + 1) == (s1 % 16) * 16 + s2 / 4);
    } else {
        assert(m == base + 2);
        assert(n == q + 1);
        assert(s1 % 16 == 0);
        assert(byte_or_zero(bytes, q + 1) == 0);
    }
    if base + 3 < m {
        assert(q + 2 < n);
        assert(bytes[q + 2] == decoded_byte(text, q + 2));
        assert(byte_or_zero(bytes, q + 2) == (s2 % 4) * 64 + s3);
    } else {
        assert(byte_or_zero(bytes, q + 2) == 0);
        if base + 2 < m {
            assert(m == base + 3);
            assert(s2 % 4 == 0);
        }
    }
}

/// Encoding undoes decoding: a text that decodes is the encoding of what it
/// decodes to, so no two texts decode to the same bytes.
pub proof fn encode_inverts_decode(text: Seq<u8>)
    requires
        is_encoded(text),
    ensures
        spec_encode(spec_decode(text)->0) == text,
{
    let bytes = spec_decode(text)->0;
    let m = text.len() as int;
    let n = bytes.len() as int;
    assert(n == m * 3 / 4);
    assert((n * 4 + 2) / 3 == m);
    let again = spec_encode(bytes);
    assert forall|j: int| 0 <= j < m implies again[j] == text[j] by {
        char_of_decoding(text, j);
    }
    assert(again =~= text);
}

/// Reads one character of the alphabet.
pub fn sextet_of(c: u8) -> (r: Option<u8>)
    ensures
        match r {
            Some(v) => char_sextet(c) == Some(v as int) && v < 64,
            None => char_sextet(c) is None,
        },
{
    if 0x41 <= c && c <= 0x5a {
        Some(c - 0x41)
    } else if 0x61 <= c && c <= 0x7a {
        Some(c - 0x61 + 26)
    } else if 0x30 <= c && c <= 0x39 {
        Some(c - 0x30 + 52)
    } else if c == 0x2d {
        Some(62)
    } else if c == 0x5f {
        Some(63)
    } else {
        None
    }
}

/// Writes one six-bit value as a character of the alphabet.
pub fn char_of(v: u8) -> (c: u8)
    ensures
        c == sextet_char(v as int),
{
    if v < 26 {
        0x41 + v
    } else if v < 52 {
        0x61 + (v - 26)
    } else if v < 62 {
        0x30 + (v - 52)
    } else if v == 62 {
        0x2d
    } else {
        0x5f
    }
}

/// Decodes `text`, or finds that it is no canonical encoding.
pub fn decode(text: &[u8]) -> (r: Option<Vec<u8>>)
    ensures
        match r {
            Some(bytes) => spec_decode(text@) == Some(bytes@),
            None => spec_decode(text@) is None,
        },
{
    let n = text.len();
    if n % 4 == 1 {
        return None;
    }
    let mut out: Vec<u8> = Vec::new();
    let mut i: usize = 0;
    while n - i >= 4
        invariant
            i <= n,
            n == text@.len(),
            i % 4 == 0,
            out@.len() == (i / 4) * 3,
            forall|j: int| 0 <= j < i ==> (#[trigger] char_sextet(text@[j])) is Some,
            forall|k: int| 0 <= k < out@.len() ==> out@[k] == decoded_byte(text@, k),
        decreases n - i,
    {
        let s0 = match sextet_of(text[i]) {
            Some(v) => v,
            None => {
                return None;
            },
        };
        let s1 = match sextet_of(text[i + 1]) {
            Some(v) => v,
            None => {
                return None;
            },
        };
        let s2 = match sextet_of(text[i + 2]) {
            Some(v) => v,
            None => {
                return None;
            },
        };
        let s3 = match sextet_of(text[i + 3]) {
            Some(v) => v,
            None => {
                return None;
            },
        };
        let ghost a = (i / 4) as int;
        proof {
            assert(i == 4 * a);
            assert((3 * a) / 3 == a && (3 * a) % 3 == 0);
            assert((3 * a + 1) / 3 == a && (3 * a + 1) % 3 == 1);
            assert((3 * a + 2) / 3 == a && (3 * a + 2) % 3 == 2);
        }
        out.push(s0 * 4 + s1 / 16);
        out.push((s1 % 16) * 16 + s2 / 4);
        out.push((s2 % 4) * 64 + s3);
        i = i + 4;
    }
    let ghost a = (i / 4) as int;
    proof {
        assert(i == 4 * a);
        assert((3 * a) / 3 == a && (3 * a) % 3 == 0);
        assert((3 * a + 1) / 3 == a && (3 * a + 1) % 3 == 1);
    }
    if n - i == 2 {
        let s0 = match sextet_of(text[i]) {
            Some(v) => v,
            None => {
                return None;
            },
        };
        let s1 = match sextet_of(text[i + 1]) {
            Some(v) => v,
            None => {
                return None;
            },
        };
        if s1 % 16 != 0 {
            return None;
        }
        out.push(s0 * 4 + s1 / 16);
    } else if n - i == 3 {
        let s0 = match sextet_of(text[i]) {
            Some(v) => v,
            None => {
                return None;
            },
        };
        let s1 = match sextet_of(text[i + 1]) {
            Some(v) => v,
            None => {
                return None;
            },
        };
        let s2 = match sextet_of(text[i + 2]) {
            Some(v) => v,
            None => {
                return None;
            },
        };
        if s2 % 4 != 0 {
            return None;
        }
        out.push(s0 * 4 + s1 / 16);
        out.push((s1 % 16) * 16 + s2 / 4);
    }
    proof {
        assert(out@.len() == decoded_len(n as int));
        assert(is_encoded(text@));
        assert(out@ =~= spec_decode(text@)->0);
    }
    Some(out)
}

/// Encodes `bytes`.
pub fn encode(bytes: &[u8]) -> (text: Vec<u8>)
    ensures
        text@ == spec_encode(bytes@),
{
    let n = bytes.len();
    let mut text: Vec<u8> = Vec::new();
    let mut i: usize = 0;
    while n - i >= 3
        invariant
            i <= n,
            n == bytes@.len(),
            i % 3 == 0,
            text@.len() == (i / 3) * 4,
            forall|j: int| 0 <= j < text@.len() ==> text@[j] == encoded_char(bytes@, j),
        decreases n - i,
    {
        let b0 = bytes[i];
        let b1 = bytes[i + 1];
        let b2 = bytes[i + 2];
        let ghost a = (i / 3) as int;
        proof {
            assert(i == 3 * a);
            assert((4 * a) / 4 == a && (4 * a) % 4 == 0);
            assert((4 * a + 1) / 4 == a && (4 * a + 1) % 4 == 1);
            assert((4 * a + 2) / 4 == a && (4 * a + 2) % 4 == 2);
            assert((4 * a + 3) / 4 == a && (4 * a + 3) % 4 == 3);
        }
        text.push(char_of(b0 / 4));
        text.push(char_of((b0 % 4) * 16 + b1 / 16));
        text.push(char_of((b1 % 16) * 4 + b2 / 64));
        text.push(char_of(b2 % 64));
        i = i + 3;
    }
    let ghost a = (i / 3) as int;
    proof {
        assert(i == 3 * a);
        assert((4 * a) / 4 == a && (4 * a) % 4 == 0);
        assert((4 * a + 1) / 4 == a && (4 * a + 1) % 4 == 1);
        assert((4 * a + 2) / 4 == a && (4 * a + 2) % 4 == 2);
    }
    if n - i == 1 {
        let b0 = bytes[i];
        text.push(char_of(b0 / 4));
        text.push(char_of((b0 % 4) * 16));
    } else if n - i == 2 {
        let b0 = bytes[i];
        let b1 = bytes[i + 1];
        text.push(char_of(b0 / 4));
        text.push(char_of((b0 % 4) * 16 + b1 / 16));
        text.push(char_of((b1 % 16) * 4));
    }
    proof {
        assert(text@.len() == encoded_len(n as int));
        assert(text@ =~= spec_encode(bytes@));
    }
    text
}

} // verus!
