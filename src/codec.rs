use vstd::prelude::*;

use vstd::utf8::{encode_scalar, encode_utf8, has_width_3_encoding};

use crate::task::TaskKind;

verus! {

pub const COLON: u8 = 58;

pub const PLUS: u8 = 43;

/// Why a request line was rejected.
#[derive(Clone, Copy, Debug, PartialEq, Eq, Structural)]
pub enum DecodeError {
    /// The trimmed line is not two fields separated by a single colon.
    MalformedLine,
    /// The first field is not an unsigned 8-bit decimal number.
    InvalidTaskKind,
    /// The second field is not an unsigned 64-bit decimal number.
    InvalidSeed,
    /// The first field is a number that names no known task kind.
    UnknownTaskKind,
}

/// A decoded request: which task to run, and on which seed.
#[derive(Clone, Copy, Debug, PartialEq, Eq, Structural)]
pub struct Request {
    pub kind: TaskKind,
    pub seed: u64,
}

/// The one-byte whitespace characters: U+0009 to U+000D and U+0020.
pub open spec fn is_ascii_space(b: u8) -> bool {
    b == 9 || b == 10 || b == 11 || b == 12 || b == 13 || b == 32
}

/// The UTF-8 encodings, two bytes long, of U+0085 and U+00A0.
pub open spec fn is_space2(a: u8, b: u8) -> bool {
    a == 0xC2 && (b == 0x85 || b == 0xA0)
}

/// The UTF-8 encodings, three bytes long, of U+1680, U+2000 to U+200A,
/// U+2028, U+2029, U+202F, U+205F and U+3000.
pub open spec fn is_space3(a: u8, b: u8, c: u8) -> bool {
    ||| a == 0xE1 && b == 0x9A && c == 0x80
    ||| a == 0xE2 && b == 0x80 && (0x80 <= c <= 0x8A || c == 0xA8 || c == 0xA9 || c == 0xAF)
    ||| a == 0xE2 && b == 0x81 && c == 0x9F
    ||| a == 0xE3 && b == 0x80 && c == 0x80
}

/// The length of the whitespace character that `s` starts with, or 0. The
/// whitespace characters are those of Unicode's White_Space property, the
/// ones that `char::is_whitespace` accepts.
pub open spec fn lead_space_len(s: Seq<u8>) -> nat {
    if s.len() >= 1 && is_ascii_space(s[0]) {
        1
    } else if s.len() >= 2 && is_space2(s[0], s[1]) {
        2
    } else if s.len() >= 3 && is_space3(s[0], s[1], s[2]) {
        3
    } else {
        0
    }
}

/// The length of the whitespace character that `s` ends with, or 0.
pub open spec fn trail_space_len(s: Seq<u8>) -> nat {
    let n = s.len() as int;
    if n >= 1 && is_ascii_space(s[n - 1]) {
        1
    } else if n >= 2 && is_space2(s[n - 2], s[n - 1]) {
        2
    } else if n >= 3 && is_space3(s[n - 3], s[n - 2], s[n - 1]) {
        3
    } else {
        0
    }
}

/// The characters for which `char::is_whitespace` holds: Unicode's
/// White_Space property.
pub open spec fn is_whitespace_char(c: char) -> bool {
    let v = c as u32;
    ||| 9 <= v <= 13
    ||| v == 32
    ||| v == 0x85
    ||| v == 0xA0
    ||| v == 0x1680
    ||| 0x2000 <= v <= 0x200A
    ||| v == 0x2028
    ||| v == 0x2029
    ||| v == 0x202F
    ||| v == 0x205F
    ||| v == 0x3000
}

proof fn lemma_width_1_bytes(v: u32)
    requires
        v <= 0x7F,
    ensures
        ((v & 0x7F) as u8 == 9 || (v & 0x7F) as u8 == 10 || (v & 0x7F) as u8 == 11 || (v & 0x7F) as u8
            == 12 || (v & 0x7F) as u8 == 13 || (v & 0x7F) as u8 == 32) == (9 <= v <= 13 || v
            == 32),
        ((v & 0x7F) as u8) < 0x80,
{
    assert((v & 0x7F) == v) by (bit_vector)
        requires
            v <= 0x7F,
    ;
}

proof fn lemma_width_2_bytes(v: u32)
    requires
        0x80 <= v <= 0x7FF,
    ensures
        0xC0 <= (0xC0 | ((v >> 6) & 0x1F) as u8) <= 0xDF,
        0x80 <= (0x80 | (v & 0x3F) as u8) <= 0xBF,
        ((0xC0 | ((v >> 6) & 0x1F) as u8) == 0xC2 && ((0x80 | (v & 0x3F) as u8) == 0x85 || (0x80
            | (v & 0x3F) as u8) == 0xA0)) == (v == 0x85 || v == 0xA0),
{
    assert(0xC0 <= (0xC0 | ((v >> 6) & 0x1F) as u8) <= 0xDF) by (bit_vector);
    assert(0x80 <= (0x80 | (v & 0x3F) as u8) <= 0xBF) by (bit_vector);
    assert(((0xC0 | ((v >> 6) & 0x1F) as u8) == 0xC2 && ((0x80 | (v & 0x3F) as u8) == 0x85 || (0x80
        | (v & 0x3F) as u8) == 0xA0)) == (v == 0x85 || v == 0xA0)) by (bit_vector)
        requires
            0x80 <= v <= 0x7FF,
    ;
}

proof fn lemma_width_3_bytes(v: u32)
    requires
        0x800 <= v <= 0xFFFF,
    ensures
        0xE0 <= (0xE0 | ((v >> 12) & 0x0F) as u8),
        0x80 <= (0x80 | ((v >> 6) & 0x3F) as u8) <= 0xBF,
        0x80 <= (0x80 | (v & 0x3F) as u8) <= 0xBF,
        is_space3(
            (0xE0 | ((v >> 12) & 0x0F) as u8),
            (0x80 | ((v >> 6) & 0x3F) as u8),
            (0x80 | (v & 0x3F) as u8),
        ) == (v == 0x1680 || (0x2000 <= v <= 0x200A) || v == 0x2028 || v == 0x2029 || v == 0x202F
            || v == 0x205F || v == 0x3000),
{
    assert(0xE0 <= (0xE0 | ((v >> 12) & 0x0F) as u8)) by (bit_vector);
    assert(0x80 <= (0x80 | ((v >> 6) & 0x3F) as u8) <= 0xBF) by (bit_vector);
    assert(0x80 <= (0x80 | (v & 0x3F) as u8) <= 0xBF) by (bit_vector);
    let a = (0xE0 | ((v >> 12) & 0x0F) as u8);
    let b = (0x80 | ((v >> 6) & 0x3F) as u8);
    let c = (0x80 | (v & 0x3F) as u8);
    assert((a == 0xE1 && b == 0x9A && c == 0x80) == (v == 0x1680)) by (bit_vector)
        requires
            0x800 <= v <= 0xFFFF,
            a == (0xE0 | ((v >> 12) & 0x0F) as u8),
            b == (0x80 | ((v >> 6) & 0x3F) as u8),
            c == (0x80 | (v & 0x3F) as u8),
    ;
    assert((a == 0xE2 && b == 0x80 && (0x80 <= c <= 0x8A || c == 0xA8 || c == 0xA9 || c == 0xAF))
        == ((0x2000 <= v <= 0x200A) || v == 0x2028 || v == 0x2029 || v == 0x202F)) by (bit_vector)
        requires
            0x800 <= v <= 0xFFFF,
            a == (0xE0 | ((v >> 12) & 0x0F) as u8),
            b == (0x80 | ((v >> 6) & 0x3F) as u8),
            c == (0x80 | (v & 0x3F) as u8),
    ;
    assert((a == 0xE2 && b == 0x81 && c == 0x9F) == (v == 0x205F)) by (bit_vector)
        requires
            0x800 <= v <= 0xFFFF,
            a == (0xE0 | ((v >> 12) & 0x0F) as u8),
            b == (0x80 | ((v >> 6) & 0x3F) as u8),
            c == (0x80 | (v & 0x3F) as u8),
    ;
    assert((a == 0xE3 && b == 0x80 && c == 0x80) == (v == 0x3000)) by (bit_vector)
        requires
            0x800 <= v <= 0xFFFF,
            a == (0xE0 | ((v >> 12) & 0x0F) as u8),
            b == (0x80 | ((v >> 6) & 0x3F) as u8),
            c == (0x80 | (v & 0x3F) as u8),
    ;
}

proof fn lemma_width_4_bytes(v: u32)
    ensures
        0xF0 <= (0xF0 | ((v >> 18) & 0x7) as u8),
        0x80 <= (0x80 | ((v >> 12) & 0x3F) as u8) <= 0xBF,
        0x80 <= (0x80 | ((v >> 6) & 0x3F) as u8) <= 0xBF,
        0x80 <= (0x80 | (v & 0x3F) as u8) <= 0xBF,
{
    assert(0xF0 <= (0xF0 | ((v >> 18) & 0x7) as u8)) by (bit_vector);
    assert(0x80 <= (0x80 | ((v >> 12) & 0x3F) as u8) <= 0xBF) by (bit_vector);
    assert(0x80 <= (0x80 | ((v >> 6) & 0x3F) as u8) <= 0xBF) by (bit_vector);
    assert(0x80 <= (0x80 | (v & 0x3F) as u8) <= 0xBF) by (bit_vector);
}

proof fn lemma_encode_char(c: char)
    ensures
        encode_utf8(seq![c]) == encode_scalar(c as u32),
{
    let one = seq![c];
    assert(one.drop_first() =~= Seq::<char>::empty());
    assert(encode_utf8(one.drop_first()) =~= Seq::<u8>::empty());
    assert(encode_utf8(one) == encode_scalar(one[0] as u32) + encode_utf8(one.drop_first()));
    assert(encode_scalar(c as u32) + Seq::<u8>::empty() =~= encode_scalar(c as u32));
}

/// A line that starts with a character starts with whitespace exactly when
/// that character is whitespace in the sense of `char::is_whitespace`; the
/// whitespace then skipped is that character's encoding.
pub proof fn lemma_lead_space_char(c: char, rest: Seq<u8>)
    ensures
        lead_space_len(encode_utf8(seq![c]) + rest) == if is_whitespace_char(c) {
            encode_utf8(seq![c]).len()
        } else {
            0
        },
{
    lemma_encode_char(c);
    let v = c as u32;
    if v <= 0x7F {
        lemma_width_1_bytes(v);
    } else if v <= 0x7FF {
        lemma_width_2_bytes(v);
    } else if has_width_3_encoding(v) {
        lemma_width_3_bytes(v);
    } else {
        lemma_width_4_bytes(v);
    }
}

/// A line that ends with a character ends with whitespace exactly when that
/// character is whitespace in the sense of `char::is_whitespace`; the
/// whitespace then dropped is that character's encoding.
pub proof fn lemma_trail_space_char(rest: Seq<u8>, c: char)
    ensures
        trail_space_len(rest + encode_utf8(seq![c])) == if is_whitespace_char(c) {
            encode_utf8(seq![c]).len()
        } else {
            0
        },
{
    lemma_encode_char(c);
    let v = c as u32;
    let e = encode_utf8(seq![c]);
    let s = rest + e;
    let n = s.len() as int;
    if v <= 0x7F {
        lemma_width_1_bytes(v);
        assert(s[n - 1] == e[0]);
    } else if v <= 0x7FF {
        lemma_width_2_bytes(v);
        assert(s[n - 1] == e[1] && s[n - 2] == e[0]);
    } else if has_width_3_encoding(v) {
        lemma_width_3_bytes(v);
        assert(s[n - 1] == e[2] && s[n - 2] == e[1] && s[n - 3] == e[0]);
    } else {
        lemma_width_4_bytes(v);
        assert(s[n - 1] == e[3] && s[n - 2] == e[2] && s[n - 3] == e[1]);
    }
}

/// `s` without its leading whitespace characters.
pub open spec fn trim_start(s: Seq<u8>) -> Seq<u8>
    decreases s.len(),
{
    if lead_space_len(s) > 0 {
        trim_start(s.subrange(lead_space_len(s) as int, s.len() as int))
    } else {
        s
    }
}

/// `s` without its trailing whitespace characters.
pub open spec fn trim_end(s: Seq<u8>) -> Seq<u8>
    decreases s.len(),
{
    if trail_space_len(s) > 0 {
        trim_end(s.subrange(0, s.len() - trail_space_len(s)))
    } else {
        s
    }
}

/// The encoded line without the whitespace characters at either end.
pub open spec fn trim(s: Seq<u8>) -> Seq<u8> {
    trim_end(trim_start(s))
}

/// `t` holds exactly one colon, at index `p`.
pub open spec fn only_colon_at(t: Seq<u8>, p: int) -> bool {
    &&& 0 <= p < t.len()
    &&& t[p] == COLON
    &&& forall|i: int| 0 <= i < t.len() && i != p ==> t[i] != COLON
}

/// The two fields around the single colon of `t`, if it has exactly one.
pub open spec fn fields(t: Seq<u8>) -> Option<(Seq<u8>, Seq<u8>)> {
    if exists|p: int| only_colon_at(t, p) {
        let p = choose|p: int| only_colon_at(t, p);
        Some((t.subrange(0, p), t.subrange(p + 1, t.len() as int)))
    } else {
        None
    }
}

pub open spec fn is_digit(b: u8) -> bool {
    48 <= b <= 57
}

pub open spec fn all_digits(s: Seq<u8>) -> bool {
    forall|i: int| 0 <= i < s.len() ==> is_digit(s[i])
}

/// The value of a string of decimal digits, most significant first.
pub open spec fn digits_value(s: Seq<u8>) -> nat
    decreases s.len(),
{
    if s.len() == 0 {
        0
    } else {
        digits_value(s.drop_last()) * 10 + (s.last() - 48) as nat
    }
}

/// A number may carry one leading plus sign.
pub open spec fn unsigned_digits(f: Seq<u8>) -> Seq<u8> {
    if f.len() > 0 && f[0] == PLUS {
        f.drop_first()
    } else {
        f
    }
}

/// The value of field `f` read as an unsigned decimal number no larger than `max`.
pub open spec fn parse_unsigned(f: Seq<u8>, max: nat) -> Option<nat> {
    let d = unsigned_digits(f);
    if d.len() > 0 && all_digits(d) && digits_value(d) <= max {
        Some(digits_value(d))
    } else {
        None
    }
}

/// What a request line decodes to, before its task kind is looked up.
pub open spec fn spec_task_value(line: Seq<u8>) -> Result<(u8, u64), DecodeError> {
    match fields(trim(line)) {
        None => Err(DecodeError::MalformedLine),
        Some((k, s)) => match parse_unsigned(k, 255) {
            None => Err(DecodeError::InvalidTaskKind),
            Some(kv) => match parse_unsigned(s, u64::MAX as nat) {
                None => Err(DecodeError::InvalidSeed),
                Some(sv) => Ok((kv as u8, sv as u64)),
            },
        },
    }
}

/// What a request line decodes to.
pub open spec fn spec_decode(line: Seq<u8>) -> Result<Request, DecodeError> {
    match spec_task_value(line) {
        Err(e) => Err(e),
        Ok((k, s)) => match TaskKind::spec_from_u8(k) {
            None => Err(DecodeError::UnknownTaskKind),
            Some(kind) => Ok(Request { kind, seed: s }),
        },
    }
}

proof fn lemma_value_step(s: Seq<u8>)
    requires
        s.len() > 0,
    ensures
        digits_value(s) == digits_value(s.drop_last()) * 10 + (s.last() - 48) as nat,
{
}

proof fn lemma_value_prefix(d: Seq<u8>, k: int)
    requires
        0 <= k <= d.len(),
        all_digits(d),
    ensures
        digits_value(d.subrange(0, k)) <= digits_value(d),
    decreases d.len(),
{
    if k < d.len() {
        assert(d.drop_last().subrange(0, k) =~= d.subrange(0, k));
        lemma_value_prefix(d.drop_last(), k);
    } else {
        assert(d.subrange(0, k) =~= d);
    }
}

/// The length of the whitespace character at the start of `b[lo..hi]`, or 0.
fn space_len_at(b: &[u8], lo: usize, hi: usize) -> (k: usize)
    requires
        lo <= hi <= b@.len(),
    ensures
        k == lead_space_len(b@.subrange(lo as int, hi as int)),
{
    let n = hi - lo;
    if n >= 1 && (b[lo] == 9 || b[lo] == 10 || b[lo] == 11 || b[lo] == 12 || b[lo] == 13 || b[lo]
        == 32) {
        return 1;
    }
    if n >= 2 && b[lo] == 0xC2 && (b[lo + 1] == 0x85 || b[lo + 1] == 0xA0) {
        return 2;
    }
    if n >= 3 {
        let x = b[lo];
        let y = b[lo + 1];
        let z = b[lo + 2];
        if (x == 0xE1 && y == 0x9A && z == 0x80) || (x == 0xE2 && y == 0x80 && ((0x80 <= z && z
            <= 0x8A) || z == 0xA8 || z == 0xA9 || z == 0xAF)) || (x == 0xE2 && y == 0x81 && z
            == 0x9F) || (x == 0xE3 && y == 0x80 && z == 0x80) {
            return 3;
        }
    }
    0
}

/// The length of the whitespace character at the end of `b[lo..hi]`, or 0.
fn space_len_before(b: &[u8], lo: usize, hi: usize) -> (k: usize)
    requires
        lo <= hi <= b@.len(),
    ensures
        k == trail_space_len(b@.subrange(lo as int, hi as int)),
{
    let n = hi - lo;
    if n >= 1 && (b[hi - 1] == 9 || b[hi - 1] == 10 || b[hi - 1] == 11 || b[hi - 1] == 12 || b[hi
        - 1] == 13 || b[hi - 1] == 32) {
        return 1;
    }
    if n >= 2 && b[hi - 2] == 0xC2 && (b[hi - 1] == 0x85 || b[hi - 1] == 0xA0) {
        return 2;
    }
    if n >= 3 {
        let x = b[hi - 3];
        let y = b[hi - 2];
        let z = b[hi - 1];
        if (x == 0xE1 && y == 0x9A && z == 0x80) || (x == 0xE2 && y == 0x80 && ((0x80 <= z && z
            <= 0x8A) || z == 0xA8 || z == 0xA9 || z == 0xAF)) || (x == 0xE2 && y == 0x81 && z
            == 0x9F) || (x == 0xE3 && y == 0x80 && z == 0x80) {
            return 3;
        }
    }
    0
}

/// The first index in `lo..hi` that starts no whitespace character, or `hi`.
fn skip_space_forward(b: &[u8], lo: usize, hi: usize) -> (r: usize)
    requires
        lo <= hi <= b@.len(),
    ensures
        lo <= r <= hi,
        trim_start(b@.subrange(lo as int, hi as int)) == b@.subrange(r as int, hi as int),
{
    let mut i: usize = lo;
    loop
        invariant
            lo <= i <= hi <= b@.len(),
            trim_start(b@.subrange(lo as int, hi as int)) == trim_start(
                b@.subrange(i as int, hi as int),
            ),
        decreases hi - i,
    {
        let k = space_len_at(b, i, hi);
        if k == 0 {
            return i;
        }
        assert(b@.subrange(i as int, hi as int).subrange(k as int, hi - i) =~= b@.subrange(
            i + k,
            hi as int,
        ));
        i = i + k;
    }
}

/// The end of `lo..hi` once trailing whitespace characters are dropped.
fn skip_space_backward(b: &[u8], lo: usize, hi: usize) -> (r: usize)
    requires
        lo <= hi <= b@.len(),
    ensures
        lo <= r <= hi,
        trim_end(b@.subrange(lo as int, hi as int)) == b@.subrange(lo as int, r as int),
{
    let mut j: usize = hi;
    loop
        invariant
            lo <= j <= hi <= b@.len(),
            trim_end(b@.subrange(lo as int, hi as int)) == trim_end(
                b@.subrange(lo as int, j as int),
            ),
        decreases j - lo,
    {
        let k = space_len_before(b, lo, j);
        if k == 0 {
            return j;
        }
        assert(b@.subrange(lo as int, j as int).subrange(0, j - lo - k) =~= b@.subrange(
            lo as int,
            j - k,
        ));
        j = j - k;
    }
}

/// Reads `b[lo..hi]` as an unsigned decimal number no larger than `max`.
pub fn parse_decimal(b: &[u8], lo: usize, hi: usize, max: u64) -> (r: Option<u64>)
    requires
        lo <= hi <= b@.len(),
    ensures
        match r {
            Some(v) => parse_unsigned(b@.subrange(lo as int, hi as int), max as nat) == Some(
                v as nat,
            ),
            None => parse_unsigned(b@.subrange(lo as int, hi as int), max as nat) is None,
        },
{
    let ghost f = b@.subrange(lo as int, hi as int);
    let mut start: usize = lo;
    if lo < hi && b[lo] == PLUS {
        start = lo + 1;
    }
    let ghost d = b@.subrange(start as int, hi as int);
    assert(unsigned_digits(f) =~= d);
    if start == hi {
        return None;
    }
    let mut v: u64 = 0;
    let mut i: usize = start;
    assert(b@.subrange(start as int, start as int) =~= Seq::<u8>::empty());
    while i < hi
        invariant
            lo <= start < hi <= b@.len(),
            start <= i <= hi,
            f == b@.subrange(lo as int, hi as int),
            d == b@.subrange(start as int, hi as int),
            unsigned_digits(f) == d,
            all_digits(b@.subrange(start as int, i as int)),
            v as nat == digits_value(b@.subrange(start as int, i as int)),
            v <= max,
        decreases hi - i,
    {
        let c = b[i];
        let ghost pre = b@.subrange(start as int, i as int);
        let ghost next = b@.subrange(start as int, i + 1);
        assert(next.drop_last() =~= pre);
        assert(d.subrange(0, i + 1 - start) =~= next);
        if c < 48 || c > 57 {
            assert(d[i - start] == b@[i as int]);
            assert(!is_digit(d[i - start]));
            return None;
        }
        let dd: u64 = (c - 48) as u64;
        proof {
            lemma_value_step(next);
        }
        assert(next.last() == c);
        assert(digits_value(next) == v * 10 + dd);
        if v > max / 10 {
            assert(v * 10 > max) by (nonlinear_arith)
                requires
                    v > max / 10,
            ;
            proof {
                if all_digits(d) {
                    lemma_value_prefix(d, i + 1 - start);
                }
            }
            return None;
        }
        assert(v * 10 <= max) by (nonlinear_arith)
            requires
                v <= max / 10,
        ;
        if dd > max || v * 10 > max - dd {
            proof {
                if all_digits(d) {
                    lemma_value_prefix(d, i + 1 - start);
                }
            }
            return None;
        }
        v = v * 10 + dd;
        i = i + 1;
    }
    assert(b@.subrange(start as int, i as int) =~= d);
    Some(v)
}

/// Reads one request line, given as bytes, into its task code and seed.
pub fn parse_task_line(b: &[u8]) -> (r: Result<(u8, u64), DecodeError>)
    ensures
        r == spec_task_value(b@),
{
    let n = b.len();
    let lo = skip_space_forward(b, 0, n);
    let hi = skip_space_backward(b, lo, n);
    assert(b@.subrange(0, n as int) =~= b@);
    assert(b@.subrange(lo as int, n as int).subrange(0, hi - lo) =~= b@.subrange(
        lo as int,
        hi as int,
    ));
    assert(trim(b@) == b@.subrange(lo as int, hi as int)) by {
        assert(trim_end(b@.subrange(lo as int, n as int)) == b@.subrange(lo as int, hi as int));
    }
    let ghost t = b@.subrange(lo as int, hi as int);
    let mut p: usize = lo;
    while p < hi && b[p] != COLON
        invariant
            lo <= p <= hi <= b@.len(),
            t == b@.subrange(lo as int, hi as int),
            forall|i: int| 0 <= i < p - lo ==> t[i] != COLON,
        decreases hi - p,
    {
        p = p + 1;
    }
    if p == hi {
        assert(!exists|q: int| only_colon_at(t, q));
        return Err(DecodeError::MalformedLine);
    }
    let mut q: usize = p + 1;
    while q < hi && b[q] != COLON
        invariant
            lo <= p < q <= hi <= b@.len(),
            t == b@.subrange(lo as int, hi as int),
            forall|i: int| p - lo < i < q - lo ==> t[i] != COLON,
        decreases hi - q,
    {
        q = q + 1;
    }
    if q < hi {
        assert(t[p - lo] == COLON && t[q - lo] == COLON);
        assert(!exists|x: int| only_colon_at(t, x));
        return Err(DecodeError::MalformedLine);
    }
    let ghost pp = p - lo;
    assert(only_colon_at(t, pp));
    assert(fields(t) == Some((t.subrange(0, pp), t.subrange(pp + 1, t.len() as int)))) by {
        let c = choose|x: int| only_colon_at(t, x);
        assert(only_colon_at(t, c));
        assert(c == pp);
    }
    assert(t.subrange(0, pp) =~= b@.subrange(lo as int, p as int));
    assert(t.subrange(pp + 1, t.len() as int) =~= b@.subrange(p + 1, hi as int));
    let kind = match parse_decimal(b, lo, p, 255) {
        None => {
            return Err(DecodeError::InvalidTaskKind);
        },
        Some(k) => k,
    };
    let seed = match parse_decimal(b, p + 1, hi, u64::MAX) {
        None => {
            return Err(DecodeError::InvalidSeed);
        },
        Some(s) => s,
    };
    Ok((kind as u8, seed))
}

/// Reads one request line into its task code and seed. Surrounding whitespace
/// is ignored; the rest must be two unsigned decimal numbers joined by a single
/// colon, the first no larger than 255, the second no larger than `u64::MAX`.
pub fn get_task_value(buf: String) -> (r: Result<(u8, u64), DecodeError>)
    ensures
        r == spec_task_value(encode_utf8(buf@)),
{
    let b = buf.as_str().as_bytes();
    parse_task_line(b)
}

/// Reads one request line into a request of a known task kind.
pub fn decode_request(line: &str) -> (r: Result<Request, DecodeError>)
    ensures
        r == spec_decode(encode_utf8(line@)),
{
    let b = line.as_bytes();
    match parse_task_line(b) {
        Err(e) => Err(e),
        Ok((k, seed)) => match TaskKind::from_u8(k) {
            None => Err(DecodeError::UnknownTaskKind),
            Some(kind) => Ok(Request { kind, seed }),
        },
    }
}

} // verus!
