//! The JSON text parser used on the wire.
//!
//! The grammar is JSON: null, the two booleans, numbers, strings with
//! the short and `\u` escapes (a surrogate pair reads as one code
//! point), arrays and objects, with whitespace between tokens.  A plain
//! integer within the 64-bit signed range becomes the integer value;
//! any other number is carried as its exact text, since the driver
//! never computes with it.
//!
//! Each `spec_parse_*` function consumes from index `i` of the text and
//! returns the parsed piece with the index just after it, or `None` when
//! the text is malformed.  The executable parser is proved to return
//! exactly what these functions say.

use vstd::prelude::*;
use vstd::slice::{slice_subrange, slice_to_vec};
use crate::json::{Json, Jv, views_of, member_views_of};

verus! {

/// JSON insignificant whitespace.
pub open spec fn is_ws(b: u8) -> bool {
    b == 0x20 || b == 0x09 || b == 0x0a || b == 0x0d
}

pub open spec fn is_digit(b: u8) -> bool {
    0x30 <= b <= 0x39
}

/// The first index at or after `i` holding no whitespace.
pub open spec fn spec_ws(s: Seq<u8>, i: int) -> int
    decreases s.len() - i when 0 <= i <= s.len()
{
    if i < s.len() && is_ws(s[i]) {
        spec_ws(s, i + 1)
    } else {
        i
    }
}

/// The first index at or after `i` holding no decimal digit.
pub open spec fn spec_digits_end(s: Seq<u8>, i: int) -> int
    decreases s.len() - i when 0 <= i <= s.len()
{
    if i < s.len() && is_digit(s[i]) {
        spec_digits_end(s, i + 1)
    } else {
        i
    }
}

/// The value of the digit run `s[i..e]`, most significant digit first.
pub open spec fn spec_dec_val(s: Seq<u8>, i: int, e: int) -> int
    decreases e - i when 0 <= i <= e <= s.len()
{
    if i >= e {
        0
    } else {
        spec_dec_val(s, i, e - 1) * 10 + (s[e - 1] - 0x30)
    }
}

/// The byte a short escape stands for, if the escape is one the grammar
/// has.
pub open spec fn spec_unescape(b: u8) -> Option<u8> {
    if b == 0x22 {
        Some(0x22u8)
    } else if b == 0x5c {
        Some(0x5cu8)
    } else if b == 0x2f {
        Some(0x2fu8)
    } else if b == 0x62 {
        Some(0x08u8)
    } else if b == 0x66 {
        Some(0x0cu8)
    } else if b == 0x6e {
        Some(0x0au8)
    } else if b == 0x72 {
        Some(0x0du8)
    } else if b == 0x74 {
        Some(0x09u8)
    } else {
        None
    }
}

pub open spec fn is_hex(b: u8) -> bool {
    is_digit(b) || (0x41 <= b <= 0x46) || (0x61 <= b <= 0x66)
}

pub open spec fn spec_hex_val(b: u8) -> int {
    if is_digit(b) {
        b - 0x30
    } else if 0x41 <= b <= 0x46 {
        b - 0x41 + 10
    } else {
        b - 0x61 + 10
    }
}

/// The value of the four hex digits at `i`.
pub open spec fn spec_hex4(s: Seq<u8>, i: int) -> int
    recommends
        0 <= i && i + 4 <= s.len(),
{
    spec_hex_val(s[i]) * 4096 + spec_hex_val(s[i + 1]) * 256 + spec_hex_val(s[i + 2]) * 16
        + spec_hex_val(s[i + 3])
}

/// The UTF-8 encoding of the code point `c`.
pub open spec fn spec_utf8_enc(c: int) -> Seq<u8>
    recommends
        0 <= c <= 0x10ffff,
{
    if c < 0x80 {
        seq![c as u8]
    } else if c < 0x800 {
        seq![(0xc0 + c / 64) as u8, (0x80 + c % 64) as u8]
    } else if c < 0x10000 {
        seq![(0xe0 + c / 4096) as u8, (0x80 + (c / 64) % 64) as u8, (0x80 + c % 64) as u8]
    } else {
        seq![
            (0xf0 + c / 262144) as u8,
            (0x80 + (c / 4096) % 64) as u8,
            (0x80 + (c / 64) % 64) as u8,
            (0x80 + c % 64) as u8,
        ]
    }
}

/// A unicode escape whose backslash stands at `i`: the code point it
/// denotes and the index just after it.  A surrogate pair is one
/// escape; a lone surrogate half denotes nothing.
pub open spec fn spec_unicode_escape(s: Seq<u8>, i: int) -> Option<(int, int)> {
    if i + 6 <= s.len() && is_hex(s[i + 2]) && is_hex(s[i + 3]) && is_hex(s[i + 4]) && is_hex(
        s[i + 5],
    ) {
        let c = spec_hex4(s, i + 2);
        if 0xd800 <= c <= 0xdbff {
            if i + 12 <= s.len() && s[i + 6] == 0x5c && s[i + 7] == 0x75 && is_hex(s[i + 8])
                && is_hex(s[i + 9]) && is_hex(s[i + 10]) && is_hex(s[i + 11]) {
                let c2 = spec_hex4(s, i + 8);
                if 0xdc00 <= c2 <= 0xdfff {
                    Some((0x10000 + (c - 0xd800) * 0x400 + (c2 - 0xdc00), i + 12))
                } else {
                    None
                }
            } else {
                None
            }
        } else if 0xdc00 <= c <= 0xdfff {
            None
        } else {
            Some((c, i + 6))
        }
    } else {
        None
    }
}

/// The content of a string literal read from index `i`, which points
/// just after the opening quote; the index returned points just after
/// the closing quote.
pub open spec fn spec_parse_strbody(s: Seq<u8>, i: int) -> Option<(Seq<u8>, int)>
    decreases s.len() - i when 0 <= i <= s.len()
{
    if i >= s.len() {
        None
    } else if s[i] == 0x22 {
        Some((Seq::empty(), i + 1))
    } else if s[i] == 0x5c {
        if i + 2 > s.len() {
            None
        } else if s[i + 1] == 0x75 {
            match spec_unicode_escape(s, i) {
                Some((cp, n)) => if i < n <= s.len() {
                    match spec_parse_strbody(s, n) {
                        Some((t, j)) => Some((spec_utf8_enc(cp) + t, j)),
                        None => None,
                    }
                } else {
                    None
                },
                None => None,
            }
        } else {
            match spec_unescape(s[i + 1]) {
                Some(b) => match spec_parse_strbody(s, i + 2) {
                    Some((c, j)) => Some((seq![b] + c, j)),
                    None => None,
                },
                None => None,
            }
        }
    } else if s[i] >= 0x20 {
        match spec_parse_strbody(s, i + 1) {
            Some((c, j)) => Some((seq![s[i]] + c, j)),
            None => None,
        }
    } else {
        None
    }
}

/// A string literal starting at its opening quote.
pub open spec fn spec_parse_string(s: Seq<u8>, i: int) -> Option<(Seq<u8>, int)> {
    if 0 <= i < s.len() && s[i] == 0x22 {
        spec_parse_strbody(s, i + 1)
    } else {
        None
    }
}

/// The end of a fraction starting at `i`, if the text has one there: a
/// dot must take at least one digit.
pub open spec fn spec_frac_end(s: Seq<u8>, i: int) -> Option<int> {
    if 0 <= i < s.len() && s[i] == 0x2e {
        if i + 1 < s.len() && is_digit(s[i + 1]) {
            Some(spec_digits_end(s, i + 1))
        } else {
            None
        }
    } else {
        Some(i)
    }
}

/// The end of an exponent starting at `i`, if the text has one there:
/// the marker takes an optional sign and at least one digit.
pub open spec fn spec_exp_end(s: Seq<u8>, i: int) -> Option<int> {
    if 0 <= i < s.len() && (s[i] == 0x65 || s[i] == 0x45) {
        let p = if i + 1 < s.len() && (s[i + 1] == 0x2b || s[i + 1] == 0x2d) {
            i + 2
        } else {
            i + 1
        };
        if p < s.len() && is_digit(s[p]) {
            Some(spec_digits_end(s, p))
        } else {
            None
        }
    } else {
        Some(i)
    }
}

/// A number starting at `i`: an optional minus sign, digits with no
/// superfluous leading zero, then an optional fraction and an optional
/// exponent.  A plain integer within the 64-bit signed range is the
/// integer value; any other number is carried as its exact text.
pub open spec fn spec_parse_number(s: Seq<u8>, i: int) -> Option<(Jv, int)> {
    if !(0 <= i < s.len()) {
        None
    } else {
        let neg = s[i] == 0x2d;
        let d = if neg {
            i + 1
        } else {
            i
        };
        if !(d < s.len() && is_digit(s[d])) {
            None
        } else {
            let e1 = spec_digits_end(s, d);
            if s[d] == 0x30 && e1 > d + 1 {
                None
            } else {
                match spec_frac_end(s, e1) {
                    None => None,
                    Some(e2) => match spec_exp_end(s, e2) {
                        None => None,
                        Some(e3) => if e3 == e1 {
                            let n = spec_dec_val(s, d, e1);
                            if neg {
                                if n > 0x8000000000000000 {
                                    Some((Jv::Num(s.subrange(i, e1)), e1))
                                } else {
                                    Some((Jv::Int(-n), e1))
                                }
                            } else {
                                if n > 0x7fffffffffffffff {
                                    Some((Jv::Num(s.subrange(i, e1)), e1))
                                } else {
                                    Some((Jv::Int(n), e1))
                                }
                            }
                        } else {
                            Some((Jv::Num(s.subrange(i, e3)), e3))
                        },
                    },
                }
            }
        }
    }
}

/// A value starting at `i`, with no surrounding whitespace.
pub open spec fn spec_parse_value(s: Seq<u8>, i: int) -> Option<(Jv, int)>
    decreases s.len() - i, 0int when 0 <= i <= s.len()
{
    if i >= s.len() {
        None
    } else if s[i] == 0x6e {  // 'n'
        if i + 4 <= s.len() && s[i + 1] == 0x75 && s[i + 2] == 0x6c && s[i + 3] == 0x6c {
            Some((Jv::Null, i + 4))
        } else {
            None
        }
    } else if s[i] == 0x74 {  // 't'
        if i + 4 <= s.len() && s[i + 1] == 0x72 && s[i + 2] == 0x75 && s[i + 3] == 0x65 {
            Some((Jv::Bool(true), i + 4))
        } else {
            None
        }
    } else if s[i] == 0x66 {  // 'f'
        if i + 5 <= s.len() && s[i + 1] == 0x61 && s[i + 2] == 0x6c && s[i + 3] == 0x73 && s[i
            + 4] == 0x65 {
            Some((Jv::Bool(false), i + 5))
        } else {
            None
        }
    } else if s[i] == 0x22 {  // '"'
        match spec_parse_string(s, i) {
            Some((c, j)) => Some((Jv::Str(c), j)),
            None => None,
        }
    } else if s[i] == 0x2d || is_digit(s[i]) {
        spec_parse_number(s, i)
    } else if s[i] == 0x5b {  // '['
        let k = spec_ws(s, i + 1);
        if !(i + 1 <= k <= s.len()) {
            None
        } else if k < s.len() && s[k] == 0x5d {
            Some((Jv::Arr(Seq::empty()), k + 1))
        } else {
            match spec_parse_elems(s, k) {
                Some((vs, j)) => Some((Jv::Arr(vs), j)),
                None => None,
            }
        }
    } else if s[i] == 0x7b {  // '{'
        let k = spec_ws(s, i + 1);
        if !(i + 1 <= k <= s.len()) {
            None
        } else if k < s.len() && s[k] == 0x7d {
            Some((Jv::Obj(Seq::empty()), k + 1))
        } else {
            match spec_parse_members(s, k) {
                Some((ms, j)) => Some((Jv::Obj(ms), j)),
                None => None,
            }
        }
    } else {
        None
    }
}

/// The elements of a non-empty array from the start of its first value
/// to just after the closing bracket.
pub open spec fn spec_parse_elems(s: Seq<u8>, i: int) -> Option<(Seq<Jv>, int)>
    decreases s.len() - i, 1int when 0 <= i <= s.len()
{
    match spec_parse_value(s, i) {
        Some((v, j)) => if !(i < j <= s.len()) {
            None
        } else {
            let k = spec_ws(s, j);
            if !(j <= k <= s.len()) {
                None
            } else if k < s.len() && s[k] == 0x5d {
                Some((seq![v], k + 1))
            } else if k < s.len() && s[k] == 0x2c {
                let m = spec_ws(s, k + 1);
                if !(k < m <= s.len()) {
                    None
                } else {
                    match spec_parse_elems(s, m) {
                        Some((vs, j2)) => Some((seq![v] + vs, j2)),
                        None => None,
                    }
                }
            } else {
                None
            }
        },
        None => None,
    }
}

/// The members of a non-empty object from the start of its first key to
/// just after the closing brace.
pub open spec fn spec_parse_members(s: Seq<u8>, i: int) -> Option<(Seq<(Seq<u8>, Jv)>, int)>
    decreases s.len() - i, 1int when 0 <= i <= s.len()
{
    match spec_parse_string(s, i) {
        Some((key, j)) => if !(i < j <= s.len()) {
            None
        } else {
            let c = spec_ws(s, j);
            if !(j <= c <= s.len() && c < s.len() && s[c] == 0x3a) {
                None
            } else {
                let v0 = spec_ws(s, c + 1);
                if !(c < v0 <= s.len()) {
                    None
                } else {
                    match spec_parse_value(s, v0) {
                        Some((v, j2)) => if !(v0 <= j2 <= s.len()) {
                            None
                        } else {
                            let k = spec_ws(s, j2);
                            if !(j2 <= k <= s.len()) {
                                None
                            } else if k < s.len() && s[k] == 0x7d {
                                Some((seq![(key, v)], k + 1))
                            } else if k < s.len() && s[k] == 0x2c {
                                let m = spec_ws(s, k + 1);
                                if !(k < m <= s.len()) {
                                    None
                                } else {
                                    match spec_parse_members(s, m) {
                                        Some((ms, j3)) => Some((seq![(key, v)] + ms, j3)),
                                        None => None,
                                    }
                                }
                            } else {
                                None
                            }
                        },
                        None => None,
                    }
                }
            }
        },
        None => None,
    }
}

/// A whole JSON text: one value with whitespace around it and nothing
/// after it.
pub open spec fn spec_parse_json(s: Seq<u8>) -> Option<Jv> {
    let i = spec_ws(s, 0);
    if !(0 <= i <= s.len()) {
        None
    } else {
        match spec_parse_value(s, i) {
            Some((v, j)) => if 0 <= j <= s.len() && spec_ws(s, j) == s.len() {
                Some(v)
            } else {
                None
            },
            None => None,
        }
    }
}

fn skip_ws(s: &[u8], i: usize) -> (j: usize)
    requires
        i <= s@.len(),
    ensures
        j as int == spec_ws(s@, i as int),
        i <= j <= s@.len(),
{
    let mut j = i;
    while j < s.len() && (s[j] == 0x20 || s[j] == 0x09 || s[j] == 0x0a || s[j] == 0x0d)
        invariant
            i <= j <= s@.len(),
            spec_ws(s@, i as int) == spec_ws(s@, j as int),
        decreases s@.len() - j,
    {
        j = j + 1;
    }
    j
}

fn digits_end(s: &[u8], i: usize) -> (e: usize)
    requires
        i <= s@.len(),
    ensures
        e as int == spec_digits_end(s@, i as int),
        i <= e <= s@.len(),
        forall|k: int| i <= k < e ==> is_digit(s@[k]),
        i < s@.len() && is_digit(s@[i as int]) ==> e > i,
{
    let mut e = i;
    while e < s.len() && 0x30 <= s[e] && s[e] <= 0x39
        invariant
            i <= e <= s@.len(),
            spec_digits_end(s@, i as int) == spec_digits_end(s@, e as int),
            forall|k: int| i <= k < e ==> is_digit(s@[k]),
        decreases s@.len() - e,
    {
        e = e + 1;
    }
    e
}

proof fn lemma_dec_val_nonneg(s: Seq<u8>, d: int, e: int)
    requires
        0 <= d <= e <= s.len(),
        forall|k: int| d <= k < e ==> is_digit(s[k]),
    ensures
        spec_dec_val(s, d, e) >= 0,
    decreases e - d,
{
    if d < e {
        lemma_dec_val_nonneg(s, d, e - 1);
    }
}

proof fn lemma_dec_val_mono(s: Seq<u8>, d: int, p: int, e: int)
    requires
        0 <= d <= p <= e <= s.len(),
        forall|k: int| d <= k < e ==> is_digit(s[k]),
    ensures
        spec_dec_val(s, d, e) >= spec_dec_val(s, d, p),
    decreases e - p,
{
    if p < e {
        lemma_dec_val_mono(s, d, p, e - 1);
        lemma_dec_val_nonneg(s, d, e - 1);
    }
}

#[verifier::loop_isolation(false)]
fn parse_number(s: &[u8], i: usize) -> (r: Result<(Json, usize), ()>)
    requires
        i <= s@.len(),
    ensures
        match r {
            Ok(p) => {
                &&& spec_parse_number(s@, i as int) == Some((p.0@, p.1 as int))
                &&& i < p.1 <= s@.len()
            },
            Err(_) => spec_parse_number(s@, i as int) is None,
        },
{
    if i >= s.len() {
        return Err(());
    }
    let neg = s[i] == 0x2d;
    let d: usize = if neg {
        i + 1
    } else {
        i
    };
    if !(d < s.len() && 0x30 <= s[d] && s[d] <= 0x39) {
        return Err(());
    }
    let e1 = digits_end(s, d);
    if s[d] == 0x30 && e1 > d + 1 {
        return Err(());
    }
    let mut end: usize = e1;
    let mut plain = true;
    if e1 < s.len() && s[e1] == 0x2e {
        if e1 + 1 < s.len() && 0x30 <= s[e1 + 1] && s[e1 + 1] <= 0x39 {
            end = digits_end(s, e1 + 1);
            plain = false;
        } else {
            return Err(());
        }
    }
    if end < s.len() && (s[end] == 0x65 || s[end] == 0x45) {
        let p: usize = if end + 1 < s.len() && (s[end + 1] == 0x2b || s[end + 1] == 0x2d) {
            end + 2
        } else {
            end + 1
        };
        if p < s.len() && 0x30 <= s[p] && s[p] <= 0x39 {
            end = digits_end(s, p);
            plain = false;
        } else {
            return Err(());
        }
    }
    if !plain {
        let lex = slice_to_vec(slice_subrange(s, i, end));
        return Ok((Json::Num(lex), end));
    }
    let mut acc: u128 = 0;
    let mut p: usize = d;
    while p < e1
        invariant
            d <= p <= e1 <= s@.len(),
            e1 as int == spec_digits_end(s@, d as int),
            forall|k: int| d <= k < e1 ==> is_digit(s@[k]),
            acc == spec_dec_val(s@, d as int, p as int),
            acc <= 0x8000000000000000u128,
        decreases e1 - p,
    {
        acc = acc * 10 + (s[p] - 0x30) as u128;
        if acc > 0x8000000000000000u128 {
            proof {
                lemma_dec_val_mono(s@, d as int, p + 1, e1 as int);
            }
            let lex = slice_to_vec(slice_subrange(s, i, e1));
            return Ok((Json::Num(lex), e1));
        }
        p = p + 1;
    }
    if neg {
        if acc == 0x8000000000000000u128 {
            Ok((Json::I64(i64::MIN), e1))
        } else {
            Ok((Json::I64(-(acc as i64)), e1))
        }
    } else {
        if acc > 0x7fffffffffffffffu128 {
            let lex = slice_to_vec(slice_subrange(s, i, e1));
            Ok((Json::Num(lex), e1))
        } else {
            Ok((Json::I64(acc as i64), e1))
        }
    }
}

fn hexv(b: u8) -> (r: Option<u8>)
    ensures
        match r {
            Some(v) => is_hex(b) && v as int == spec_hex_val(b) && v < 16,
            None => !is_hex(b),
        },
{
    if 0x30 <= b && b <= 0x39 {
        Some(b - 0x30)
    } else if 0x41 <= b && b <= 0x46 {
        Some(b - 0x41 + 10)
    } else if 0x61 <= b && b <= 0x66 {
        Some(b - 0x61 + 10)
    } else {
        None
    }
}

fn hex4_at(s: &[u8], i: usize) -> (r: Option<u32>)
    requires
        i + 4 <= s@.len(),
    ensures
        match r {
            Some(c) => {
                &&& is_hex(s@[i as int]) && is_hex(s@[i + 1]) && is_hex(s@[i + 2]) && is_hex(
                    s@[i + 3],
                )
                &&& c as int == spec_hex4(s@, i as int)
                &&& c <= 0xffff
            },
            None => !(is_hex(s@[i as int]) && is_hex(s@[i + 1]) && is_hex(s@[i + 2]) && is_hex(
                s@[i + 3],
            )),
        },
{
    let v0 = match hexv(s[i]) {
        Some(v) => v,
        None => {
            return None;
        },
    };
    let v1 = match hexv(s[i + 1]) {
        Some(v) => v,
        None => {
            return None;
        },
    };
    let v2 = match hexv(s[i + 2]) {
        Some(v) => v,
        None => {
            return None;
        },
    };
    let v3 = match hexv(s[i + 3]) {
        Some(v) => v,
        None => {
            return None;
        },
    };
    Some((v0 as u32) * 4096 + (v1 as u32) * 256 + (v2 as u32) * 16 + (v3 as u32))
}

fn unicode_escape_at(s: &[u8], p: usize) -> (r: Result<(u32, usize), ()>)
    requires
        p + 2 <= s@.len(),
    ensures
        match r {
            Ok(q) => {
                &&& spec_unicode_escape(s@, p as int) == Some((q.0 as int, q.1 as int))
                &&& p < q.1 <= s@.len()
                &&& q.0 <= 0x10ffff
            },
            Err(_) => spec_unicode_escape(s@, p as int) is None,
        },
{
    if s.len() - p < 6 {
        return Err(());
    }
    let c1: u32 = match hex4_at(s, p + 2) {
        Some(v) => v,
        None => {
            return Err(());
        },
    };
    if 0xd800 <= c1 && c1 <= 0xdbff {
        if s.len() - p < 12 {
            return Err(());
        }
        if !(s[p + 6] == 0x5c && s[p + 7] == 0x75) {
            return Err(());
        }
        let c2: u32 = match hex4_at(s, p + 8) {
            Some(v) => v,
            None => {
                return Err(());
            },
        };
        if !(0xdc00 <= c2 && c2 <= 0xdfff) {
            return Err(());
        }
        Ok((0x10000 + (c1 - 0xd800) * 0x400 + (c2 - 0xdc00), p + 12))
    } else if 0xdc00 <= c1 && c1 <= 0xdfff {
        Err(())
    } else {
        Ok((c1, p + 6))
    }
}

fn push_utf8(cp: u32, out: &mut Vec<u8>)
    requires
        cp <= 0x10ffff,
    ensures
        final(out)@ == old(out)@ + spec_utf8_enc(cp as int),
{
    let ghost base = out@;
    if cp < 0x80 {
        out.push(cp as u8);
    } else if cp < 0x800 {
        out.push(0xc0 + (cp / 64) as u8);
        out.push(0x80 + (cp % 64) as u8);
    } else if cp < 0x10000 {
        out.push(0xe0 + (cp / 4096) as u8);
        out.push(0x80 + ((cp / 64) % 64) as u8);
        out.push(0x80 + (cp % 64) as u8);
    } else {
        out.push(0xf0 + (cp / 262144) as u8);
        out.push(0x80 + ((cp / 4096) % 64) as u8);
        out.push(0x80 + ((cp / 64) % 64) as u8);
        out.push(0x80 + (cp % 64) as u8);
    }
    proof {
        assert(out@ =~= base + spec_utf8_enc(cp as int));
    }
}

#[verifier::loop_isolation(false)]
#[verifier::rlimit(60)]
fn parse_string(s: &[u8], i: usize) -> (r: Result<(Vec<u8>, usize), ()>)
    requires
        i <= s@.len(),
    ensures
        match r {
            Ok(p) => {
                &&& spec_parse_string(s@, i as int) == Some((p.0@, p.1 as int))
                &&& i < p.1 <= s@.len()
            },
            Err(_) => spec_parse_string(s@, i as int) is None,
        },
{
    if i >= s.len() || s[i] != 0x22 {
        return Err(());
    }
    let mut acc: Vec<u8> = Vec::new();
    let mut p: usize = i + 1;
    loop
        invariant
            i + 1 <= p <= s@.len(),
            i < s@.len(),
            s@[i as int] == 0x22,
            match spec_parse_strbody(s@, p as int) {
                Some((c, j)) => spec_parse_strbody(s@, i + 1) == Some((acc@ + c, j)),
                None => spec_parse_strbody(s@, i + 1) is None,
            },
        decreases s@.len() - p,
    {
        if p >= s.len() {
            return Err(());
        }
        let b = s[p];
        if b == 0x22 {
            proof {
                assert(acc@ + Seq::<u8>::empty() =~= acc@);
            }
            return Ok((acc, p + 1));
        } else if b == 0x5c {
            if p + 1 >= s.len() {
                return Err(());
            }
            let c = s[p + 1];
            if c == 0x75 {
                let (cp, q) = match unicode_escape_at(s, p) {
                    Ok(v) => v,
                    Err(_) => {
                        return Err(());
                    },
                };
                let ghost acc_old = acc@;
                push_utf8(cp, &mut acc);
                proof {
                    if let Some((t2, j2)) = spec_parse_strbody(s@, q as int) {
                        assert(acc_old + (spec_utf8_enc(cp as int) + t2) =~= acc@ + t2);
                    }
                }
                p = q;
                continue;
            }
            let unescaped: u8 = if c == 0x22 {
                0x22
            } else if c == 0x5c {
                0x5c
            } else if c == 0x2f {
                0x2f
            } else if c == 0x62 {
                0x08
            } else if c == 0x66 {
                0x0c
            } else if c == 0x6e {
                0x0a
            } else if c == 0x72 {
                0x0d
            } else if c == 0x74 {
                0x09
            } else {
                return Err(());
            };
            let ghost acc_old = acc@;
            acc.push(unescaped);
            proof {
                if let Some((c2, j2)) = spec_parse_strbody(s@, p + 2) {
                    assert(acc_old + (seq![unescaped] + c2) =~= acc@ + c2);
                }
            }
            p = p + 2;
        } else if b >= 0x20 {
            let ghost acc_old = acc@;
            acc.push(b);
            proof {
                if let Some((c2, j2)) = spec_parse_strbody(s@, p + 1) {
                    assert(acc_old + (seq![b] + c2) =~= acc@ + c2);
                }
            }
            p = p + 1;
        } else {
            return Err(());
        }
    }
}

#[verifier::loop_isolation(false)]
fn parse_value(s: &[u8], i: usize) -> (r: Result<(Json, usize), ()>)
    requires
        i <= s@.len(),
    ensures
        match r {
            Ok(p) => {
                &&& spec_parse_value(s@, i as int) == Some((p.0@, p.1 as int))
                &&& i < p.1 <= s@.len()
            },
            Err(_) => spec_parse_value(s@, i as int) is None,
        },
    decreases s@.len() - i, 0int,
{
    if i >= s.len() {
        return Err(());
    }
    let b = s[i];
    if b == 0x6e {
        if s.len() - i >= 4 && s[i + 1] == 0x75 && s[i + 2] == 0x6c && s[i + 3] == 0x6c {
            Ok((Json::Null, i + 4))
        } else {
            Err(())
        }
    } else if b == 0x74 {
        if s.len() - i >= 4 && s[i + 1] == 0x72 && s[i + 2] == 0x75 && s[i + 3] == 0x65 {
            Ok((Json::Bool(true), i + 4))
        } else {
            Err(())
        }
    } else if b == 0x66 {
        if s.len() - i >= 5 && s[i + 1] == 0x61 && s[i + 2] == 0x6c && s[i + 3] == 0x73 && s[i
            + 4] == 0x65 {
            Ok((Json::Bool(false), i + 5))
        } else {
            Err(())
        }
    } else if b == 0x22 {
        match parse_string(s, i) {
            Ok((c, j)) => Ok((Json::Str(c), j)),
            Err(_) => Err(()),
        }
    } else if b == 0x2d || (0x30 <= b && b <= 0x39) {
        match parse_number(s, i) {
            Ok((v, j)) => Ok((v, j)),
            Err(_) => Err(()),
        }
    } else if b == 0x5b {
        let k = skip_ws(s, i + 1);
        if k < s.len() && s[k] == 0x5d {
            let r = Json::Arr(Vec::new());
            proof {
                assert(r@->Arr_0 =~= Seq::<Jv>::empty());
            }
            Ok((r, k + 1))
        } else {
            match parse_elems(s, k) {
                Ok((items, j)) => {
                    let r = Json::Arr(items);
                    proof {
                        assert(r@->Arr_0 =~= views_of(r->Arr_0@));
                    }
                    Ok((r, j))
                },
                Err(_) => Err(()),
            }
        }
    } else if b == 0x7b {
        let k = skip_ws(s, i + 1);
        if k < s.len() && s[k] == 0x7d {
            let r = Json::Obj(Vec::new());
            proof {
                assert(r@->Obj_0 =~= Seq::<(Seq<u8>, Jv)>::empty());
            }
            Ok((r, k + 1))
        } else {
            match parse_members(s, k) {
                Ok((ms, j)) => {
                    let r = Json::Obj(ms);
                    proof {
                        assert(r@->Obj_0 =~= member_views_of(r->Obj_0@));
                    }
                    Ok((r, j))
                },
                Err(_) => Err(()),
            }
        }
    } else {
        Err(())
    }
}

#[verifier::loop_isolation(false)]
fn parse_elems(s: &[u8], i: usize) -> (r: Result<(Vec<Json>, usize), ()>)
    requires
        i <= s@.len(),
    ensures
        match r {
            Ok(p) => {
                &&& spec_parse_elems(s@, i as int) == Some((views_of(p.0@), p.1 as int))
                &&& i < p.1 <= s@.len()
            },
            Err(_) => spec_parse_elems(s@, i as int) is None,
        },
    decreases s@.len() - i, 1int,
{
    let mut items: Vec<Json> = Vec::new();
    let mut cur: usize = i;
    loop
        invariant
            i <= cur <= s@.len(),
            match spec_parse_elems(s@, cur as int) {
                Some((vs, j2)) => spec_parse_elems(s@, i as int) == Some(
                    (views_of(items@) + vs, j2),
                ),
                None => spec_parse_elems(s@, i as int) is None,
            },
        decreases s@.len() - cur,
    {
        let (v, j) = match parse_value(s, cur) {
            Ok(p) => p,
            Err(_) => {
                return Err(());
            },
        };
        let k = skip_ws(s, j);
        if k < s.len() && s[k] == 0x5d {
            let ghost items_old = items@;
            items.push(v);
            proof {
                assert(views_of(items_old) + seq![v@] =~= views_of(items@));
            }
            return Ok((items, k + 1));
        } else if k < s.len() && s[k] == 0x2c {
            let m = skip_ws(s, k + 1);
            let ghost items_old = items@;
            items.push(v);
            proof {
                if let Some((vs, j2)) = spec_parse_elems(s@, m as int) {
                    assert(views_of(items_old) + (seq![v@] + vs) =~= views_of(items@) + vs);
                }
            }
            cur = m;
        } else {
            return Err(());
        }
    }
}

#[verifier::loop_isolation(false)]
fn parse_members(s: &[u8], i: usize) -> (r: Result<(Vec<(Vec<u8>, Json)>, usize), ()>)
    requires
        i <= s@.len(),
    ensures
        match r {
            Ok(p) => {
                &&& spec_parse_members(s@, i as int) == Some((member_views_of(p.0@), p.1 as int))
                &&& i < p.1 <= s@.len()
            },
            Err(_) => spec_parse_members(s@, i as int) is None,
        },
    decreases s@.len() - i, 1int,
{
    let mut members: Vec<(Vec<u8>, Json)> = Vec::new();
    let mut cur: usize = i;
    loop
        invariant
            i <= cur <= s@.len(),
            match spec_parse_members(s@, cur as int) {
                Some((ms, j2)) => spec_parse_members(s@, i as int) == Some(
                    (member_views_of(members@) + ms, j2),
                ),
                None => spec_parse_members(s@, i as int) is None,
            },
        decreases s@.len() - cur,
    {
        let (key, j) = match parse_string(s, cur) {
            Ok(p) => p,
            Err(_) => {
                return Err(());
            },
        };
        let c = skip_ws(s, j);
        if !(c < s.len() && s[c] == 0x3a) {
            return Err(());
        }
        let v0 = skip_ws(s, c + 1);
        let (v, j2) = match parse_value(s, v0) {
            Ok(p) => p,
            Err(_) => {
                return Err(());
            },
        };
        let k = skip_ws(s, j2);
        if k < s.len() && s[k] == 0x7d {
            let ghost members_old = members@;
            members.push((key, v));
            proof {
                assert(member_views_of(members_old) + seq![(key@, v@)] =~= member_views_of(
                    members@,
                ));
            }
            return Ok((members, k + 1));
        } else if k < s.len() && s[k] == 0x2c {
            let m = skip_ws(s, k + 1);
            let ghost members_old = members@;
            members.push((key, v));
            proof {
                if let Some((ms, j3)) = spec_parse_members(s@, m as int) {
                    assert(member_views_of(members_old) + (seq![(key@, v@)] + ms)
                        =~= member_views_of(members@) + ms);
                }
            }
            cur = m;
        } else {
            return Err(());
        }
    }
}

/// Parses one whole JSON text.  Returns exactly the value the grammar
/// gives the text, or nothing when the text is malformed.
#[verifier::loop_isolation(false)]
pub fn parse_json(s: &[u8]) -> (r: Option<Json>)
    ensures
        match r {
            Some(v) => spec_parse_json(s@) == Some(v@),
            None => spec_parse_json(s@) is None,
        },
{
    let i = skip_ws(s, 0);
    match parse_value(s, i) {
        Ok((v, j)) => {
            let k = skip_ws(s, j);
            if k == s.len() {
                Some(v)
            } else {
                None
            }
        },
        Err(_) => None,
    }
}

} // verus!
