//! The JSON value model used on the wire.
//!
//! Wire messages are JSON texts carried as UTF-8 bytes, so the model
//! keeps string contents as byte sequences.  The protocol's own fields
//! are 64-bit integers; any other number a message carries (fractional,
//! with an exponent, or beyond the 64-bit signed range) is kept as its
//! text, since the driver never computes with it.

use vstd::prelude::*;

verus! {

broadcast use vstd::std_specs::vec::group_vec_axioms;

/// A JSON value. String contents are raw UTF-8 bytes, already unescaped.
/// Object members keep their textual order; a duplicated key is resolved
/// by the last occurrence when a field is looked up.
#[derive(Debug, PartialEq, Eq)]
pub enum Json {
    Null,
    Bool(bool),
    I64(i64),
    /// A number that is not a 64-bit signed integer, as its exact text.
    Num(Vec<u8>),
    Str(Vec<u8>),
    Arr(Vec<Json>),
    Obj(Vec<(Vec<u8>, Json)>),
}

/// The mathematical counterpart of `Json`.
#[verifier::ext_equal]
pub enum Jv {
    Null,
    Bool(bool),
    Int(int),
    Num(Seq<u8>),
    Str(Seq<u8>),
    Arr(Seq<Jv>),
    Obj(Seq<(Seq<u8>, Jv)>),
}

pub open spec fn json_view(j: Json) -> Jv
    decreases j,
{
    match j {
        Json::Null => Jv::Null,
        Json::Bool(b) => Jv::Bool(b),
        Json::I64(i) => Jv::Int(i as int),
        Json::Num(s) => Jv::Num(s@),
        Json::Str(s) => Jv::Str(s@),
        Json::Arr(v) => Jv::Arr(
            Seq::new(
                v@.len(),
                |i: int|
                    if 0 <= i < v@.len() {
                        json_view(v@[i])
                    } else {
                        Jv::Null
                    },
            ),
        ),
        Json::Obj(v) => Jv::Obj(
            Seq::new(
                v@.len(),
                |i: int|
                    if 0 <= i < v@.len() {
                        (v@[i].0@, json_view(v@[i].1))
                    } else {
                        (Seq::empty(), Jv::Null)
                    },
            ),
        ),
    }
}

impl View for Json {
    type V = Jv;

    open spec fn view(&self) -> Jv {
        json_view(*self)
    }
}

/// The views of a sequence of values, in order.
pub open spec fn views_of(vs: Seq<Json>) -> Seq<Jv> {
    Seq::new(
        vs.len(),
        |k: int|
            if 0 <= k < vs.len() {
                json_view(vs[k])
            } else {
                Jv::Null
            },
    )
}

/// The views of a sequence of members, in order.
pub open spec fn member_views_of(ms: Seq<(Vec<u8>, Json)>) -> Seq<(Seq<u8>, Jv)> {
    Seq::new(
        ms.len(),
        |k: int|
            if 0 <= k < ms.len() {
                (ms[k].0@, json_view(ms[k].1))
            } else {
                (Seq::empty(), Jv::Null)
            },
    )
}

/// Decimal digits of `n`, most significant first, as ASCII bytes.
pub open spec fn spec_dec_digits(n: nat) -> Seq<u8>
    decreases n,
{
    if n < 10 {
        seq![(n + 0x30) as u8]
    } else {
        spec_dec_digits(n / 10).push((n % 10 + 0x30) as u8)
    }
}

/// The JSON text of the integer `i`: an optional minus sign and the
/// decimal digits of its magnitude.
pub open spec fn spec_int_text(i: int) -> Seq<u8> {
    if i < 0 {
        seq![0x2du8] + spec_dec_digits((-i) as nat)
    } else {
        spec_dec_digits(i as nat)
    }
}

pub open spec fn spec_hex_digit(n: u8) -> u8 {
    if n < 10 {
        (n + 0x30) as u8
    } else {
        (n - 10 + 0x61) as u8
    }
}

/// How one string byte appears inside a JSON string literal: the two-byte
/// escapes of the quote, the backslash and the common control characters,
/// the six-byte escape of the remaining control characters, and every
/// other byte unchanged.
pub open spec fn spec_escape_byte(b: u8) -> Seq<u8> {
    if b == 0x22 {
        seq![0x5cu8, 0x22u8]
    } else if b == 0x5c {
        seq![0x5cu8, 0x5cu8]
    } else if b == 0x08 {
        seq![0x5cu8, 0x62u8]
    } else if b == 0x0c {
        seq![0x5cu8, 0x66u8]
    } else if b == 0x0a {
        seq![0x5cu8, 0x6eu8]
    } else if b == 0x0d {
        seq![0x5cu8, 0x72u8]
    } else if b == 0x09 {
        seq![0x5cu8, 0x74u8]
    } else if b < 0x20 {
        seq![0x5cu8, 0x75u8, 0x30u8, 0x30u8, spec_hex_digit(b / 16), spec_hex_digit(b % 16)]
    } else {
        seq![b]
    }
}

pub open spec fn spec_escape(s: Seq<u8>) -> Seq<u8>
    decreases s.len(),
{
    if s.len() == 0 {
        Seq::empty()
    } else {
        spec_escape(s.drop_last()) + spec_escape_byte(s.last())
    }
}

/// A JSON string literal: quote, escaped content, quote.
pub open spec fn spec_str_text(s: Seq<u8>) -> Seq<u8> {
    seq![0x22u8] + spec_escape(s) + seq![0x22u8]
}

/// The compact JSON text of a value: no whitespace, members in order.
pub open spec fn spec_encode(v: Jv) -> Seq<u8>
    decreases v, 1nat,
{
    match v {
        Jv::Null => seq![0x6eu8, 0x75u8, 0x6cu8, 0x6cu8],
        Jv::Bool(b) => if b {
            seq![0x74u8, 0x72u8, 0x75u8, 0x65u8]
        } else {
            seq![0x66u8, 0x61u8, 0x6cu8, 0x73u8, 0x65u8]
        },
        Jv::Int(i) => spec_int_text(i),
        Jv::Num(s) => s,
        Jv::Str(s) => spec_str_text(s),
        Jv::Arr(es) => seq![0x5bu8] + spec_encode_elems(es) + seq![0x5du8],
        Jv::Obj(ms) => seq![0x7bu8] + spec_encode_members(ms) + seq![0x7du8],
    }
}

pub open spec fn spec_encode_elems(es: Seq<Jv>) -> Seq<u8>
    decreases es, 0nat,
{
    if es.len() == 0 {
        Seq::empty()
    } else if es.len() == 1 {
        spec_encode(es[0])
    } else {
        spec_encode_elems(es.drop_last()) + seq![0x2cu8] + spec_encode(es.last())
    }
}

pub open spec fn spec_encode_member(m: (Seq<u8>, Jv)) -> Seq<u8>
    decreases m, 1nat,
{
    spec_str_text(m.0) + seq![0x3au8] + spec_encode(m.1)
}

pub open spec fn spec_encode_members(ms: Seq<(Seq<u8>, Jv)>) -> Seq<u8>
    decreases ms, 0nat,
{
    if ms.len() == 0 {
        Seq::empty()
    } else if ms.len() == 1 {
        spec_encode_member(ms[0])
    } else {
        spec_encode_members(ms.drop_last()) + seq![0x2cu8] + spec_encode_member(ms.last())
    }
}

fn write_dec(n: u64, out: &mut Vec<u8>)
    ensures
        final(out)@ == old(out)@ + spec_dec_digits(n as nat),
    decreases n,
{
    if n < 10 {
        out.push((n as u8) + 0x30);
    } else {
        write_dec(n / 10, out);
        out.push(((n % 10) as u8) + 0x30);
    }
}

fn write_int(i: i64, out: &mut Vec<u8>)
    ensures
        final(out)@ == old(out)@ + spec_int_text(i as int),
{
    if i < 0 {
        out.push(0x2d);
        let m: i128 = -(i as i128);
        write_dec(m as u64, out);
    } else {
        write_dec(i as u64, out);
    }
}

fn write_escaped(s: &[u8], out: &mut Vec<u8>)
    ensures
        final(out)@ == old(out)@ + spec_escape(s@),
{
    let ghost base = out@;
    let mut i: usize = 0;
    while i < s.len()
        invariant
            i <= s@.len(),
            out@ == base + spec_escape(s@.take(i as int)),
        decreases s@.len() - i,
    {
        let b = s[i];
        if b == 0x22 {
            out.push(0x5c);
            out.push(0x22);
        } else if b == 0x5c {
            out.push(0x5c);
            out.push(0x5c);
        } else if b == 0x08 {
            out.push(0x5c);
            out.push(0x62);
        } else if b == 0x0c {
            out.push(0x5c);
            out.push(0x66);
        } else if b == 0x0a {
            out.push(0x5c);
            out.push(0x6e);
        } else if b == 0x0d {
            out.push(0x5c);
            out.push(0x72);
        } else if b == 0x09 {
            out.push(0x5c);
            out.push(0x74);
        } else if b < 0x20 {
            out.push(0x5c);
            out.push(0x75);
            out.push(0x30);
            out.push(0x30);
            out.push(if b / 16 < 10 {
                b / 16 + 0x30
            } else {
                b / 16 - 10 + 0x61
            });
            out.push(if b % 16 < 10 {
                b % 16 + 0x30
            } else {
                b % 16 - 10 + 0x61
            });
        } else {
            out.push(b);
        }
        proof {
            assert(s@.take(i + 1).drop_last() =~= s@.take(i as int));
            assert(s@.take(i + 1).last() == b);
        }
        i = i + 1;
    }
    proof {
        assert(s@.take(i as int) =~= s@);
    }
}

fn append_bytes(s: &[u8], out: &mut Vec<u8>)
    ensures
        final(out)@ == old(out)@ + s@,
{
    let ghost base = out@;
    let mut i: usize = 0;
    while i < s.len()
        invariant
            i <= s@.len(),
            out@ == base + s@.take(i as int),
        decreases s@.len() - i,
    {
        out.push(s[i]);
        proof {
            assert(s@.take(i + 1) =~= s@.take(i as int).push(s@[i as int]));
        }
        i = i + 1;
    }
    proof {
        assert(s@.take(i as int) =~= s@);
    }
}

fn write_str(s: &[u8], out: &mut Vec<u8>)
    ensures
        final(out)@ == old(out)@ + spec_str_text(s@),
{
    out.push(0x22);
    write_escaped(s, out);
    out.push(0x22);
}

/// Appends the compact JSON text of `v` to `out`.
pub fn write_json(v: &Json, out: &mut Vec<u8>)
    ensures
        final(out)@ == old(out)@ + spec_encode(v@),
    decreases *v,
{
    match v {
        Json::Null => {
            out.push(0x6e);
            out.push(0x75);
            out.push(0x6c);
            out.push(0x6c);
        },
        Json::Bool(b) => {
            if *b {
                out.push(0x74);
                out.push(0x72);
                out.push(0x75);
                out.push(0x65);
            } else {
                out.push(0x66);
                out.push(0x61);
                out.push(0x6c);
                out.push(0x73);
                out.push(0x65);
            }
        },
        Json::I64(i) => {
            write_int(*i, out);
        },
        Json::Num(s) => {
            append_bytes(s.as_slice(), out);
        },
        Json::Str(s) => {
            write_str(s.as_slice(), out);
        },
        Json::Arr(es) => {
            let ghost base = out@;
            out.push(0x5b);
            let mut i: usize = 0;
            while i < es.len()
                invariant
                    i <= es@.len(),
                    out@ == base + seq![0x5bu8] + spec_encode_elems(
                        v@->Arr_0.take(i as int),
                    ),
                    *v == Json::Arr(*es),
                decreases es@.len() - i,
            {
                if i > 0 {
                    out.push(0x2c);
                }
                proof {
                    assert(*v == Json::Arr(*es));
                    assert(decreases_to!(Json::Arr(*es) => *es));
                    assert(decreases_to!(*es => es@[i as int]));
                }
                write_json(&es[i], out);
                proof {
                    let m = v@->Arr_0;
                    assert(m.take(i + 1).drop_last() =~= m.take(i as int));
                    assert(m.take(i + 1).last() == m[i as int]);
                    assert(m[i as int] == json_view(es@[i as int]));
                }
                i = i + 1;
            }
            out.push(0x5d);
            proof {
                assert(v@->Arr_0.take(i as int) =~= v@->Arr_0);
            }
        },
        Json::Obj(ms) => {
            let ghost base = out@;
            out.push(0x7b);
            let mut i: usize = 0;
            while i < ms.len()
                invariant
                    i <= ms@.len(),
                    out@ == base + seq![0x7bu8] + spec_encode_members(
                        v@->Obj_0.take(i as int),
                    ),
                    *v == Json::Obj(*ms),
                decreases ms@.len() - i,
            {
                if i > 0 {
                    out.push(0x2c);
                }
                write_str(ms[i].0.as_slice(), out);
                out.push(0x3a);
                proof {
                    assert(*v == Json::Obj(*ms));
                    assert(decreases_to!(Json::Obj(*ms) => *ms));
                    assert(decreases_to!(*ms => ms@[i as int]));
                    assert(decreases_to!(ms@[i as int] => ms@[i as int].1));
                }
                write_json(&ms[i].1, out);
                proof {
                    let m = v@->Obj_0;
                    assert(m.take(i + 1).drop_last() =~= m.take(i as int));
                    assert(m.take(i + 1).last() == m[i as int]);
                    assert(m[i as int] == (ms@[i as int].0@, json_view(ms@[i as int].1)));
                    assert(spec_encode_member(m[i as int]) == spec_str_text(ms@[i as int].0@)
                        + seq![0x3au8] + spec_encode(ms@[i as int].1@));
                    if i > 0 {
                        assert(spec_encode_members(m.take(i + 1)) == spec_encode_members(
                            m.take(i as int),
                        ) + seq![0x2cu8] + spec_encode_member(m[i as int]));
                    } else {
                        assert(spec_encode_members(m.take(i + 1)) == spec_encode_member(
                            m[i as int],
                        ));
                    }
                    assert(out@ =~= base + seq![0x7bu8] + spec_encode_members(m.take(i + 1)));
                }
                i = i + 1;
            }
            out.push(0x7d);
            proof {
                assert(v@->Obj_0.take(i as int) =~= v@->Obj_0);
            }
        },
    }
}

/// The compact JSON text of `v` as a fresh byte vector.
pub fn encode_json(v: &Json) -> (out: Vec<u8>)
    ensures
        out@ == spec_encode(v@),
{
    let mut out: Vec<u8> = Vec::new();
    write_json(v, &mut out);
    out
}

/// A copy of the byte vector with the same view.
pub(crate) fn clone_bytes(s: &Vec<u8>) -> (r: Vec<u8>)
    ensures
        r@ == s@,
{
    let mut out: Vec<u8> = Vec::new();
    let mut i: usize = 0;
    while i < s.len()
        invariant
            i <= s@.len(),
            out@ == s@.take(i as int),
        decreases s@.len() - i,
    {
        out.push(s[i]);
        proof {
            assert(s@.take(i + 1) =~= s@.take(i as int).push(s@[i as int]));
        }
        i = i + 1;
    }
    proof {
        assert(s@.take(i as int) =~= s@);
    }
    out
}

} // verus!
