//! Law: the wire codec round-trips.  Parsing the compact text the
//! encoder produces yields the encoded value back, for every value the
//! driver itself builds: integers within the 64-bit signed range and
//! any string content, in arrays and objects to any depth.  A number
//! carried as its text only ever arrives from the server and is never
//! built, so it stays outside the statement.

use vstd::prelude::*;
use crate::json::{
    spec_dec_digits,
    spec_hex_digit,
    spec_encode,
    spec_encode_elems,
    spec_encode_member,
    spec_encode_members,
    spec_escape,
    spec_escape_byte,
    spec_int_text,
    spec_str_text,
    Jv,
};
use crate::parse::{
    is_digit,
    is_hex,
    is_ws,
    spec_exp_end,
    spec_frac_end,
    spec_hex4,
    spec_hex_val,
    spec_unicode_escape,
    spec_utf8_enc,
    spec_dec_val,
    spec_digits_end,
    spec_parse_elems,
    spec_parse_json,
    spec_parse_members,
    spec_parse_number,
    spec_parse_strbody,
    spec_parse_string,
    spec_parse_value,
    spec_unescape,
    spec_ws,
};

verus! {

/// A byte that cannot continue a number: after an integer's digits it
/// neither extends the digit run nor starts a fraction or an exponent.
pub open spec fn num_boundary(b: u8) -> bool {
    !is_digit(b) && b != 0x2e && b != 0x65 && b != 0x45
}

/// A value the driver builds and the wire carries faithfully.
pub open spec fn jv_wf(v: Jv) -> bool
    decreases v,
{
    match v {
        Jv::Null => true,
        Jv::Bool(_) => true,
        Jv::Int(i) => -0x8000000000000000 <= i <= 0x7fffffffffffffff,
        Jv::Num(_) => false,
        Jv::Str(_) => true,
        Jv::Arr(es) => forall|k: int| 0 <= k < es.len() ==> jv_wf(#[trigger] es[k]),
        Jv::Obj(ms) => forall|k: int| 0 <= k < ms.len() ==> jv_wf(#[trigger] ms[k].1),
    }
}

proof fn lemma_dec_digits_props(n: nat)
    ensures
        spec_dec_digits(n).len() >= 1,
        forall|k: int| 0 <= k < spec_dec_digits(n).len() ==> is_digit(#[trigger] spec_dec_digits(n)[k]),
        n >= 1 ==> spec_dec_digits(n)[0] != 0x30,
        n < 10 <==> spec_dec_digits(n).len() == 1,
    decreases n,
{
    if n >= 10 {
        lemma_dec_digits_props(n / 10);
    }
}

proof fn lemma_escape_left(s: Seq<u8>)
    requires
        s.len() > 0,
    ensures
        spec_escape(s) == spec_escape_byte(s[0]) + spec_escape(s.drop_first()),
    decreases s.len(),
{
    if s.len() == 1 {
        assert(s.drop_last() =~= Seq::<u8>::empty());
        assert(s.drop_first() =~= Seq::<u8>::empty());
        assert(spec_escape(s) =~= spec_escape_byte(s[0]) + spec_escape(s.drop_first()));
    } else {
        lemma_escape_left(s.drop_last());
        assert(s.drop_last().drop_first() =~= s.drop_first().drop_last());
        assert(s.drop_first().last() == s.last());
        assert(s.drop_last()[0] == s[0]);
        assert(spec_escape(s) =~= spec_escape_byte(s[0]) + spec_escape(s.drop_first()));
    }
}

proof fn lemma_encode_elems_left(es: Seq<Jv>)
    requires
        es.len() >= 1,
    ensures
        es.len() == 1 ==> spec_encode_elems(es) == spec_encode(es[0]),
        es.len() > 1 ==> spec_encode_elems(es) == spec_encode(es[0]) + seq![0x2cu8]
            + spec_encode_elems(es.drop_first()),
    decreases es.len(),
{
    if es.len() > 1 {
        lemma_encode_elems_left(es.drop_last());
        assert(es.drop_last().drop_first() =~= es.drop_first().drop_last());
        assert(es.drop_first().last() == es.last());
        assert(es.drop_last()[0] == es[0]);
        if es.len() == 2 {
            assert(es.drop_first() =~= seq![es[1]]);
            assert(spec_encode_elems(es) =~= spec_encode(es[0]) + seq![0x2cu8]
                + spec_encode_elems(es.drop_first()));
        } else {
            assert(spec_encode_elems(es) =~= spec_encode(es[0]) + seq![0x2cu8]
                + spec_encode_elems(es.drop_first()));
        }
    }
}

proof fn lemma_encode_members_left(ms: Seq<(Seq<u8>, Jv)>)
    requires
        ms.len() >= 1,
    ensures
        ms.len() == 1 ==> spec_encode_members(ms) == spec_encode_member(ms[0]),
        ms.len() > 1 ==> spec_encode_members(ms) == spec_encode_member(ms[0]) + seq![0x2cu8]
            + spec_encode_members(ms.drop_first()),
    decreases ms.len(),
{
    if ms.len() > 1 {
        lemma_encode_members_left(ms.drop_last());
        assert(ms.drop_last().drop_first() =~= ms.drop_first().drop_last());
        assert(ms.drop_first().last() == ms.last());
        assert(ms.drop_last()[0] == ms[0]);
        if ms.len() == 2 {
            assert(ms.drop_first() =~= seq![ms[1]]);
            assert(spec_encode_members(ms) =~= spec_encode_member(ms[0]) + seq![0x2cu8]
                + spec_encode_members(ms.drop_first()));
        } else {
            assert(spec_encode_members(ms) =~= spec_encode_member(ms[0]) + seq![0x2cu8]
                + spec_encode_members(ms.drop_first()));
        }
    }
}

proof fn lemma_skip_concat(s: Seq<u8>, i: int, a: Seq<u8>, rest: Seq<u8>, d: int)
    requires
        0 <= i <= s.len(),
        s.skip(i) == a + rest,
        0 <= d <= a.len(),
    ensures
        i + d <= s.len(),
        s.skip(i + d) == a.skip(d) + rest,
{
    assert(s.skip(i).len() == s.len() - i);
    assert((a + rest).len() == a.len() + rest.len());
    assert forall|k: int| 0 <= k < s.len() - i - d implies s.skip(i + d)[k] == (a.skip(d)
        + rest)[k] by {
        assert(s.skip(i + d)[k] == s[i + d + k]);
        assert(s.skip(i)[d + k] == s[i + d + k]);
        assert((a + rest)[d + k] == (a.skip(d) + rest)[k]);
    }
    assert(s.skip(i + d) =~= a.skip(d) + rest);
}

proof fn lemma_byte_at(s: Seq<u8>, i: int, a: Seq<u8>, rest: Seq<u8>, k: int)
    requires
        0 <= i <= s.len(),
        s.skip(i) == a + rest,
        0 <= k < a.len(),
    ensures
        i + k < s.len(),
        s[i + k] == a[k],
{
    assert(s.skip(i).len() == s.len() - i);
    assert((a + rest).len() == a.len() + rest.len());
    assert(s.skip(i)[k] == s[i + k]);
    assert((a + rest)[k] == a[k]);
}

proof fn lemma_digits_end_at(s: Seq<u8>, i: int, d: Seq<u8>, rest: Seq<u8>)
    requires
        0 <= i <= s.len(),
        s.skip(i) == d + rest,
        forall|k: int| 0 <= k < d.len() ==> is_digit(#[trigger] d[k]),
        rest.len() > 0 ==> !is_digit(rest[0]),
    ensures
        spec_digits_end(s, i) == i + d.len(),
    decreases d.len(),
{
    if d.len() == 0 {
        if rest.len() > 0 {
            assert(s.skip(i)[0] == s[i]);
            assert(s[i] == rest[0]);
        }
    } else {
        lemma_byte_at(s, i, d, rest, 0);
        lemma_skip_concat(s, i, d, rest, 1);
        assert(d.skip(1) =~= d.drop_first());
        lemma_digits_end_at(s, i + 1, d.drop_first(), rest);
    }
}

proof fn lemma_dec_val_at(s: Seq<u8>, i: int, n: nat, rest: Seq<u8>)
    requires
        0 <= i <= s.len(),
        s.skip(i) == spec_dec_digits(n) + rest,
    ensures
        spec_dec_val(s, i, i + spec_dec_digits(n).len()) == n,
    decreases n,
{
    let d = spec_dec_digits(n);
    let e = i + d.len();
    assert(s.skip(i).len() == s.len() - i);
    assert((d + rest).len() == d.len() + rest.len());
    if n < 10 {
        lemma_byte_at(s, i, d, rest, 0);
        assert(spec_dec_val(s, i, e) == spec_dec_val(s, i, i) * 10 + (s[e - 1] - 0x30));
        assert(s[i] == (n + 0x30) as u8);
    } else {
        let dq = spec_dec_digits(n / 10);
        let last = ((n % 10 + 0x30) as u8);
        assert(d == dq.push(last));
        assert(s.skip(i) =~= dq + (seq![last] + rest));
        lemma_dec_val_at(s, i, n / 10, seq![last] + rest);
        lemma_byte_at(s, i, dq + (seq![last] + rest), Seq::empty(), dq.len() as int);
        assert(s[i + dq.len()] == last);
        assert(e - 1 == i + dq.len());
        assert(spec_dec_val(s, i, e) == spec_dec_val(s, i, e - 1) * 10 + (s[e - 1] - 0x30));
        assert(spec_dec_val(s, i, e) == (n / 10) * 10 + n % 10);
    }
}

proof fn lemma_number_round(s: Seq<u8>, i: int, v: int, rest: Seq<u8>)
    requires
        0 <= i <= s.len(),
        -0x8000000000000000 <= v <= 0x7fffffffffffffff,
        s.skip(i) == spec_int_text(v) + rest,
        rest.len() > 0 ==> num_boundary(rest[0]),
    ensures
        spec_parse_number(s, i) == Some((Jv::Int(v), i + spec_int_text(v).len())),
{
    let t = spec_int_text(v);
    assert(s.skip(i).len() == s.len() - i);
    assert((t + rest).len() == t.len() + rest.len());
    if v < 0 {
        let m = (-v) as nat;
        let dg = spec_dec_digits(m);
        lemma_dec_digits_props(m);
        lemma_byte_at(s, i, t, rest, 0);
        assert(s[i] == 0x2d);
        lemma_skip_concat(s, i, t, rest, 1);
        assert(t.skip(1) =~= dg);
        lemma_byte_at(s, i + 1, dg, rest, 0);
        lemma_digits_end_at(s, i + 1, dg, rest);
        lemma_dec_val_at(s, i + 1, m, rest);
        let e = spec_digits_end(s, i + 1);
        assert(e == i + 1 + dg.len());
        if s[i + 1] == 0x30 {
            assert(m == 0 || dg[0] != 0x30);
            assert(m == 0);
            assert(dg.len() == 1);
            assert(!(e > i + 1 + 1));
        } else {
            assert(!(s[i + 1] == 0x30 && e > i + 2));
        }
        assert(spec_dec_val(s, i + 1, e) == m);
        assert(m <= 0x8000000000000000);
        assert(e == i + t.len());
        if e < s.len() {
            assert(s.skip(i)[t.len() as int] == s[e]);
            assert((t + rest)[t.len() as int] == rest[0]);
            assert(num_boundary(s[e]));
        }
        assert(spec_frac_end(s, e) == Some(e));
        assert(spec_exp_end(s, e) == Some(e));
        assert(spec_parse_number(s, i) == Some((Jv::Int(-(m as int)), e)));
        assert(-(m as int) == v);
    } else {
        let m = v as nat;
        let dg = spec_dec_digits(m);
        lemma_dec_digits_props(m);
        assert(t == dg);
        lemma_byte_at(s, i, dg, rest, 0);
        assert(is_digit(s[i]));
        assert(s[i] != 0x2d);
        lemma_digits_end_at(s, i, dg, rest);
        lemma_dec_val_at(s, i, m, rest);
        let e = spec_digits_end(s, i);
        assert(e == i + dg.len());
        if s[i] == 0x30 {
            assert(m == 0 || dg[0] != 0x30);
            assert(m == 0);
            assert(dg.len() == 1);
        }
        assert(spec_dec_val(s, i, e) == m);
        assert(m <= 0x7fffffffffffffff);
        assert(e == i + t.len());
        if e < s.len() {
            assert(s.skip(i)[t.len() as int] == s[e]);
            assert((t + rest)[t.len() as int] == rest[0]);
            assert(num_boundary(s[e]));
        }
        assert(spec_frac_end(s, e) == Some(e));
        assert(spec_exp_end(s, e) == Some(e));
        assert(spec_parse_number(s, i) == Some((Jv::Int(m as int), e)));
    }
}

proof fn lemma_strbody_at(s: Seq<u8>, i: int, c: Seq<u8>, rest: Seq<u8>)
    requires
        0 <= i <= s.len(),
        s.skip(i) == spec_escape(c) + seq![0x22u8] + rest,
    ensures
        spec_parse_strbody(s, i) == Some((c, i + spec_escape(c).len() + 1)),
    decreases c.len(),
{
    let esc = spec_escape(c);
    assert(s.skip(i).len() == s.len() - i);
    assert((esc + seq![0x22u8] + rest).len() == esc.len() + 1 + rest.len());
    if c.len() == 0 {
        assert(esc =~= Seq::<u8>::empty());
        lemma_byte_at(s, i, esc + seq![0x22u8], rest, 0);
        assert(s[i] == 0x22);
        assert(spec_parse_strbody(s, i) == Some((Seq::<u8>::empty(), i + 1)));
        assert(c =~= Seq::<u8>::empty());
    } else {
        lemma_escape_left(c);
        let b = c[0];
        let eb = spec_escape_byte(b);
        let tail_esc = spec_escape(c.drop_first());
        assert(esc == eb + tail_esc);
        assert(s.skip(i) =~= eb + (tail_esc + seq![0x22u8] + rest));
        if b >= 0x20 && b != 0x22 && b != 0x5c {
            assert(eb =~= seq![b]);
            lemma_byte_at(s, i, eb + (tail_esc + seq![0x22u8] + rest), Seq::empty(), 0);
            assert(s[i] == b);
            lemma_skip_concat(s, i, eb + (tail_esc + seq![0x22u8] + rest), Seq::empty(), 1);
            assert((eb + (tail_esc + seq![0x22u8] + rest)).skip(1) =~= tail_esc + seq![0x22u8]
                + rest);
            assert(s.skip(i + 1) =~= tail_esc + seq![0x22u8] + rest);
            lemma_strbody_at(s, i + 1, c.drop_first(), rest);
            assert(seq![b] + c.drop_first() =~= c);
        } else if b == 0x22 || b == 0x5c || b == 0x08 || b == 0x0c || b == 0x0a || b == 0x0d
            || b == 0x09 {
            let x: u8 = if b == 0x22 {
                0x22
            } else if b == 0x5c {
                0x5c
            } else if b == 0x08 {
                0x62
            } else if b == 0x0c {
                0x66
            } else if b == 0x0a {
                0x6e
            } else if b == 0x0d {
                0x72
            } else {
                0x74
            };
            assert(eb =~= seq![0x5cu8, x]);
            assert(spec_unescape(x) == Some(b));
            lemma_byte_at(s, i, eb + (tail_esc + seq![0x22u8] + rest), Seq::empty(), 0);
            lemma_byte_at(s, i, eb + (tail_esc + seq![0x22u8] + rest), Seq::empty(), 1);
            assert(s[i] == 0x5c);
            assert(s[i + 1] == x);
            lemma_skip_concat(s, i, eb + (tail_esc + seq![0x22u8] + rest), Seq::empty(), 2);
            assert((eb + (tail_esc + seq![0x22u8] + rest)).skip(2) =~= tail_esc + seq![0x22u8]
                + rest);
            assert(s.skip(i + 2) =~= tail_esc + seq![0x22u8] + rest);
            lemma_strbody_at(s, i + 2, c.drop_first(), rest);
            assert(seq![b] + c.drop_first() =~= c);
        } else {
            assert(b < 0x20);
            let h1 = spec_hex_digit(b / 16);
            let h2 = spec_hex_digit(b % 16);
            assert(eb =~= seq![0x5cu8, 0x75u8, 0x30u8, 0x30u8, h1, h2]);
            let whole = eb + (tail_esc + seq![0x22u8] + rest);
            lemma_byte_at(s, i, whole, Seq::empty(), 0);
            lemma_byte_at(s, i, whole, Seq::empty(), 1);
            lemma_byte_at(s, i, whole, Seq::empty(), 2);
            lemma_byte_at(s, i, whole, Seq::empty(), 3);
            lemma_byte_at(s, i, whole, Seq::empty(), 4);
            lemma_byte_at(s, i, whole, Seq::empty(), 5);
            assert(s[i] == 0x5c);
            assert(s[i + 1] == 0x75);
            assert(s[i + 2] == 0x30);
            assert(s[i + 3] == 0x30);
            assert(s[i + 4] == h1);
            assert(s[i + 5] == h2);
            assert(is_hex(0x30u8) && spec_hex_val(0x30u8) == 0);
            assert(b / 16 < 10);
            assert(is_hex(h1) && spec_hex_val(h1) == b / 16);
            if b % 16 < 10 {
                assert(is_hex(h2) && spec_hex_val(h2) == b % 16);
            } else {
                assert(is_hex(h2) && spec_hex_val(h2) == b % 16);
            }
            assert(spec_hex4(s, i + 2) == (b / 16) * 16 + b % 16);
            assert(spec_hex4(s, i + 2) == b);
            assert(spec_unicode_escape(s, i) == Some((b as int, i + 6)));
            assert(spec_utf8_enc(b as int) =~= seq![b]);
            lemma_skip_concat(s, i, whole, Seq::empty(), 6);
            assert(whole.skip(6) =~= tail_esc + seq![0x22u8] + rest);
            assert(s.skip(i + 6) =~= tail_esc + seq![0x22u8] + rest);
            lemma_strbody_at(s, i + 6, c.drop_first(), rest);
            assert(seq![b] + c.drop_first() =~= c);
        }
    }
}

proof fn lemma_encode_head(v: Jv)
    requires
        !(v is Num),
    ensures
        spec_encode(v).len() > 0,
        !is_ws(spec_encode(v)[0]),
        spec_encode(v)[0] != 0x5d && spec_encode(v)[0] != 0x2c && spec_encode(v)[0] != 0x7d
            && spec_encode(v)[0] != 0x3a,
        match v {
            Jv::Null => spec_encode(v)[0] == 0x6e,
            Jv::Bool(b) => spec_encode(v)[0] == if b {
                0x74u8
            } else {
                0x66u8
            },
            Jv::Int(_) => spec_encode(v)[0] == 0x2d || is_digit(spec_encode(v)[0]),
            Jv::Num(_) => true,
            Jv::Str(_) => spec_encode(v)[0] == 0x22,
            Jv::Arr(_) => spec_encode(v)[0] == 0x5b,
            Jv::Obj(_) => spec_encode(v)[0] == 0x7b,
        },
{
    match v {
        Jv::Int(i) => {
            if i < 0 {
                lemma_dec_digits_props((-i) as nat);
                assert(spec_encode(v)[0] == 0x2d);
            } else {
                lemma_dec_digits_props(i as nat);
                assert(spec_encode(v)[0] == spec_dec_digits(i as nat)[0]);
                assert(is_digit(spec_encode(v)[0]));
            }
        },
        Jv::Str(c) => {
            assert(spec_encode(v)[0] == 0x22);
        },
        Jv::Arr(es) => {
            assert(spec_encode(v)[0] == 0x5b);
        },
        Jv::Obj(ms) => {
            assert(spec_encode(v)[0] == 0x7b);
        },
        _ => {},
    }
}

proof fn lemma_value_round(s: Seq<u8>, i: int, v: Jv, rest: Seq<u8>)
    requires
        0 <= i <= s.len(),
        jv_wf(v),
        s.skip(i) == spec_encode(v) + rest,
        (v is Int && rest.len() > 0) ==> num_boundary(rest[0]),
    ensures
        spec_parse_value(s, i) == Some((v, i + spec_encode(v).len())),
    decreases s.len() - i, 0int,
{
    let t = spec_encode(v);
    assert(s.skip(i).len() == s.len() - i);
    assert((t + rest).len() == t.len() + rest.len());
    lemma_encode_head(v);
    lemma_byte_at(s, i, t, rest, 0);
    match v {
        Jv::Null => {
            lemma_byte_at(s, i, t, rest, 1);
            lemma_byte_at(s, i, t, rest, 2);
            lemma_byte_at(s, i, t, rest, 3);
            assert(spec_parse_value(s, i) == Some((Jv::Null, i + 4)));
        },
        Jv::Bool(b) => {
            lemma_byte_at(s, i, t, rest, 1);
            lemma_byte_at(s, i, t, rest, 2);
            lemma_byte_at(s, i, t, rest, 3);
            if !b {
                lemma_byte_at(s, i, t, rest, 4);
            }
        },
        Jv::Int(n) => {
            assert(s[i] != 0x6e && s[i] != 0x74 && s[i] != 0x66 && s[i] != 0x22);
            lemma_number_round(s, i, n, rest);
        },
        Jv::Num(_) => {},
        Jv::Str(c) => {
            assert(s[i] == 0x22);
            lemma_skip_concat(s, i, t, rest, 1);
            assert(t.skip(1) =~= spec_escape(c) + seq![0x22u8]);
            assert(s.skip(i + 1) =~= spec_escape(c) + seq![0x22u8] + rest);
            lemma_strbody_at(s, i + 1, c, rest);
            assert(spec_parse_string(s, i) == Some((c, i + t.len())));
        },
        Jv::Arr(es) => {
            assert(s[i] == 0x5b);
            let inner = spec_encode_elems(es);
            assert(t == seq![0x5bu8] + inner + seq![0x5du8]);
            assert(t.len() == inner.len() + 2);
            if es.len() == 0 {
                assert(inner =~= Seq::<u8>::empty());
                lemma_byte_at(s, i, t, rest, 1);
                assert(s[i + 1] == 0x5d);
                assert(spec_ws(s, i + 1) == i + 1);
                assert(spec_parse_value(s, i) == Some((Jv::Arr(Seq::empty()), i + 2)));
                assert(es =~= Seq::<Jv>::empty());
            } else {
                lemma_encode_elems_left(es);
                assert(jv_wf(es[0]));
                lemma_encode_head(es[0]);
                assert(inner[0] == spec_encode(es[0])[0]);
                lemma_byte_at(s, i, t, rest, 1);
                assert(s[i + 1] == inner[0]);
                assert(!is_ws(s[i + 1]));
                assert(spec_ws(s, i + 1) == i + 1);
                assert(s[i + 1] != 0x5d);
                lemma_skip_concat(s, i, t, rest, 1);
                assert(t.skip(1) =~= inner + seq![0x5du8]);
                assert(s.skip(i + 1) =~= inner + seq![0x5du8] + rest);
                assert forall|k: int| 0 <= k < es.len() implies jv_wf(#[trigger] es[k]) by {}
                lemma_elems_round(s, i + 1, es, rest);
                assert(spec_parse_value(s, i) == Some((Jv::Arr(es), i + t.len())));
            }
        },
        Jv::Obj(ms) => {
            assert(s[i] == 0x7b);
            let inner = spec_encode_members(ms);
            assert(t == seq![0x7bu8] + inner + seq![0x7du8]);
            assert(t.len() == inner.len() + 2);
            if ms.len() == 0 {
                assert(inner =~= Seq::<u8>::empty());
                lemma_byte_at(s, i, t, rest, 1);
                assert(s[i + 1] == 0x7d);
                assert(spec_ws(s, i + 1) == i + 1);
                assert(spec_parse_value(s, i) == Some((Jv::Obj(Seq::empty()), i + 2)));
                assert(ms =~= Seq::<(Seq<u8>, Jv)>::empty());
            } else {
                lemma_encode_members_left(ms);
                assert(inner[0] == spec_encode_member(ms[0])[0]);
                assert(spec_encode_member(ms[0])[0] == 0x22);
                lemma_byte_at(s, i, t, rest, 1);
                assert(s[i + 1] == 0x22);
                assert(!is_ws(s[i + 1]));
                assert(spec_ws(s, i + 1) == i + 1);
                assert(s[i + 1] != 0x7d);
                lemma_skip_concat(s, i, t, rest, 1);
                assert(t.skip(1) =~= inner + seq![0x7du8]);
                assert(s.skip(i + 1) =~= inner + seq![0x7du8] + rest);
                assert forall|k: int| 0 <= k < ms.len() implies jv_wf(#[trigger] ms[k].1) by {
                    assert(jv_wf(v));
                    assert(v == Jv::Obj(ms));
                }
                lemma_members_round(s, i + 1, ms, rest);
                assert(spec_parse_value(s, i) == Some((Jv::Obj(ms), i + t.len())));
            }
        },
    }
}

proof fn lemma_elems_round(s: Seq<u8>, i: int, es: Seq<Jv>, rest: Seq<u8>)
    requires
        0 <= i <= s.len(),
        es.len() >= 1,
        forall|k: int| 0 <= k < es.len() ==> jv_wf(#[trigger] es[k]),
        s.skip(i) == spec_encode_elems(es) + seq![0x5du8] + rest,
    ensures
        spec_parse_elems(s, i) == Some((es, i + spec_encode_elems(es).len() + 1)),
    decreases s.len() - i, 1int,
{
    let inner = spec_encode_elems(es);
    assert(s.skip(i).len() == s.len() - i);
    assert((inner + seq![0x5du8] + rest).len() == inner.len() + 1 + rest.len());
    lemma_encode_elems_left(es);
    let enc0 = spec_encode(es[0]);
    lemma_encode_head(es[0]);
    if es.len() == 1 {
        assert(inner == enc0);
        assert(s.skip(i) =~= enc0 + (seq![0x5du8] + rest));
        lemma_value_round(s, i, es[0], seq![0x5du8] + rest);
        let j = i + enc0.len();
        lemma_byte_at(s, i, enc0 + (seq![0x5du8] + rest), Seq::empty(), enc0.len() as int);
        assert(s[j] == 0x5d);
        assert(spec_ws(s, j) == j);
        assert(spec_parse_elems(s, i) == Some((seq![es[0]], j + 1)));
        assert(seq![es[0]] =~= es);
    } else {
        let tail = es.drop_first();
        let enc_tail = spec_encode_elems(tail);
        assert(inner == enc0 + seq![0x2cu8] + enc_tail);
        assert(inner.len() == enc0.len() + 1 + enc_tail.len());
        let rest_v = seq![0x2cu8] + enc_tail + seq![0x5du8] + rest;
        assert(s.skip(i) =~= enc0 + rest_v);
        assert(rest_v[0] == 0x2c);
        lemma_value_round(s, i, es[0], rest_v);
        let j = i + enc0.len();
        lemma_byte_at(s, i, enc0 + rest_v, Seq::empty(), enc0.len() as int);
        assert(s[j] == 0x2c);
        assert(spec_ws(s, j) == j);
        assert(s[j] != 0x5d);
        lemma_encode_elems_left(tail);
        lemma_encode_head(tail[0]);
        assert(enc_tail[0] == spec_encode(tail[0])[0]);
        assert(s.skip(i) =~= (enc0 + seq![0x2cu8]) + (enc_tail + seq![0x5du8] + rest));
        lemma_skip_concat(s, i, enc0 + seq![0x2cu8], enc_tail + seq![0x5du8] + rest, (enc0.len()
            + 1) as int);
        assert((enc0 + seq![0x2cu8]).skip((enc0.len() + 1) as int) =~= Seq::<u8>::empty());
        assert(s.skip(j + 1) =~= enc_tail + seq![0x5du8] + rest);
        assert(s.skip(j + 1) =~= enc_tail + (seq![0x5du8] + rest));
        lemma_byte_at(s, j + 1, enc_tail, seq![0x5du8] + rest, 0);
        assert(s[j + 1] == enc_tail[0]);
        assert(!is_ws(s[j + 1]));
        assert(spec_ws(s, j + 1) == j + 1);
        assert forall|k: int| 0 <= k < tail.len() implies jv_wf(#[trigger] tail[k]) by {
            assert(tail[k] == es[k + 1]);
        }
        lemma_elems_round(s, j + 1, tail, rest);
        assert(seq![es[0]] + tail =~= es);
        assert(spec_parse_elems(s, i) == Some((es, i + inner.len() + 1)));
    }
}

#[verifier::rlimit(60)]
proof fn lemma_members_round(s: Seq<u8>, i: int, ms: Seq<(Seq<u8>, Jv)>, rest: Seq<u8>)
    requires
        0 <= i <= s.len(),
        ms.len() >= 1,
        forall|k: int| 0 <= k < ms.len() ==> jv_wf(#[trigger] ms[k].1),
        s.skip(i) == spec_encode_members(ms) + seq![0x7du8] + rest,
    ensures
        spec_parse_members(s, i) == Some((ms, i + spec_encode_members(ms).len() + 1)),
    decreases s.len() - i, 1int,
{
    let inner = spec_encode_members(ms);
    assert(s.skip(i).len() == s.len() - i);
    assert((inner + seq![0x7du8] + rest).len() == inner.len() + 1 + rest.len());
    lemma_encode_members_left(ms);
    let key = ms[0].0;
    let val = ms[0].1;
    let enc_m = spec_encode_member(ms[0]);
    let enc_v = spec_encode(val);
    assert(enc_m == spec_str_text(key) + seq![0x3au8] + enc_v);
    assert(enc_m.len() == spec_escape(key).len() + 2 + 1 + enc_v.len());
    lemma_encode_head(val);
    let close_or_comma: Seq<u8> = if ms.len() == 1 {
        seq![0x7du8] + rest
    } else {
        seq![0x2cu8] + spec_encode_members(ms.drop_first()) + seq![0x7du8] + rest
    };
    assert(s.skip(i) =~= enc_m + close_or_comma);
    // the key string
    lemma_byte_at(s, i, enc_m + close_or_comma, Seq::empty(), 0);
    assert(s[i] == 0x22);
    assert(s.skip(i) =~= spec_str_text(key) + (seq![0x3au8] + enc_v + close_or_comma));
    lemma_skip_concat(s, i, spec_str_text(key), seq![0x3au8] + enc_v + close_or_comma, 1);
    assert(spec_str_text(key).skip(1) =~= spec_escape(key) + seq![0x22u8]);
    assert(s.skip(i + 1) =~= spec_escape(key) + seq![0x22u8] + (seq![0x3au8] + enc_v
        + close_or_comma));
    lemma_strbody_at(s, i + 1, key, seq![0x3au8] + enc_v + close_or_comma);
    let jk = i + spec_str_text(key).len();
    assert(spec_parse_string(s, i) == Some((key, jk)));
    // the colon
    lemma_skip_concat(s, i, spec_str_text(key), seq![0x3au8] + enc_v + close_or_comma,
        spec_str_text(key).len() as int);
    assert(spec_str_text(key).skip(spec_str_text(key).len() as int) =~= Seq::<u8>::empty());
    assert(s.skip(jk) =~= seq![0x3au8] + (enc_v + close_or_comma));
    lemma_byte_at(s, jk, seq![0x3au8], enc_v + close_or_comma, 0);
    assert(s[jk] == 0x3a);
    assert(spec_ws(s, jk) == jk);
    assert(s.skip(i) =~= (spec_str_text(key) + seq![0x3au8]) + (enc_v + close_or_comma));
    lemma_skip_concat(s, i, spec_str_text(key) + seq![0x3au8], enc_v + close_or_comma,
        (spec_str_text(key).len() + 1) as int);
    assert((spec_str_text(key) + seq![0x3au8]).skip((spec_str_text(key).len() + 1) as int)
        =~= Seq::<u8>::empty());
    assert(s.skip(jk + 1) =~= enc_v + close_or_comma);
    lemma_byte_at(s, jk + 1, enc_v, close_or_comma, 0);
    assert(s[jk + 1] == enc_v[0]);
    assert(!is_ws(s[jk + 1]));
    assert(spec_ws(s, jk + 1) == jk + 1);
    // the value
    assert(close_or_comma[0] == 0x7d || close_or_comma[0] == 0x2c);
    lemma_value_round(s, jk + 1, val, close_or_comma);
    let j2 = jk + 1 + enc_v.len();
    lemma_byte_at(s, jk + 1, enc_v + close_or_comma, Seq::empty(), enc_v.len() as int);
    assert(s[j2] == close_or_comma[0]);
    assert(spec_ws(s, j2) == j2);
    if ms.len() == 1 {
        assert(s[j2] == 0x7d);
        assert(spec_parse_members(s, i) == Some((seq![ms[0]], j2 + 1)));
        assert(seq![ms[0]] =~= ms);
        assert(j2 + 1 == i + inner.len() + 1);
    } else {
        let tail = ms.drop_first();
        let enc_tail = spec_encode_members(tail);
        assert(inner == enc_m + seq![0x2cu8] + enc_tail);
        assert(inner.len() == enc_m.len() + 1 + enc_tail.len());
        assert(s[j2] == 0x2c);
        assert(s[j2] != 0x7d);
        lemma_encode_members_left(tail);
        assert(enc_tail[0] == spec_encode_member(tail[0])[0]);
        assert(enc_tail[0] == 0x22);
        assert(s.skip(jk + 1) =~= (enc_v + seq![0x2cu8]) + (enc_tail + seq![0x7du8] + rest));
        lemma_skip_concat(s, jk + 1, enc_v + seq![0x2cu8], enc_tail + seq![0x7du8] + rest,
            (enc_v.len() + 1) as int);
        assert((enc_v + seq![0x2cu8]).skip((enc_v.len() + 1) as int) =~= Seq::<u8>::empty());
        assert(s.skip(j2 + 1) =~= enc_tail + seq![0x7du8] + rest);
        assert(s.skip(j2 + 1) =~= enc_tail + (seq![0x7du8] + rest));
        lemma_byte_at(s, j2 + 1, enc_tail, seq![0x7du8] + rest, 0);
        assert(!is_ws(s[j2 + 1]));
        assert(spec_ws(s, j2 + 1) == j2 + 1);
        assert forall|k: int| 0 <= k < tail.len() implies jv_wf(#[trigger] tail[k].1) by {
            assert(tail[k] == ms[k + 1]);
        }
        lemma_members_round(s, j2 + 1, tail, rest);
        assert(seq![ms[0]] + tail =~= ms);
        assert(spec_parse_members(s, i) == Some((ms, i + inner.len() + 1)));
    }
}

/// Law: the codec round-trips.  The compact text the encoder produces
/// for any value the wire can carry parses back to that same value.
pub proof fn lemma_parse_encode_round_trip(v: Jv)
    requires
        jv_wf(v),
    ensures
        spec_parse_json(spec_encode(v)) == Some(v),
{
    let s = spec_encode(v);
    assert(s.skip(0) =~= spec_encode(v) + Seq::<u8>::empty());
    lemma_encode_head(v);
    lemma_byte_at(s, 0, spec_encode(v), Seq::empty(), 0);
    assert(spec_ws(s, 0) == 0);
    lemma_value_round(s, 0, v, Seq::empty());
    assert(spec_ws(s, s.len() as int) == s.len());
}

} // verus!
