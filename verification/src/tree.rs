//! The query tree and its serialization to the wire's nested-array
//! JSON encoding.
//!
//! A query is an operator code applied to ordered child trees, or a
//! literal value.  On the wire an operator node is a JSON array whose
//! first element is the code; a literal array must therefore be wrapped
//! in the reserved `MAKE_ARRAY` operator, or it could not be told apart
//! from a nested sub-query.

use vstd::prelude::*;
use vstd::slice::slice_to_vec;
use vstd::string::StringSliceAdditionalSpecFns;
use crate::json::{Json, Jv, json_view, clone_bytes};

verus! {

broadcast use vstd::std_specs::vec::group_vec_axioms;

/// The reserved operator code that marks a literal array on the wire.
pub const MAKE_ARRAY: u32 = 2;

/// The operator code of the create-database command.
pub const DB_CREATE: u32 = 57;

/// A query tree: an operator applied to ordered children, or a literal.
pub enum Tree {
    Query { head: u32, tail: Vec<Tree> },
    Datum(Json),
}

/// The mathematical counterpart of `Tree`.
#[verifier::ext_equal]
pub enum Tv {
    Query(u32, Seq<Tv>),
    Datum(Jv),
}

pub open spec fn tree_view(t: Tree) -> Tv
    decreases t,
{
    match t {
        Tree::Query { head, tail } => Tv::Query(
            head,
            Seq::new(
                tail@.len(),
                |i: int|
                    if 0 <= i < tail@.len() {
                        tree_view(tail@[i])
                    } else {
                        Tv::Datum(Jv::Null)
                    },
            ),
        ),
        Tree::Datum(j) => Tv::Datum(json_view(j)),
    }
}

impl View for Tree {
    type V = Tv;

    open spec fn view(&self) -> Tv {
        tree_view(*self)
    }
}

/// How a literal value appears on the wire: arrays are wrapped in the
/// `MAKE_ARRAY` escape, element by element; everything else is emitted
/// unchanged.
pub open spec fn spec_datum_to_json(j: Jv) -> Jv
    decreases j,
{
    match j {
        Jv::Arr(es) => Jv::Arr(
            seq![
                Jv::Int(MAKE_ARRAY as int),
                Jv::Arr(
                    Seq::new(
                        es.len(),
                        |i: int|
                            if 0 <= i < es.len() {
                                spec_datum_to_json(es[i])
                            } else {
                                Jv::Null
                            },
                    ),
                ),
            ],
        ),
        _ => j,
    }
}

/// The wire JSON of a query tree: an operator node is the array of its
/// code followed by its serialized children, in order; a literal goes
/// through the array escape.
pub open spec fn spec_tree_to_json(t: Tv) -> Jv
    decreases t,
{
    match t {
        Tv::Query(head, ts) => Jv::Arr(
            seq![Jv::Int(head as int)] + Seq::new(
                ts.len(),
                |i: int|
                    if 0 <= i < ts.len() {
                        spec_tree_to_json(ts[i])
                    } else {
                        Jv::Null
                    },
            ),
        ),
        Tv::Datum(j) => spec_datum_to_json(j),
    }
}

/// A deep copy with the same view.
#[verifier::loop_isolation(false)]
pub fn clone_json(j: &Json) -> (r: Json)
    ensures
        r@ == j@,
    decreases *j,
{
    match j {
        Json::Null => Json::Null,
        Json::Bool(b) => Json::Bool(*b),
        Json::I64(i) => Json::I64(*i),
        Json::Num(s) => Json::Num(clone_bytes(s)),
        Json::Str(s) => Json::Str(clone_bytes(s)),
        Json::Arr(es) => {
            let mut out: Vec<Json> = Vec::new();
            let mut i: usize = 0;
            while i < es.len()
                invariant
                    *j == Json::Arr(*es),
                    i <= es@.len(),
                    out@.len() == i,
                    forall|k: int| 0 <= k < i ==> out@[k]@ == es@[k]@,
                decreases es@.len() - i,
            {
                proof {
                    assert(*j == Json::Arr(*es));
                    assert(decreases_to!(Json::Arr(*es) => *es));
                    assert(decreases_to!(*es => es@[i as int]));
                }
                let e = clone_json(&es[i]);
                out.push(e);
                i = i + 1;
            }
            proof {
                let a = json_view(Json::Arr(out));
                let b = json_view(*j);
                assert forall|k: int| 0 <= k < out@.len() implies a->Arr_0[k] == b->Arr_0[k] by {
                    assert(out@[k]@ == es@[k]@);
                }
                assert(a->Arr_0 =~= b->Arr_0);
                assert(a == b);
            }
            Json::Arr(out)
        },
        Json::Obj(ms) => {
            let mut out: Vec<(Vec<u8>, Json)> = Vec::new();
            let mut i: usize = 0;
            while i < ms.len()
                invariant
                    *j == Json::Obj(*ms),
                    i <= ms@.len(),
                    out@.len() == i,
                    forall|k: int|
                        0 <= k < i ==> out@[k].0@ == ms@[k].0@ && out@[k].1@ == ms@[k].1@,
                decreases ms@.len() - i,
            {
                proof {
                    assert(*j == Json::Obj(*ms));
                    assert(decreases_to!(Json::Obj(*ms) => *ms));
                    assert(decreases_to!(*ms => ms@[i as int]));
                    assert(decreases_to!(ms@[i as int] => ms@[i as int].1));
                }
                let k = clone_bytes(&ms[i].0);
                let v = clone_json(&ms[i].1);
                out.push((k, v));
                i = i + 1;
            }
            proof {
                let a = json_view(Json::Obj(out));
                let b = json_view(*j);
                assert forall|k: int| 0 <= k < out@.len() implies a->Obj_0[k] == b->Obj_0[k] by {
                    assert(out@[k].0@ == ms@[k].0@ && out@[k].1@ == ms@[k].1@);
                }
                assert(a->Obj_0 =~= b->Obj_0);
                assert(a == b);
            }
            Json::Obj(out)
        },
    }
}

#[verifier::loop_isolation(false)]
fn datum_to_json(j: &Json) -> (r: Json)
    ensures
        r@ == spec_datum_to_json(j@),
    decreases *j,
{
    match j {
        Json::Arr(es) => {
            let mut inner: Vec<Json> = Vec::new();
            let mut i: usize = 0;
            while i < es.len()
                invariant
                    *j == Json::Arr(*es),
                    i <= es@.len(),
                    inner@.len() == i,
                    forall|k: int|
                        0 <= k < i ==> inner@[k]@ == spec_datum_to_json(es@[k]@),
                decreases es@.len() - i,
            {
                proof {
                    assert(*j == Json::Arr(*es));
                    assert(decreases_to!(Json::Arr(*es) => *es));
                    assert(decreases_to!(*es => es@[i as int]));
                }
                let e = datum_to_json(&es[i]);
                inner.push(e);
                i = i + 1;
            }
            let ghost inner_seq = inner@;
            let mut pair: Vec<Json> = Vec::new();
            pair.push(Json::I64(MAKE_ARRAY as i64));
            pair.push(Json::Arr(inner));
            let r = Json::Arr(pair);
            proof {
                reveal_with_fuel(json_view, 4);
                let es_v = j@->Arr_0;
                let inner_s = Seq::new(
                    es_v.len(),
                    |i: int|
                        if 0 <= i < es_v.len() {
                            spec_datum_to_json(es_v[i])
                        } else {
                            Jv::Null
                        },
                );
                assert(r@->Arr_0.len() == 2);
                assert(r@->Arr_0[0] == Jv::Int(MAKE_ARRAY as int));
                assert forall|k: int|
                    0 <= k < inner_seq.len() implies r@->Arr_0[1]->Arr_0[k] == inner_s[k] by {
                    assert(inner_seq[k]@ == spec_datum_to_json(es@[k]@));
                    assert(es_v[k] == json_view(es@[k]));
                }
                assert(r@->Arr_0[1]->Arr_0 =~= inner_s);
                assert(r@->Arr_0[1] is Arr);
                assert(r@->Arr_0[1] == Jv::Arr(inner_s));
                let t = spec_datum_to_json(j@);
                assert(t->Arr_0.len() == 2);
                assert(t->Arr_0[0] == Jv::Int(MAKE_ARRAY as int));
                assert(t->Arr_0[1]->Arr_0 =~= inner_s);
                assert(t->Arr_0[1] is Arr);
                assert(t->Arr_0[1] == Jv::Arr(inner_s));
                assert(t->Arr_0 =~= r@->Arr_0);
                assert(r@ == t);
            }
            r
        },
        _ => clone_json(j),
    }
}

impl Tree {
    /// Serializes the tree to its wire JSON value.  Total: every tree
    /// has exactly one serialization and there is no failure path.
    #[verifier::loop_isolation(false)]
    pub fn to_json(&self) -> (r: Json)
        ensures
            r@ == spec_tree_to_json(self@),
        decreases *self,
    {
        match self {
            Tree::Query { head, tail } => {
                let mut out: Vec<Json> = Vec::new();
                out.push(Json::I64(*head as i64));
                let mut i: usize = 0;
                while i < tail.len()
                    invariant
                        *self == (Tree::Query { head: *head, tail: *tail }),
                        i <= tail@.len(),
                        out@.len() == i + 1,
                        out@[0]@ == Jv::Int(*head as int),
                        forall|k: int|
                            0 <= k < i ==> out@[k + 1]@ == spec_tree_to_json(tail@[k]@),
                    decreases tail@.len() - i,
                {
                    proof {
                        let ghost q = Tree::Query { head: *head, tail: *tail };
                        assert(*self == q);
                        assert(decreases_to!(q => *tail));
                        assert(decreases_to!(*tail => tail@[i as int]));
                    }
                    let e = tail[i].to_json();
                    out.push(e);
                    i = i + 1;
                }
                let ghost out_seq = out@;
                let r = Json::Arr(out);
                proof {
                    let ts = self@->Query_1;
                    let target = spec_tree_to_json(self@);
                    assert(target->Arr_0.len() == 1 + ts.len());
                    assert(r@->Arr_0.len() == out_seq.len());
                    assert forall|k: int|
                        0 <= k < out_seq.len() implies r@->Arr_0[k] == target->Arr_0[k] by {
                        assert(r@->Arr_0[k] == json_view(out_seq[k]));
                        if k == 0 {
                            assert(out_seq[0]@ == Jv::Int(*head as int));
                            assert(target->Arr_0[0] == Jv::Int(*head as int));
                        } else {
                            assert(out_seq[k]@ == spec_tree_to_json(tail@[k - 1]@));
                            assert(target->Arr_0[k] == spec_tree_to_json(ts[k - 1]));
                            assert(ts[k - 1] == tail@[k - 1]@);
                        }
                    }
                    assert(r@->Arr_0 =~= target->Arr_0);
                    assert(r@ == target);
                }
                r
            },
            Tree::Datum(j) => datum_to_json(j),
        }
    }
}

/// The query tree of the create-database command: the operator applied
/// to the database name as its one literal argument.
pub fn db_create_tree(name: &str) -> (t: Tree)
    ensures
        t@ == Tv::Query(DB_CREATE, seq![Tv::Datum(Jv::Str(name.spec_bytes()))]),
{
    let mut tail: Vec<Tree> = Vec::new();
    tail.push(Tree::Datum(Json::Str(slice_to_vec(name.as_bytes()))));
    let t = Tree::Query { head: DB_CREATE, tail };
    proof {
        reveal_with_fuel(tree_view, 2);
        assert(t@->Query_1 =~= seq![Tv::Datum(Jv::Str(name.spec_bytes()))]);
        assert(t@ =~= Tv::Query(DB_CREATE, seq![Tv::Datum(Jv::Str(name.spec_bytes()))]));
    }
    t
}

/// Law: a literal that is not an array serializes to itself, unchanged.
pub proof fn lemma_literal_passthrough(v: Jv)
    requires
        !(v is Arr),
    ensures
        spec_tree_to_json(Tv::Datum(v)) == v,
{
}

/// Law: a literal array is never serialized as a bare array.  It always
/// becomes a two-element array: the `MAKE_ARRAY` code, then the array of
/// its elements, each serialized as a literal in order.
pub proof fn lemma_array_literal_escape(es: Seq<Jv>)
    ensures
        ({
            let r = spec_tree_to_json(Tv::Datum(Jv::Arr(es)));
            &&& r is Arr
            &&& r->Arr_0.len() == 2
            &&& r->Arr_0[0] == Jv::Int(MAKE_ARRAY as int)
            &&& r->Arr_0[1] is Arr
            &&& r->Arr_0[1]->Arr_0.len() == es.len()
            &&& forall|i: int|
                0 <= i < es.len() ==> r->Arr_0[1]->Arr_0[i] == spec_tree_to_json(
                    Tv::Datum(es[i]),
                )
        }),
{
}

/// Law: an operator node with code `c` and children `ts` serializes to
/// the array holding `c` first and then the serialization of each child,
/// in the children's order.
pub proof fn lemma_operator_node(c: u32, ts: Seq<Tv>)
    ensures
        ({
            let r = spec_tree_to_json(Tv::Query(c, ts));
            &&& r is Arr
            &&& r->Arr_0.len() == 1 + ts.len()
            &&& r->Arr_0[0] == Jv::Int(c as int)
            &&& forall|i: int|
                0 <= i < ts.len() ==> r->Arr_0[i + 1] == spec_tree_to_json(ts[i])
        }),
{
}

/// Law: child order is significant.  Swapping two children whose
/// serializations differ changes the serialization of the operator node.
pub proof fn lemma_operator_order_sensitive(c: u32, t1: Tv, t2: Tv)
    requires
        spec_tree_to_json(t1) != spec_tree_to_json(t2),
    ensures
        spec_tree_to_json(Tv::Query(c, seq![t1, t2])) != spec_tree_to_json(
            Tv::Query(c, seq![t2, t1]),
        ),
{
    let a = spec_tree_to_json(Tv::Query(c, seq![t1, t2]));
    let b = spec_tree_to_json(Tv::Query(c, seq![t2, t1]));
    lemma_operator_node(c, seq![t1, t2]);
    lemma_operator_node(c, seq![t2, t1]);
    assert(a->Arr_0[1] == spec_tree_to_json(t1));
    assert(b->Arr_0[1] == spec_tree_to_json(t2));
}

} // verus!
