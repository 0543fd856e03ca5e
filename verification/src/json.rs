//! The JSON document model.
//!
//! Card payloads are JSON texts, and unrecognized fields must survive a
//! decode/encode round trip, so the crate keeps a full JSON value type.
//! Numbers are kept as their literal token text: the card model itself only
//! ever reads integers out of them, and keeping the token makes
//! re-serialization lossless without any floating-point arithmetic.

use vstd::prelude::*;

verus! {

/// A JSON value. `Num` holds the number's source token (e.g. `-12`, `3.5e2`),
/// `Str` holds the decoded (unescaped) text, and `Obj` holds its members in
/// source order.
#[derive(Debug, PartialEq)]
pub enum Json {
    Null,
    Bool(bool),
    Num(String),
    Str(String),
    Arr(Vec<Json>),
    Obj(Vec<(String, Json)>),
}

/// The mathematical shape of a [`Json`] value: the same tree over `Seq`s.
pub enum JsonV {
    Null,
    Bool(bool),
    Num(Seq<char>),
    Str(Seq<char>),
    Arr(Seq<JsonV>),
    Obj(Seq<(Seq<char>, JsonV)>),
}

impl Json {
    /// The abstract value of this JSON tree.
    pub open spec fn jv(self) -> JsonV
        decreases self,
    {
        match self {
            Json::Null => JsonV::Null,
            Json::Bool(b) => JsonV::Bool(b),
            Json::Num(t) => JsonV::Num(t@),
            Json::Str(s) => JsonV::Str(s@),
            Json::Arr(items) => JsonV::Arr(
                Seq::new(
                    items@.len(),
                    |i: int|
                        if 0 <= i < items@.len() {
                            items@[i].jv()
                        } else {
                            JsonV::Null
                        },
                ),
            ),
            Json::Obj(pairs) => JsonV::Obj(
                Seq::new(
                    pairs@.len(),
                    |i: int|
                        if 0 <= i < pairs@.len() {
                            (pairs@[i].0@, pairs@[i].1.jv())
                        } else {
                            (Seq::<char>::empty(), JsonV::Null)
                        },
                ),
            ),
        }
    }
}

/// The abstract values of a sequence of JSON trees.
pub open spec fn views_of(items: Seq<Json>) -> Seq<JsonV> {
    Seq::new(
        items.len(),
        |i: int|
            if 0 <= i < items.len() {
                items[i].jv()
            } else {
                JsonV::Null
            },
    )
}

/// The abstract values of a sequence of JSON object members.
pub open spec fn pair_views_of(pairs: Seq<(String, Json)>) -> Seq<(Seq<char>, JsonV)> {
    Seq::new(
        pairs.len(),
        |i: int|
            if 0 <= i < pairs.len() {
                (pairs[i].0@, pairs[i].1.jv())
            } else {
                (Seq::<char>::empty(), JsonV::Null)
            },
    )
}

/// Pushing onto a sequence pushes its abstract value.
pub proof fn lemma_views_push(items: Seq<Json>, x: Json)
    ensures
        views_of(items.push(x)) == views_of(items).push(x.jv()),
{
    let a = views_of(items.push(x));
    let b = views_of(items).push(x.jv());
    assert forall|q: int| 0 <= q < a.len() implies a[q] == b[q] by {
        if q < items.len() {
            assert(items.push(x)[q] == items[q]);
            assert(views_of(items)[q] == items[q].jv());
        } else {
            assert(items.push(x)[q] == x);
        }
    }
    assert(a =~= b);
}

/// Pushing a member onto a sequence pushes its abstract pair.
pub proof fn lemma_pair_views_push(ps: Seq<(String, Json)>, p: (String, Json))
    ensures
        pair_views_of(ps.push(p)) == pair_views_of(ps).push((p.0@, p.1.jv())),
{
    let a = pair_views_of(ps.push(p));
    let b = pair_views_of(ps).push((p.0@, p.1.jv()));
    assert forall|q: int| 0 <= q < a.len() implies a[q] == b[q] by {
        if q < ps.len() {
            assert(ps.push(p)[q] == ps[q]);
            assert(pair_views_of(ps)[q] == (ps[q].0@, ps[q].1.jv()));
        } else {
            assert(ps.push(p)[q] == p);
        }
    }
    assert(a =~= b);
}

impl View for Json {
    type V = JsonV;

    open spec fn view(&self) -> JsonV {
        self.jv()
    }
}

/// Deep clone of a JSON tree, proved to keep the abstract value.
#[verifier::loop_isolation(false)]
pub fn clone_json(j: &Json) -> (r: Json)
    ensures
        r@ == j@,
    decreases *j,
{
    match j {
        Json::Null => Json::Null,
        Json::Bool(b) => Json::Bool(*b),
        Json::Num(t) => Json::Num(t.clone()),
        Json::Str(s) => Json::Str(s.clone()),
        Json::Arr(items) => {
            let mut out: Vec<Json> = Vec::new();
            let mut i: usize = 0;
            while i < items.len()
                invariant
                    i <= items.len(),
                    out@.len() == i as int,
                    forall|k: int| 0 <= k < i as int ==> out@[k].jv() == items@[k].jv(),
                decreases items.len() - i,
            {
                proof {
                    assert(decreases_to!(*j => j->Arr_0@[i as int]));
                }
                let c = clone_json(&items[i]);
                out.push(c);
                i = i + 1;
            }
            let r = Json::Arr(out);
            proof {
                assert(r.jv() is Arr);
                assert(r.jv()->Arr_0 =~= j.jv()->Arr_0);
                assert(r.jv() =~= j.jv());
            }
            r
        },
        Json::Obj(pairs) => {
            let mut out: Vec<(String, Json)> = Vec::new();
            let mut i: usize = 0;
            while i < pairs.len()
                invariant
                    i <= pairs.len(),
                    out@.len() == i as int,
                    forall|k: int|
                        0 <= k < i as int ==> out@[k].0@ == pairs@[k].0@ && out@[k].1.jv()
                            == pairs@[k].1.jv(),
                decreases pairs.len() - i,
            {
                proof {
                    assert(decreases_to!(*j => j->Obj_0@[i as int].1));
                }
                let key = pairs[i].0.clone();
                let val = clone_json(&pairs[i].1);
                out.push((key, val));
                i = i + 1;
            }
            let r = Json::Obj(out);
            proof {
                assert(r.jv()->Obj_0 =~= j.jv()->Obj_0);
                assert(r.jv() =~= j.jv());
            }
            r
        },
    }
}

} // verus!
