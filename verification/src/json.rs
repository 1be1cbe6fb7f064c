//! A JSON document model.
//!
//! Numbers are fixed-point: `Num(n)` stands for `n / 1_000_000`, so `3` on
//! the wire is `Num(3_000_000)` and `0.475` is `Num(475_000)`.  This keeps
//! the model exact; values with more than six fractional digits, or an
//! integer part beyond the fixed-point range, are rejected by the parser.
//! Objects keep their pairs in order; canonicalization sorts keys.

use vstd::prelude::*;

verus! {

broadcast use vstd::std_specs::vec::group_vec_axioms;

/// One JSON value.
#[derive(Debug)]
pub enum JsonValue {
    /// `null`.
    Null,
    /// `true` or `false`.
    Bool(bool),
    /// A number, in millionths: `Num(1_500_000)` is `1.5` on the wire.
    Num(i64),
    /// A string.
    Str(String),
    /// An array, in order.
    Arr(Vec<JsonValue>),
    /// An object: key/value pairs, in order.
    Obj(Vec<(String, JsonValue)>),
}

/// The mathematical model of a JSON value.
pub enum JsonV {
    Null,
    Bool(bool),
    Num(i64),
    Str(Seq<char>),
    Arr(Seq<JsonV>),
    Obj(Seq<(Seq<char>, JsonV)>),
}

/// The model of a JSON value.
pub open spec fn json_view(v: JsonValue) -> JsonV
    decreases v, 0int,
{
    match v {
        JsonValue::Null => JsonV::Null,
        JsonValue::Bool(b) => JsonV::Bool(b),
        JsonValue::Num(n) => JsonV::Num(n),
        JsonValue::Str(s) => JsonV::Str(s@),
        JsonValue::Arr(items) => JsonV::Arr(json_view_arr(items@, 0)),
        JsonValue::Obj(pairs) => JsonV::Obj(json_view_obj(pairs@, 0)),
    }
}

/// The models of the elements of `items` from position `i` on.
pub open spec fn json_view_arr(items: Seq<JsonValue>, i: int) -> Seq<JsonV>
    decreases items, 1int, items.len() - i,
{
    if i < 0 || i >= items.len() {
        Seq::empty()
    } else {
        seq![json_view(items[i])] + json_view_arr(items, i + 1)
    }
}

/// The models of the pairs of `pairs` from position `i` on.
pub open spec fn json_view_obj(pairs: Seq<(String, JsonValue)>, i: int) -> Seq<(Seq<char>, JsonV)>
    decreases pairs, 1int, pairs.len() - i,
{
    if i < 0 || i >= pairs.len() {
        Seq::empty()
    } else {
        seq![(pairs[i].0@, json_view(pairs[i].1))] + json_view_obj(pairs, i + 1)
    }
}

impl View for JsonValue {
    type V = JsonV;

    open spec fn view(&self) -> JsonV {
        json_view(*self)
    }
}

/// `json_view_arr` keeps the length.
pub proof fn lemma_json_view_arr_len(items: Seq<JsonValue>, i: int)
    requires
        0 <= i <= items.len(),
    ensures
        json_view_arr(items, i).len() == items.len() - i,
    decreases items.len() - i,
{
    if i < items.len() {
        lemma_json_view_arr_len(items, i + 1);
    }
}

/// The `j`th model in `json_view_arr(items, i)` is the model of element
/// `i + j`.
pub proof fn lemma_json_view_arr_index(items: Seq<JsonValue>, i: int, j: int)
    requires
        0 <= i <= j < items.len(),
    ensures
        json_view_arr(items, i).len() == items.len() - i,
        json_view_arr(items, i)[j - i] == json_view(items[j]),
    decreases j - i,
{
    lemma_json_view_arr_len(items, i);
    if i < j {
        lemma_json_view_arr_index(items, i + 1, j);
    }
}

/// `json_view_obj` keeps the length.
pub proof fn lemma_json_view_obj_len(pairs: Seq<(String, JsonValue)>, i: int)
    requires
        0 <= i <= pairs.len(),
    ensures
        json_view_obj(pairs, i).len() == pairs.len() - i,
    decreases pairs.len() - i,
{
    if i < pairs.len() {
        lemma_json_view_obj_len(pairs, i + 1);
    }
}

/// The `j`th model in `json_view_obj(pairs, i)` is the model of pair
/// `i + j`.
pub proof fn lemma_json_view_obj_index(pairs: Seq<(String, JsonValue)>, i: int, j: int)
    requires
        0 <= i <= j < pairs.len(),
    ensures
        json_view_obj(pairs, i).len() == pairs.len() - i,
        json_view_obj(pairs, i)[j - i] == (pairs[j].0@, json_view(pairs[j].1)),
    decreases j - i,
{
    lemma_json_view_obj_len(pairs, i);
    if i < j {
        lemma_json_view_obj_index(pairs, i + 1, j);
    }
}

/// Pushing a pair extends the member-model sequence by its model.
pub proof fn lemma_json_view_obj_push(pairs: Seq<(String, JsonValue)>, key: String, v: JsonValue)
    ensures
        json_view_obj(pairs.push((key, v)), 0) == json_view_obj(pairs, 0).push(
            (key@, json_view(v)),
        ),
{
    lemma_json_view_obj_len(pairs, 0);
    lemma_json_view_obj_len(pairs.push((key, v)), 0);
    assert forall|j: int| 0 <= j < pairs.len() + 1 implies json_view_obj(pairs.push((key, v)), 0)[j]
        == json_view_obj(pairs, 0).push((key@, json_view(v)))[j] by {
        lemma_json_view_obj_index(pairs.push((key, v)), 0, j);
        if j < pairs.len() {
            lemma_json_view_obj_index(pairs, 0, j);
            assert(pairs.push((key, v))[j] == pairs[j]);
        } else {
            assert(pairs.push((key, v))[j] == (key, v));
        }
    }
    assert(json_view_obj(pairs.push((key, v)), 0) =~= json_view_obj(pairs, 0).push(
        (key@, json_view(v)),
    ));
}

impl Clone for JsonValue {
    /// A deep copy with the same model as the original.
    fn clone(&self) -> (r: JsonValue)
        ensures
            r@ == self@,
        decreases *self,
    {
        match self {
            JsonValue::Null => JsonValue::Null,
            JsonValue::Bool(b) => JsonValue::Bool(*b),
            JsonValue::Num(n) => JsonValue::Num(*n),
            JsonValue::Str(s) => JsonValue::Str(s.clone()),
            JsonValue::Arr(items) => {
                let mut out: Vec<JsonValue> = Vec::new();
                let mut i: usize = 0;
                while i < items.len()
                    invariant
                        0 <= i <= items@.len(),
                        out@.len() == i,
                        forall|j: int| 0 <= j < i ==> (#[trigger] out@[j])@ == items@[j]@,
                        *self == JsonValue::Arr(*items),
                    decreases items@.len() - i,
                {
                    proof {
                        assert(decreases_to!(*self => self->Arr_0));
                        assert(self->Arr_0 == *items);
                        assert(decreases_to!(*items => items[i as int]));
                        assert(decreases_to!(*self => items[i as int]));
                    }
                    let item = &items[i];
                    let copy = item.clone();
                    out.push(copy);
                    i += 1;
                }
                proof {
                    lemma_json_view_arr_len(items@, 0);
                    lemma_json_view_arr_len(out@, 0);
                    assert forall|k: int| 0 <= k < out@.len() implies json_view_arr(out@, 0)[k]
                        == json_view_arr(items@, 0)[k] by {
                        lemma_json_view_arr_index(out@, 0, k);
                        lemma_json_view_arr_index(items@, 0, k);
                    }
                    assert(json_view_arr(out@, 0) =~= json_view_arr(items@, 0));
                }
                JsonValue::Arr(out)
            },
            JsonValue::Obj(pairs) => {
                let mut out: Vec<(String, JsonValue)> = Vec::new();
                let mut i: usize = 0;
                while i < pairs.len()
                    invariant
                        0 <= i <= pairs@.len(),
                        out@.len() == i,
                        forall|j: int| 0 <= j < i ==> (#[trigger] out@[j]).0@ == pairs@[j].0@
                            && out@[j].1@ == pairs@[j].1@,
                        *self == JsonValue::Obj(*pairs),
                    decreases pairs@.len() - i,
                {
                    proof {
                        assert(decreases_to!(*self => self->Obj_0));
                        assert(self->Obj_0 == *pairs);
                        assert(decreases_to!(*pairs => pairs[i as int]));
                        assert(decreases_to!(pairs[i as int] => pairs[i as int].1));
                        assert(decreases_to!(*self => pairs[i as int].1));
                    }
                    let key = pairs[i].0.clone();
                    let value = pairs[i].1.clone();
                    out.push((key, value));
                    i += 1;
                }
                proof {
                    lemma_json_view_obj_len(pairs@, 0);
                    lemma_json_view_obj_len(out@, 0);
                    assert forall|k: int| 0 <= k < out@.len() implies json_view_obj(out@, 0)[k]
                        == json_view_obj(pairs@, 0)[k] by {
                        lemma_json_view_obj_index(out@, 0, k);
                        lemma_json_view_obj_index(pairs@, 0, k);
                    }
                    assert(json_view_obj(out@, 0) =~= json_view_obj(pairs@, 0));
                }
                JsonValue::Obj(out)
            },
        }
    }
}

} // verus!
