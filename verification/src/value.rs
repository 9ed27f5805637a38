use vstd::prelude::*;
use crate::assoc::{spec_lookup, lemma_lookup_at, lemma_lookup_none, unique_keys};

verus! {

/// Mathematical model of a structured API value: a JSON-like tree of
/// scalars, ordered arrays, and ordered key/value objects.
pub enum SpecJson {
    Null,
    Bool(bool),
    Num(int),
    Text(Seq<char>),
    Arr(Seq<SpecJson>),
    Obj(Seq<(Seq<char>, SpecJson)>),
}

/// A structured API value, both the payload of a single response and the
/// accumulator into which successive pages are merged. Numbers are carried
/// as 64-bit signed integers. Object entries keep their order of insertion.
#[derive(Debug, PartialEq)]
pub enum JsonValue {
    Null,
    Bool(bool),
    Num(i64),
    Text(String),
    Arr(Vec<JsonValue>),
    Obj(Vec<(String, JsonValue)>),
}

pub open spec fn model(v: JsonValue) -> SpecJson
    decreases v,
{
    match v {
        JsonValue::Null => SpecJson::Null,
        JsonValue::Bool(b) => SpecJson::Bool(b),
        JsonValue::Num(n) => SpecJson::Num(n as int),
        JsonValue::Text(s) => SpecJson::Text(s@),
        JsonValue::Arr(items) => SpecJson::Arr(model_seq(items@)),
        JsonValue::Obj(entries) => SpecJson::Obj(model_entries(entries@)),
    }
}

pub open spec fn model_seq(items: Seq<JsonValue>) -> Seq<SpecJson>
    decreases items,
{
    if items.len() == 0 {
        Seq::empty()
    } else {
        seq![model(items[0])] + model_seq(items.subrange(1, items.len() as int))
    }
}

pub open spec fn model_entries(entries: Seq<(String, JsonValue)>) -> Seq<(Seq<char>, SpecJson)>
    decreases entries,
{
    if entries.len() == 0 {
        Seq::empty()
    } else {
        seq![(entries[0].0@, model(entries[0].1))]
            + model_entries(entries.subrange(1, entries.len() as int))
    }
}

impl View for JsonValue {
    type V = SpecJson;

    open spec fn view(&self) -> SpecJson {
        model(*self)
    }
}

/// `model_seq` is the element-wise model of the sequence.
pub proof fn lemma_model_seq(items: Seq<JsonValue>)
    ensures
        model_seq(items).len() == items.len(),
        forall|i: int| 0 <= i < items.len() ==> model_seq(items)[i] == model(items[i]),
    decreases items.len(),
{
    if items.len() > 0 {
        lemma_model_seq(items.subrange(1, items.len() as int));
    }
}

/// `model_entries` models each entry as its key's characters paired with
/// the model of its value.
pub proof fn lemma_model_entries(entries: Seq<(String, JsonValue)>)
    ensures
        model_entries(entries).len() == entries.len(),
        forall|i: int| 0 <= i < entries.len() ==> model_entries(entries)[i] == (
            entries[i].0@,
            model(entries[i].1),
        ),
    decreases entries.len(),
{
    if entries.len() > 0 {
        lemma_model_entries(entries.subrange(1, entries.len() as int));
    }
}

/// A valid tree: no object anywhere in it holds two entries of one key.
pub open spec fn wf_json(v: SpecJson) -> bool
    decreases v, 0int,
{
    match v {
        SpecJson::Obj(es) => unique_keys(es) && wf_entries(es, 0),
        SpecJson::Arr(items) => wf_items(items, 0),
        _ => true,
    }
}

/// Validity of every entry value from index `i` on.
pub open spec fn wf_entries(es: Seq<(Seq<char>, SpecJson)>, i: int) -> bool
    decreases es, es.len() - i,
{
    if i < 0 || i >= es.len() {
        true
    } else {
        wf_json(es[i].1) && wf_entries(es, i + 1)
    }
}

/// Validity of every element from index `i` on.
pub open spec fn wf_items(items: Seq<SpecJson>, i: int) -> bool
    decreases items, items.len() - i,
{
    if i < 0 || i >= items.len() {
        true
    } else {
        wf_json(items[i]) && wf_items(items, i + 1)
    }
}

/// Looks a key up in the model of a value: `None` unless the value is an
/// object holding the key.
pub open spec fn spec_get(v: SpecJson, k: Seq<char>) -> Option<SpecJson> {
    match v {
        SpecJson::Obj(es) => spec_lookup(es, k),
        _ => Option::None,
    }
}

/// Index of the first entry whose key equals `k`, if any.
pub fn find_key(entries: &Vec<(String, JsonValue)>, k: &String) -> (r: Option<usize>)
    ensures
        match r {
            Option::Some(i) => i < entries@.len() && entries@[i as int].0@ == k@ && (forall|j: int|
                0 <= j < i ==> entries@[j].0@ != k@),
            Option::None => forall|j: int| 0 <= j < entries@.len() ==> entries@[j].0@ != k@,
        },
{
    let mut i: usize = 0;
    while i < entries.len()
        invariant
            i <= entries@.len(),
            forall|j: int| 0 <= j < i ==> entries@[j].0@ != k@,
        decreases entries@.len() - i,
    {
        if entries[i].0 == *k {
            return Option::Some(i);
        }
        i = i + 1;
    }
    Option::None
}

/// Borrows the value stored under `k` when `v` is an object that holds the
/// key; `None` for any other shape or a missing key.
pub fn get_key<'a>(v: &'a JsonValue, k: &String) -> (r: Option<&'a JsonValue>)
    ensures
        match r {
            Option::Some(c) => spec_get(v@, k@) == Option::Some(c@),
            Option::None => spec_get(v@, k@) is None,
        },
{
    match v {
        JsonValue::Obj(entries) => {
            proof {
                lemma_model_entries(entries@);
            }
            match find_key(entries, k) {
                Option::Some(i) => {
                    proof {
                        lemma_lookup_at(model_entries(entries@), k@, i as int);
                    }
                    Option::Some(&entries[i].1)
                },
                Option::None => {
                    proof {
                        lemma_lookup_none(model_entries(entries@), k@);
                    }
                    Option::None
                },
            }
        },
        _ => Option::None,
    }
}

/// Structural copy of a value; the copy has the same model.
pub fn clone_value(v: &JsonValue) -> (r: JsonValue)
    ensures
        r@ == v@,
    decreases *v,
{
    match v {
        JsonValue::Null => JsonValue::Null,
        JsonValue::Bool(b) => JsonValue::Bool(*b),
        JsonValue::Num(n) => JsonValue::Num(*n),
        JsonValue::Text(s) => JsonValue::Text(s.clone()),
        JsonValue::Arr(items) => {
            let mut out: Vec<JsonValue> = Vec::new();
            let mut i: usize = 0;
            while i < items.len()
                invariant
                    *v is Arr && (*v)->Arr_0 == *items,
                    i <= items@.len(),
                    out@.len() == i as int,
                    forall|j: int| 0 <= j < i ==> model(out@[j]) == model(items@[j]),
                decreases items@.len() - i,
            {
                proof {
                    assert(decreases_to!(*v => (*v)->Arr_0));
                    assert(decreases_to!(*items => items@));
                    assert(decreases_to!(items@ => items@[i as int]));
                }
                let c = clone_value(&items[i]);
                out.push(c);
                i = i + 1;
            }
            proof {
                lemma_model_seq(out@);
                lemma_model_seq(items@);
                assert(model_seq(out@) =~= model_seq(items@));
            }
            JsonValue::Arr(out)
        },
        JsonValue::Obj(entries) => {
            let mut out: Vec<(String, JsonValue)> = Vec::new();
            let mut i: usize = 0;
            while i < entries.len()
                invariant
                    *v is Obj && (*v)->Obj_0 == *entries,
                    i <= entries@.len(),
                    out@.len() == i as int,
                    forall|j: int| 0 <= j < i ==> out@[j].0@ == entries@[j].0@ && model(
                        out@[j].1,
                    ) == model(entries@[j].1),
                decreases entries@.len() - i,
            {
                proof {
                    assert(decreases_to!(*v => (*v)->Obj_0));
                    assert(decreases_to!(*entries => entries@));
                    assert(decreases_to!(entries@ => entries@[i as int]));
                    assert(decreases_to!(entries@[i as int] => entries@[i as int].1));
                }
                let ks = entries[i].0.clone();
                let c = clone_value(&entries[i].1);
                out.push((ks, c));
                i = i + 1;
            }
            proof {
                lemma_model_entries(out@);
                lemma_model_entries(entries@);
                assert(model_entries(out@) =~= model_entries(entries@));
            }
            JsonValue::Obj(out)
        },
    }
}

} // verus!
