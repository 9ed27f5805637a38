use vstd::prelude::*;
use crate::assoc::{spec_set, lemma_set_at, lemma_set_none};

verus! {

/// Request parameters as an ordered list of `name=value` fields with the
/// characters of each side as the model.
pub open spec fn params_view(ps: Seq<(String, String)>) -> Seq<(Seq<char>, Seq<char>)> {
    ps.map_values(|p: (String, String)| (p.0@, p.1@))
}

/// Folds the fields of `extra` from index `i` on into `base`, each one
/// overriding or extending `base`.
pub open spec fn spec_set_all(
    base: Seq<(Seq<char>, Seq<char>)>,
    extra: Seq<(Seq<char>, Seq<char>)>,
    i: int,
) -> Seq<(Seq<char>, Seq<char>)>
    decreases extra.len() - i,
{
    if i < 0 || i >= extra.len() {
        base
    } else {
        spec_set_all(spec_set(base, extra[i].0, extra[i].1), extra, i + 1)
    }
}

/// Index of the first field named `k`, if any.
pub fn find_param(ps: &Vec<(String, String)>, k: &String) -> (r: Option<usize>)
    ensures
        match r {
            Option::Some(i) => i < ps@.len() && ps@[i as int].0@ == k@ && (forall|j: int|
                0 <= j < i ==> ps@[j].0@ != k@),
            Option::None => forall|j: int| 0 <= j < ps@.len() ==> ps@[j].0@ != k@,
        },
{
    let mut i: usize = 0;
    while i < ps.len()
        invariant
            i <= ps@.len(),
            forall|j: int| 0 <= j < i ==> ps@[j].0@ != k@,
        decreases ps@.len() - i,
    {
        if ps[i].0 == *k {
            return Option::Some(i);
        }
        i = i + 1;
    }
    Option::None
}

/// Sets field `k` to `v`: overwrites the first field so named, keeping its
/// position, or appends a new field.
pub fn set_param(ps: &mut Vec<(String, String)>, k: String, v: String)
    ensures
        params_view(final(ps)@) == spec_set(params_view(old(ps)@), k@, v@),
{
    let ghost before = ps@;
    let ghost pv = params_view(ps@);
    match find_param(ps, &k) {
        Option::Some(i) => {
            let _old = ps.remove(i);
            ps.insert(i, (k, v));
            proof {
                assert(ps@ =~= before.update(i as int, ps@[i as int]));
                lemma_set_at(pv, ps@[i as int].0@, ps@[i as int].1@, i as int);
                assert(params_view(ps@) =~= spec_set(pv, ps@[i as int].0@, ps@[i as int].1@));
            }
        },
        Option::None => {
            ps.push((k, v));
            proof {
                lemma_set_none(pv, ps@[ps@.len() - 1].0@, ps@[ps@.len() - 1].1@);
                assert(params_view(ps@) =~= pv.push(
                    (ps@[ps@.len() - 1].0@, ps@[ps@.len() - 1].1@),
                ));
            }
        },
    }
}

/// Copy of a parameter list.
pub fn clone_params(ps: &Vec<(String, String)>) -> (r: Vec<(String, String)>)
    ensures
        r@ == ps@,
{
    let mut out: Vec<(String, String)> = Vec::new();
    let mut i: usize = 0;
    while i < ps.len()
        invariant
            i <= ps@.len(),
            out@.len() == i as int,
            forall|j: int| 0 <= j < i ==> out@[j] == ps@[j],
        decreases ps@.len() - i,
    {
        let n = ps[i].0.clone();
        let v = ps[i].1.clone();
        out.push((n, v));
        i = i + 1;
    }
    proof {
        assert(out@ =~= ps@);
    }
    out
}

/// `base` extended, in order, by every field of `extra`; `extra` fields
/// override same-named `base` fields.
pub fn merged_params(base: &Vec<(String, String)>, extra: &Vec<(String, String)>) -> (r: Vec<
    (String, String),
>)
    ensures
        params_view(r@) == spec_set_all(params_view(base@), params_view(extra@), 0),
{
    let ghost ev = params_view(extra@);
    let mut out = clone_params(base);
    let mut i: usize = 0;
    while i < extra.len()
        invariant
            i <= extra@.len(),
            ev == params_view(extra@),
            ev.len() == extra@.len(),
            spec_set_all(params_view(base@), ev, 0) == spec_set_all(params_view(out@), ev, i as int),
        decreases extra@.len() - i,
    {
        let n = extra[i].0.clone();
        let v = extra[i].1.clone();
        let ghost before = params_view(out@);
        set_param(&mut out, n, v);
        proof {
            assert(ev[i as int] == (extra@[i as int].0@, extra@[i as int].1@));
            assert(spec_set_all(before, ev, i as int) == spec_set_all(
                params_view(out@),
                ev,
                i + 1,
            ));
        }
        i = i + 1;
    }
    out
}

/// Forces the structured-response format field, overriding any caller
/// value for it: every request carries `format=json`.
pub fn insert_format_json(ps: &mut Vec<(String, String)>)
    ensures
        params_view(final(ps)@) == spec_set(params_view(old(ps)@), "format"@, "json"@),
{
    set_param(ps, "format".to_owned(), "json".to_owned());
}

} // verus!
