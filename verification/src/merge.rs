use vstd::prelude::*;
use crate::value::{JsonValue, SpecJson, model, model_seq, model_entries, lemma_model_seq,
    lemma_model_entries, find_key};
use crate::assoc::{spec_lookup, spec_set, lemma_lookup_at, lemma_lookup_none, lemma_set_at,
    lemma_set_none};

verus! {

/// Deep merge of two structured values.
///
/// Two objects merge entry by entry: every entry of `b` is folded into `a`,
/// recursively merging values that share a key (a key absent from `a` starts
/// from a `Null` placeholder, so the incoming value replaces it). Two arrays
/// concatenate. In every other case the incoming value replaces the target.
pub open spec fn spec_merge(a: SpecJson, b: SpecJson) -> SpecJson
    decreases b, 0int,
{
    match (a, b) {
        (SpecJson::Obj(ae), SpecJson::Obj(be)) => SpecJson::Obj(spec_merge_entries(ae, be, 0)),
        (SpecJson::Arr(aa), SpecJson::Arr(ba)) => SpecJson::Arr(aa + ba),
        (_, incoming) => incoming,
    }
}

/// Folds the entries of `be` from index `i` on into the object entries `ae`.
pub open spec fn spec_merge_entries(
    ae: Seq<(Seq<char>, SpecJson)>,
    be: Seq<(Seq<char>, SpecJson)>,
    i: int,
) -> Seq<(Seq<char>, SpecJson)>
    decreases be, be.len() - i,
{
    if i < 0 || i >= be.len() {
        ae
    } else {
        let k = be[i].0;
        let v = be[i].1;
        let merged = match spec_lookup(ae, k) {
            Option::Some(prior) => spec_merge(prior, v),
            Option::None => v,
        };
        spec_merge_entries(spec_set(ae, k, merged), be, i + 1)
    }
}

/// Merging into an array concatenates, in order, without deduplication.
pub proof fn lemma_merge_concatenates(a: Seq<SpecJson>, b: Seq<SpecJson>)
    ensures
        spec_merge(SpecJson::Arr(a), SpecJson::Arr(b)) == SpecJson::Arr(a + b),
        spec_merge(SpecJson::Arr(a), SpecJson::Arr(b))->Arr_0.len() == a.len() + b.len(),
{
}

/// On any pair that is not object-with-object or array-with-array, the
/// incoming value replaces the target entirely, whatever the target was.
pub proof fn lemma_merge_replaces(a: SpecJson, b: SpecJson)
    requires
        !(a is Obj && b is Obj),
        !(a is Arr && b is Arr),
    ensures
        spec_merge(a, b) == b,
{
}

/// Deep merge, consuming both operands.
#[verifier::loop_isolation(false)]
pub fn merge_owned(a: JsonValue, b: JsonValue) -> (r: JsonValue)
    ensures
        r@ == spec_merge(a@, b@),
    decreases b,
{
    let ghost b0 = b;
    match (a, b) {
        (JsonValue::Obj(ae), JsonValue::Obj(be)) => {
            let ghost ae0 = model_entries(ae@);
            let ghost bseq = be@;
            let ghost be0 = model_entries(be@);
            proof {
                lemma_model_entries(bseq);
            }
            let mut acc = ae;
            let mut rest = be;
            let ghost mut j: int = 0;
            while rest.len() > 0
                invariant
                    0 <= j <= bseq.len(),
                    rest@ == bseq.subrange(j, bseq.len() as int),
                    be0 == model_entries(bseq),
                    be0.len() == bseq.len(),
                    forall|t: int| 0 <= t < bseq.len() ==> be0[t] == (
                        bseq[t].0@,
                        model(bseq[t].1),
                    ),
                    spec_merge_entries(ae0, be0, 0) == spec_merge_entries(
                        model_entries(acc@),
                        be0,
                        j,
                    ),
                    b0 is Obj && (b0->Obj_0)@ == bseq,
                decreases rest@.len(),
            {
                let kv = rest.remove(0);
                let ghost k_str = kv.0;
                let ghost kk = kv.0@;
                let ghost vv = model(kv.1);
                proof {
                    assert(kv == bseq[j]);
                }
                let ghost acc_old = acc@;
                let ghost me_old = model_entries(acc@);
                proof {
                    lemma_model_entries(acc_old);
                }
                let found = find_key(&acc, &kv.0);
                match found {
                    Option::Some(i) => {
                        let old_pair = acc.remove(i);
                        proof {
                            assert(old_pair == acc_old[i as int]);
                            assert(me_old[i as int] == (kk, model(old_pair.1)));
                            lemma_lookup_at(me_old, kk, i as int);
                            assert(decreases_to!(b0 => b0->Obj_0));
                            assert(decreases_to!(b0->Obj_0 => (b0->Obj_0)@));
                            assert(decreases_to!(bseq => bseq[j]));
                            assert(decreases_to!(bseq[j] => bseq[j].1));
                            assert(kv.1 == bseq[j].1);
                            assert(decreases_to!(b0 => kv.1));
                        }
                        let merged = merge_owned(old_pair.1, kv.1);
                        let ghost mm = model(merged);
                        acc.insert(i, (kv.0, merged));
                        proof {
                            assert(acc@ =~= acc_old.update(i as int, (k_str, merged)));
                            lemma_model_entries(acc@);
                            assert(model_entries(acc@) =~= me_old.update(i as int, (kk, mm)));
                            lemma_set_at(me_old, kk, mm, i as int);
                            assert(model_entries(acc@) == spec_set(me_old, kk, mm));
                        }
                    },
                    Option::None => {
                        proof {
                            lemma_lookup_none(me_old, kk);
                        }
                        acc.push((kv.0, kv.1));
                        proof {
                            lemma_model_entries(acc@);
                            assert(model_entries(acc@) =~= me_old.push((kk, vv)));
                            lemma_set_none(me_old, kk, vv);
                            assert(model_entries(acc@) == spec_set(me_old, kk, vv));
                        }
                    },
                }
                proof {
                    assert(spec_merge_entries(me_old, be0, j) == spec_merge_entries(
                        model_entries(acc@),
                        be0,
                        j + 1,
                    ));
                    j = j + 1;
                    assert(rest@ =~= bseq.subrange(j, bseq.len() as int));
                }
            }
            proof {
                assert(j == bseq.len());
                assert(spec_merge_entries(model_entries(acc@), be0, j) == model_entries(acc@));
            }
            JsonValue::Obj(acc)
        },
        (JsonValue::Arr(aa), JsonValue::Arr(ba)) => {
            let mut aa = aa;
            let mut ba = ba;
            let ghost aas = aa@;
            let ghost bas = ba@;
            aa.append(&mut ba);
            proof {
                lemma_model_seq(aas);
                lemma_model_seq(bas);
                lemma_model_seq(aa@);
                assert(model_seq(aa@) =~= model_seq(aas) + model_seq(bas));
            }
            JsonValue::Arr(aa)
        },
        (_, incoming) => incoming,
    }
}

/// Deep merge in place: folds `incoming` into `target`.
pub fn merge(target: &mut JsonValue, incoming: JsonValue)
    ensures
        (*final(target))@ == spec_merge((*old(target))@, incoming@),
{
    let mut tmp = JsonValue::Null;
    core::mem::swap(target, &mut tmp);
    let merged = merge_owned(tmp, incoming);
    *target = merged;
}

} // verus!
