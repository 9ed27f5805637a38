use vstd::prelude::*;
use crate::value::{SpecJson, wf_json, wf_entries, wf_items};
use crate::assoc::{spec_lookup, spec_lookup_from, spec_set, has_key, keys, keys_missing,
    unique_keys, lemma_set_lookup, lemma_set_unique, lemma_lookup_from_none, lemma_lookup_is_from,
    lemma_lookup_witness, lemma_first_match, lemma_set_at, lemma_set_none, lemma_assoc_ext};
use crate::merge::{spec_merge, spec_merge_entries};

verus! {

/// Two trees are aligned when, at the top and under every key the two
/// share, both are objects or both are arrays: the shapes on which a deep
/// merge never falls back to replacement.
pub open spec fn aligned(x: SpecJson, y: SpecJson) -> bool
    decreases y, 0int,
{
    match (x, y) {
        (SpecJson::Obj(xs), SpecJson::Obj(ys)) => aligned_entries(xs, ys, 0),
        (SpecJson::Arr(_), SpecJson::Arr(_)) => true,
        _ => false,
    }
}

/// Alignment of `xs` with every entry of `ys` from index `i` on that
/// shares its key with `xs`.
pub open spec fn aligned_entries(
    xs: Seq<(Seq<char>, SpecJson)>,
    ys: Seq<(Seq<char>, SpecJson)>,
    i: int,
) -> bool
    decreases ys, ys.len() - i,
{
    if i < 0 || i >= ys.len() {
        true
    } else {
        (match spec_lookup(xs, ys[i].0) {
            Option::Some(xv) => aligned(xv, ys[i].1),
            Option::None => true,
        }) && aligned_entries(xs, ys, i + 1)
    }
}

proof fn lemma_wf_at(es: Seq<(Seq<char>, SpecJson)>, i: int, j: int)
    requires
        wf_entries(es, i),
        0 <= i <= j < es.len(),
    ensures
        wf_json(es[j].1),
    decreases j - i,
{
    if i < j {
        lemma_wf_at(es, i + 1, j);
    }
}

proof fn lemma_aligned_at(
    xs: Seq<(Seq<char>, SpecJson)>,
    ys: Seq<(Seq<char>, SpecJson)>,
    i: int,
    j: int,
)
    requires
        aligned_entries(xs, ys, i),
        0 <= i <= j < ys.len(),
    ensures
        match spec_lookup(xs, ys[j].0) {
            Option::Some(xv) => aligned(xv, ys[j].1),
            Option::None => true,
        },
    decreases j - i,
{
    if i < j {
        lemma_aligned_at(xs, ys, i + 1, j);
    }
}

proof fn lemma_me_unique(
    ae: Seq<(Seq<char>, SpecJson)>,
    be: Seq<(Seq<char>, SpecJson)>,
    i: int,
)
    requires
        unique_keys(ae),
    ensures
        unique_keys(spec_merge_entries(ae, be, i)),
    decreases be.len() - i,
{
    if 0 <= i && i < be.len() {
        let k = be[i].0;
        let v = be[i].1;
        let merged = match spec_lookup(ae, k) {
            Option::Some(prior) => spec_merge(prior, v),
            Option::None => v,
        };
        lemma_set_unique(ae, k, merged);
        lemma_me_unique(spec_set(ae, k, merged), be, i + 1);
    }
}

proof fn lemma_me_lookup(
    ae: Seq<(Seq<char>, SpecJson)>,
    be: Seq<(Seq<char>, SpecJson)>,
    i: int,
    k: Seq<char>,
)
    requires
        unique_keys(be),
        0 <= i,
    ensures
        spec_lookup(spec_merge_entries(ae, be, i), k) == (match spec_lookup_from(be, k, i) {
            Option::Some(bv) => match spec_lookup(ae, k) {
                Option::Some(av) => Option::Some(spec_merge(av, bv)),
                Option::None => Option::Some(bv),
            },
            Option::None => spec_lookup(ae, k),
        }),
    decreases be.len() - i,
{
    if i >= be.len() {
    } else {
        let k0 = be[i].0;
        let v0 = be[i].1;
        let m0 = match spec_lookup(ae, k0) {
            Option::Some(prior) => spec_merge(prior, v0),
            Option::None => v0,
        };
        let ae2 = spec_set(ae, k0, m0);
        lemma_set_lookup(ae, k0, m0);
        lemma_me_lookup(ae2, be, i + 1, k);
        if k == k0 {
            assert(forall|j: int| i + 1 <= j < be.len() ==> be[j].0 != k0);
            lemma_lookup_from_none(be, k0, i + 1);
        }
    }
}

proof fn lemma_set_keys(ae: Seq<(Seq<char>, SpecJson)>, k: Seq<char>, v: SpecJson)
    ensures
        has_key(ae, k) ==> keys(spec_set(ae, k, v)) == keys(ae),
        !has_key(ae, k) ==> keys(spec_set(ae, k, v)) == keys(ae).push(k),
{
    if has_key(ae, k) {
        lemma_lookup_witness(ae, k);
        lemma_first_match(ae, k);
        let i = choose|i: int|
            0 <= i < ae.len() && ae[i].0 == k && (forall|j: int| 0 <= j < i ==> ae[j].0 != k);
        lemma_set_at(ae, k, v, i);
        assert(keys(spec_set(ae, k, v)) =~= keys(ae));
    } else {
        assert forall|j: int| 0 <= j < ae.len() implies ae[j].0 != k by {
            if ae[j].0 == k {
                lemma_first_match(ae, k);
                let i = choose|i: int|
                    0 <= i < ae.len() && ae[i].0 == k && (forall|t: int|
                        0 <= t < i ==> ae[t].0 != k);
                crate::assoc::lemma_lookup_at(ae, k, i);
            }
        }
        lemma_set_none(ae, k, v);
        assert(keys(spec_set(ae, k, v)) =~= keys(ae).push(k));
    }
}

proof fn lemma_missing_congr(
    ae1: Seq<(Seq<char>, SpecJson)>,
    ae2: Seq<(Seq<char>, SpecJson)>,
    ks: Seq<Seq<char>>,
    i: int,
)
    requires
        forall|j: int| i <= j < ks.len() ==> has_key(ae1, ks[j]) == has_key(ae2, ks[j]),
    ensures
        keys_missing(ae1, ks, i) == keys_missing(ae2, ks, i),
    decreases ks.len() - i,
{
    if 0 <= i && i < ks.len() {
        lemma_missing_congr(ae1, ae2, ks, i + 1);
    }
}

proof fn lemma_missing_shift(ae: Seq<(Seq<char>, SpecJson)>, ks: Seq<Seq<char>>, i: int)
    requires
        0 <= i <= ks.len(),
    ensures
        keys_missing(ae, ks, i) == keys_missing(ae, ks.subrange(i, ks.len() as int), 0),
    decreases ks.len() - i,
{
    if i < ks.len() {
        lemma_missing_shift(ae, ks, i + 1);
        let tail = ks.subrange(i, ks.len() as int);
        assert(tail.subrange(1, tail.len() as int) =~= ks.subrange(i + 1, ks.len() as int));
        assert(keys_missing(ae, tail, 1) == keys_missing(
            ae,
            tail.subrange(1, tail.len() as int),
            0,
        )) by {
            lemma_missing_shift(ae, tail, 1);
        }
    }
}

proof fn lemma_missing_concat(
    ae: Seq<(Seq<char>, SpecJson)>,
    ks1: Seq<Seq<char>>,
    ks2: Seq<Seq<char>>,
)
    ensures
        keys_missing(ae, ks1 + ks2, 0) == keys_missing(ae, ks1, 0) + keys_missing(ae, ks2, 0),
    decreases ks1.len(),
{
    if ks1.len() == 0 {
        assert(ks1 + ks2 =~= ks2);
        assert(keys_missing(ae, ks1, 0) + keys_missing(ae, ks2, 0) =~= keys_missing(ae, ks2, 0));
    } else {
        let t1 = ks1.subrange(1, ks1.len() as int);
        lemma_missing_concat(ae, t1, ks2);
        let all = ks1 + ks2;
        assert(all[0] == ks1[0]);
        lemma_missing_shift(ae, all, 1);
        assert(all.subrange(1, all.len() as int) =~= t1 + ks2);
        lemma_missing_shift(ae, ks1, 1);
        assert(ks1.subrange(1, ks1.len() as int) =~= t1);
        if has_key(ae, ks1[0]) {
        } else {
            assert(seq![ks1[0]] + (keys_missing(ae, t1, 0) + keys_missing(ae, ks2, 0)) =~= (
            seq![ks1[0]] + keys_missing(ae, t1, 0)) + keys_missing(ae, ks2, 0));
        }
    }
}

proof fn lemma_missing_double(
    ae_a: Seq<(Seq<char>, SpecJson)>,
    ae_b: Seq<(Seq<char>, SpecJson)>,
    ae_u: Seq<(Seq<char>, SpecJson)>,
    ks: Seq<Seq<char>>,
    i: int,
)
    requires
        forall|j: int|
            i <= j < ks.len() ==> has_key(ae_u, ks[j]) == (has_key(ae_a, ks[j]) || has_key(
                ae_b,
                ks[j],
            )),
        0 <= i,
    ensures
        keys_missing(ae_a, keys_missing(ae_b, ks, i), 0) == keys_missing(ae_u, ks, i),
    decreases ks.len() - i,
{
    if i >= ks.len() {
        assert(keys_missing(ae_a, keys_missing(ae_b, ks, i), 0) =~= Seq::<Seq<char>>::empty());
    } else {
        lemma_missing_double(ae_a, ae_b, ae_u, ks, i + 1);
        let k = ks[i];
        if has_key(ae_b, k) {
        } else {
            let inner = seq![k] + keys_missing(ae_b, ks, i + 1);
            assert(inner[0] == k);
            lemma_missing_shift(ae_a, inner, 1);
            assert(inner.subrange(1, inner.len() as int) =~= keys_missing(ae_b, ks, i + 1));
        }
    }
}

proof fn lemma_me_keys(
    ae: Seq<(Seq<char>, SpecJson)>,
    be: Seq<(Seq<char>, SpecJson)>,
    i: int,
)
    requires
        unique_keys(be),
        0 <= i,
    ensures
        keys(spec_merge_entries(ae, be, i)) == keys(ae) + keys_missing(ae, keys(be), i),
    decreases be.len() - i,
{
    if i >= be.len() {
        assert(keys(ae) + keys_missing(ae, keys(be), i) =~= keys(ae));
    } else {
        let k0 = be[i].0;
        let v0 = be[i].1;
        let m0 = match spec_lookup(ae, k0) {
            Option::Some(prior) => spec_merge(prior, v0),
            Option::None => v0,
        };
        let ae2 = spec_set(ae, k0, m0);
        lemma_set_lookup(ae, k0, m0);
        lemma_set_keys(ae, k0, m0);
        lemma_me_keys(ae2, be, i + 1);
        assert(keys(be)[i] == k0);
        if has_key(ae, k0) {
            assert forall|j: int| i + 1 <= j < keys(be).len() implies has_key(ae2, keys(be)[j])
                == has_key(ae, keys(be)[j]) by {
                lemma_set_lookup(ae, k0, m0);
            }
            lemma_missing_congr(ae2, ae, keys(be), i + 1);
        } else {
            assert forall|j: int| i + 1 <= j < keys(be).len() implies has_key(ae2, keys(be)[j])
                == has_key(ae, keys(be)[j]) by {
                assert(keys(be)[j] == be[j].0);
                assert(be[j].0 != k0);
                lemma_set_lookup(ae, k0, m0);
            }
            lemma_missing_congr(ae2, ae, keys(be), i + 1);
            assert(keys(ae).push(k0) + keys_missing(ae, keys(be), i + 1) =~= keys(ae) + (
            seq![k0] + keys_missing(ae, keys(be), i + 1)));
        }
    }
}

proof fn lemma_wf_items_iff(items: Seq<SpecJson>, i: int)
    requires
        0 <= i,
    ensures
        wf_items(items, i) <==> (forall|j: int| i <= j < items.len() ==> wf_json(items[j])),
    decreases items.len() - i,
{
    if i < items.len() {
        lemma_wf_items_iff(items, i + 1);
    }
}

proof fn lemma_wf_entries_iff(es: Seq<(Seq<char>, SpecJson)>, i: int)
    requires
        0 <= i,
    ensures
        wf_entries(es, i) <==> (forall|j: int| i <= j < es.len() ==> wf_json(es[j].1)),
    decreases es.len() - i,
{
    if i < es.len() {
        lemma_wf_entries_iff(es, i + 1);
    }
}

/// Deep merge keeps trees valid: merging two valid trees yields a valid
/// tree, so the accumulator of a fetch stays valid page after page.
pub proof fn lemma_merge_wf(a: SpecJson, b: SpecJson)
    requires
        wf_json(a),
        wf_json(b),
    ensures
        wf_json(spec_merge(a, b)),
    decreases b,
{
    if a is Obj && b is Obj {
        let as_ = a->Obj_0;
        let bs = b->Obj_0;
        let me = spec_merge_entries(as_, bs, 0);
        lemma_me_unique(as_, bs, 0);
        lemma_wf_entries_iff(as_, 0);
        lemma_wf_entries_iff(bs, 0);
        assert forall|t: int| 0 <= t < me.len() implies wf_json(me[t].1) by {
            let k = me[t].0;
            crate::assoc::lemma_lookup_at(me, k, t);
            lemma_me_lookup(as_, bs, 0, k);
            lemma_lookup_is_from(bs, k, 0);
            assert(bs.subrange(0, bs.len() as int) =~= bs);
            if spec_lookup(bs, k) is Some {
                let bv = spec_lookup(bs, k)->Some_0;
                lemma_lookup_witness(bs, k);
                let jb = choose|j: int| 0 <= j < bs.len() && bs[j].0 == k && bs[j].1 == bv;
                if spec_lookup(as_, k) is Some {
                    let av = spec_lookup(as_, k)->Some_0;
                    lemma_lookup_witness(as_, k);
                    assert(decreases_to!(b => b->Obj_0));
                    assert(decreases_to!(bs => bs[jb]));
                    assert(decreases_to!(bs[jb] => bs[jb].1));
                    lemma_merge_wf(av, bv);
                }
            } else {
                lemma_lookup_witness(as_, k);
            }
        }
        lemma_wf_entries_iff(me, 0);
    } else if a is Arr && b is Arr {
        let aa = a->Arr_0;
        let ba = b->Arr_0;
        lemma_wf_items_iff(aa, 0);
        lemma_wf_items_iff(ba, 0);
        lemma_wf_items_iff(aa + ba, 0);
        assert forall|j: int| 0 <= j < (aa + ba).len() implies wf_json((aa + ba)[j]) by {
            if j < aa.len() {
                assert((aa + ba)[j] == aa[j]);
            } else {
                assert((aa + ba)[j] == ba[j - aa.len()]);
            }
        }
    }
}

/// Deep merge is associative on valid, aligned trees: merging pages one at
/// a time and merging a pre-merged pair give the same result. The
/// alignment hypothesis excludes the pairs on which a merge degenerates to
/// replacement, where associativity does not hold.
pub proof fn lemma_merge_associative(a: SpecJson, b: SpecJson, c: SpecJson)
    requires
        wf_json(a),
        wf_json(b),
        wf_json(c),
        aligned(a, b),
        aligned(b, c),
    ensures
        spec_merge(spec_merge(a, b), c) == spec_merge(a, spec_merge(b, c)),
    decreases b,
{
    if a is Arr && b is Arr && c is Arr {
        let (xa, xb, xc) = (a->Arr_0, b->Arr_0, c->Arr_0);
        assert((xa + xb) + xc =~= xa + (xb + xc));
    } else {
        let as_ = a->Obj_0;
        let bs = b->Obj_0;
        let cs = c->Obj_0;
        let abe = spec_merge_entries(as_, bs, 0);
        let bce = spec_merge_entries(bs, cs, 0);
        let lhs = spec_merge_entries(abe, cs, 0);
        let rhs = spec_merge_entries(as_, bce, 0);
        lemma_me_unique(as_, bs, 0);
        lemma_me_unique(bs, cs, 0);
        lemma_me_unique(abe, cs, 0);
        lemma_me_unique(as_, bce, 0);

        // has_key over the first merge agrees with the union of the operands'.
        assert forall|k: Seq<char>| #[trigger] has_key(abe, k) == (has_key(as_, k) || has_key(
            bs,
            k,
        )) by {
            lemma_me_lookup(as_, bs, 0, k);
            lemma_lookup_is_from(bs, k, 0);
            assert(bs.subrange(0, bs.len() as int) =~= bs);
        }

        // Key order: both sides list a's keys, then b's new keys, then c's.
        lemma_me_keys(as_, bs, 0);
        lemma_me_keys(abe, cs, 0);
        lemma_me_keys(bs, cs, 0);
        lemma_me_keys(as_, bce, 0);
        lemma_missing_concat(as_, keys(bs), keys_missing(bs, keys(cs), 0));
        assert(keys(bce) =~= keys(bs) + keys_missing(bs, keys(cs), 0));
        lemma_missing_double(as_, bs, abe, keys(cs), 0);
        assert(keys(lhs) =~= keys(rhs)) by {
            assert(keys(lhs) =~= (keys(as_) + keys_missing(as_, keys(bs), 0)) + keys_missing(
                abe,
                keys(cs),
                0,
            ));
            assert(keys(rhs) =~= keys(as_) + (keys_missing(as_, keys(bs), 0) + keys_missing(
                abe,
                keys(cs),
                0,
            )));
        }

        // Lookups agree at every key, by associativity of the value merges.
        assert forall|k: Seq<char>| #[trigger] spec_lookup(lhs, k) == spec_lookup(rhs, k) by {
            lemma_me_lookup(as_, bs, 0, k);
            lemma_me_lookup(abe, cs, 0, k);
            lemma_me_lookup(bs, cs, 0, k);
            lemma_me_lookup(as_, bce, 0, k);
            lemma_lookup_is_from(bs, k, 0);
            lemma_lookup_is_from(cs, k, 0);
            lemma_lookup_is_from(bce, k, 0);
            assert(bs.subrange(0, bs.len() as int) =~= bs);
            assert(cs.subrange(0, cs.len() as int) =~= cs);
            assert(bce.subrange(0, bce.len() as int) =~= bce);
            if spec_lookup(as_, k) is Some && spec_lookup(bs, k) is Some && spec_lookup(
                cs,
                k,
            ) is Some {
                let xa = spec_lookup(as_, k)->Some_0;
                let xb = spec_lookup(bs, k)->Some_0;
                let xc = spec_lookup(cs, k)->Some_0;
                lemma_lookup_witness(bs, k);
                let jb = choose|j: int| 0 <= j < bs.len() && bs[j].0 == k && bs[j].1 == xb;
                lemma_lookup_witness(cs, k);
                let jc = choose|j: int| 0 <= j < cs.len() && cs[j].0 == k && cs[j].1 == xc;
                lemma_wf_at(bs, 0, jb);
                lemma_wf_at(cs, 0, jc);
                lemma_lookup_witness(as_, k);
                let ja = choose|j: int| 0 <= j < as_.len() && as_[j].0 == k && as_[j].1 == xa;
                lemma_wf_at(as_, 0, ja);
                lemma_aligned_at(as_, bs, 0, jb);
                lemma_aligned_at(bs, cs, 0, jc);
                assert(decreases_to!(b => b->Obj_0));
                assert(decreases_to!(bs => bs[jb]));
                assert(decreases_to!(bs[jb] => bs[jb].1));
                lemma_merge_associative(xa, xb, xc);
            }
        }
        lemma_assoc_ext(lhs, rhs);
    }
}

} // verus!
