use vstd::prelude::*;

verus! {

/// Value stored under the first entry whose key equals `k`, if any.
pub open spec fn spec_lookup<V>(es: Seq<(Seq<char>, V)>, k: Seq<char>) -> Option<V>
    decreases es.len(),
{
    if es.len() == 0 {
        Option::None
    } else if es[0].0 == k {
        Option::Some(es[0].1)
    } else {
        spec_lookup(es.subrange(1, es.len() as int), k)
    }
}

/// Replaces the value of the first entry keyed `k`, keeping its position,
/// or appends a new entry when the key is absent.
pub open spec fn spec_set<V>(es: Seq<(Seq<char>, V)>, k: Seq<char>, v: V) -> Seq<(Seq<char>, V)>
    decreases es.len(),
{
    if es.len() == 0 {
        seq![(k, v)]
    } else if es[0].0 == k {
        seq![(k, v)] + es.subrange(1, es.len() as int)
    } else {
        seq![es[0]] + spec_set(es.subrange(1, es.len() as int), k, v)
    }
}

/// Drops the first entry keyed `k`, if any.
pub open spec fn spec_remove<V>(es: Seq<(Seq<char>, V)>, k: Seq<char>) -> Seq<(Seq<char>, V)>
    decreases es.len(),
{
    if es.len() == 0 {
        Seq::empty()
    } else if es[0].0 == k {
        es.subrange(1, es.len() as int)
    } else {
        seq![es[0]] + spec_remove(es.subrange(1, es.len() as int), k)
    }
}

/// No two entries share a key.
pub open spec fn unique_keys<V>(es: Seq<(Seq<char>, V)>) -> bool {
    forall|i: int, j: int| 0 <= i < j < es.len() ==> es[i].0 != es[j].0
}

/// When the first match for `k` sits at index `i`, the lookup yields that
/// entry's value.
pub proof fn lemma_lookup_at<V>(es: Seq<(Seq<char>, V)>, k: Seq<char>, i: int)
    requires
        0 <= i < es.len(),
        es[i].0 == k,
        forall|j: int| 0 <= j < i ==> es[j].0 != k,
    ensures
        spec_lookup(es, k) == Option::Some(es[i].1),
    decreases es.len(),
{
    if i > 0 {
        lemma_lookup_at(es.subrange(1, es.len() as int), k, i - 1);
    }
}

/// When no entry is keyed `k`, the lookup yields nothing.
pub proof fn lemma_lookup_none<V>(es: Seq<(Seq<char>, V)>, k: Seq<char>)
    requires
        forall|j: int| 0 <= j < es.len() ==> es[j].0 != k,
    ensures
        spec_lookup(es, k) is None,
    decreases es.len(),
{
    if es.len() > 0 {
        lemma_lookup_none(es.subrange(1, es.len() as int), k);
    }
}

/// When the first match for `k` sits at index `i`, setting `k` updates
/// exactly that entry.
pub proof fn lemma_set_at<V>(es: Seq<(Seq<char>, V)>, k: Seq<char>, v: V, i: int)
    requires
        0 <= i < es.len(),
        es[i].0 == k,
        forall|j: int| 0 <= j < i ==> es[j].0 != k,
    ensures
        spec_set(es, k, v) == es.update(i, (k, v)),
    decreases es.len(),
{
    if i == 0 {
        assert(spec_set(es, k, v) =~= es.update(0, (k, v)));
    } else {
        lemma_set_at(es.subrange(1, es.len() as int), k, v, i - 1);
        assert(spec_set(es, k, v) =~= es.update(i, (k, v)));
    }
}

/// When no entry is keyed `k`, setting `k` appends a new entry.
pub proof fn lemma_set_none<V>(es: Seq<(Seq<char>, V)>, k: Seq<char>, v: V)
    requires
        forall|j: int| 0 <= j < es.len() ==> es[j].0 != k,
    ensures
        spec_set(es, k, v) == es.push((k, v)),
    decreases es.len(),
{
    if es.len() == 0 {
        assert(spec_set(es, k, v) =~= es.push((k, v)));
    } else {
        lemma_set_none(es.subrange(1, es.len() as int), k, v);
        assert(spec_set(es, k, v) =~= es.push((k, v)));
    }
}

/// When the first match for `k` sits at index `i`, removing `k` drops
/// exactly that entry.
pub proof fn lemma_remove_at<V>(es: Seq<(Seq<char>, V)>, k: Seq<char>, i: int)
    requires
        0 <= i < es.len(),
        es[i].0 == k,
        forall|j: int| 0 <= j < i ==> es[j].0 != k,
    ensures
        spec_remove(es, k) == es.remove(i),
    decreases es.len(),
{
    if i == 0 {
        assert(spec_remove(es, k) =~= es.remove(0));
    } else {
        lemma_remove_at(es.subrange(1, es.len() as int), k, i - 1);
        assert(spec_remove(es, k) =~= es.remove(i));
    }
}

/// Whether some entry is keyed `k`.
pub open spec fn has_key<V>(es: Seq<(Seq<char>, V)>, k: Seq<char>) -> bool {
    spec_lookup(es, k) is Some
}

/// The keys of the entries, in order.
pub open spec fn keys<V>(es: Seq<(Seq<char>, V)>) -> Seq<Seq<char>> {
    es.map_values(|p: (Seq<char>, V)| p.0)
}

/// Value stored under the first entry keyed `k` at index `i` or later.
pub open spec fn spec_lookup_from<V>(es: Seq<(Seq<char>, V)>, k: Seq<char>, i: int) -> Option<V>
    decreases es.len() - i,
{
    if i < 0 || i >= es.len() {
        Option::None
    } else if es[i].0 == k {
        Option::Some(es[i].1)
    } else {
        spec_lookup_from(es, k, i + 1)
    }
}

/// The keys of `ks` from index `i` on that are absent from `es`, in order.
pub open spec fn keys_missing<V>(es: Seq<(Seq<char>, V)>, ks: Seq<Seq<char>>, i: int) -> Seq<
    Seq<char>,
>
    decreases ks.len() - i,
{
    if i < 0 || i >= ks.len() {
        Seq::empty()
    } else if has_key(es, ks[i]) {
        keys_missing(es, ks, i + 1)
    } else {
        seq![ks[i]] + keys_missing(es, ks, i + 1)
    }
}

/// A successful lookup has a witnessing entry.
pub proof fn lemma_lookup_witness<V>(es: Seq<(Seq<char>, V)>, k: Seq<char>)
    requires
        spec_lookup(es, k) is Some,
    ensures
        exists|j: int|
            0 <= j < es.len() && es[j].0 == k && es[j].1 == spec_lookup(es, k)->Some_0,
    decreases es.len(),
{
    if es.len() > 0 && es[0].0 != k {
        lemma_lookup_witness(es.subrange(1, es.len() as int), k);
        let j1 = choose|j: int|
            0 <= j < es.len() - 1 && es.subrange(1, es.len() as int)[j].0 == k && es.subrange(
                1,
                es.len() as int,
            )[j].1 == spec_lookup(es.subrange(1, es.len() as int), k)->Some_0;
        assert(es[j1 + 1].0 == k);
    }
}

/// Setting `k` stores `v` under `k` and leaves every other key's lookup as
/// it was.
pub proof fn lemma_set_lookup<V>(es: Seq<(Seq<char>, V)>, k: Seq<char>, v: V)
    ensures
        spec_lookup(spec_set(es, k, v), k) == Option::Some(v),
        forall|k2: Seq<char>|
            k2 != k ==> #[trigger] spec_lookup(spec_set(es, k, v), k2) == spec_lookup(es, k2),
    decreases es.len(),
{
    if es.len() == 0 {
        assert forall|k2: Seq<char>| k2 != k implies #[trigger] spec_lookup(
            spec_set(es, k, v),
            k2,
        ) == spec_lookup(es, k2) by {
            let r = spec_set(es, k, v);
            assert(r.subrange(1, r.len() as int) =~= es);
        }
    } else if es[0].0 == k {
        assert forall|k2: Seq<char>| k2 != k implies #[trigger] spec_lookup(
            spec_set(es, k, v),
            k2,
        ) == spec_lookup(es, k2) by {
            let r = spec_set(es, k, v);
            assert(r[0] == (k, v));
            assert(r.subrange(1, r.len() as int) =~= es.subrange(1, es.len() as int));
        }
    } else {
        let tail = es.subrange(1, es.len() as int);
        lemma_set_lookup(tail, k, v);
        let r = spec_set(es, k, v);
        assert(r[0] == es[0]);
        assert(r.subrange(1, r.len() as int) =~= spec_set(tail, k, v));
        assert forall|k2: Seq<char>| k2 != k implies #[trigger] spec_lookup(
            spec_set(es, k, v),
            k2,
        ) == spec_lookup(es, k2) by {
            if es[0].0 == k2 {
                assert(spec_lookup(r, k2) == Option::Some(es[0].1));
            } else {
                assert(spec_lookup(r, k2) == spec_lookup(spec_set(tail, k, v), k2));
                assert(spec_lookup(spec_set(tail, k, v), k2) == spec_lookup(tail, k2));
                assert(spec_lookup(es, k2) == spec_lookup(tail, k2));
            }
        }
    }
}

/// When no entry at `i` or later is keyed `k`, the lookup from `i` fails.
pub proof fn lemma_lookup_from_none<V>(es: Seq<(Seq<char>, V)>, k: Seq<char>, i: int)
    requires
        forall|j: int| i <= j < es.len() ==> es[j].0 != k,
    ensures
        spec_lookup_from(es, k, i) is None,
    decreases es.len() - i,
{
    if 0 <= i && i < es.len() {
        lemma_lookup_from_none(es, k, i + 1);
    }
}

/// The lookup is the lookup from the front.
pub proof fn lemma_lookup_is_from<V>(es: Seq<(Seq<char>, V)>, k: Seq<char>, i: int)
    requires
        0 <= i <= es.len(),
    ensures
        spec_lookup_from(es, k, i) == spec_lookup(es.subrange(i, es.len() as int), k),
    decreases es.len() - i,
{
    if i < es.len() {
        lemma_lookup_is_from(es, k, i + 1);
        let tail = es.subrange(i, es.len() as int);
        assert(tail.subrange(1, tail.len() as int) =~= es.subrange(i + 1, es.len() as int));
    }
}

/// Two entry lists with unique keys, the same keys in the same order, and
/// the same lookup at every key are the same list.
pub proof fn lemma_assoc_ext<V>(xs: Seq<(Seq<char>, V)>, ys: Seq<(Seq<char>, V)>)
    requires
        unique_keys(xs),
        unique_keys(ys),
        keys(xs) == keys(ys),
        forall|k: Seq<char>| #[trigger] spec_lookup(xs, k) == spec_lookup(ys, k),
    ensures
        xs == ys,
{
    assert(keys(xs).len() == xs.len());
    assert(keys(ys).len() == ys.len());
    assert forall|t: int| 0 <= t < xs.len() implies xs[t] == ys[t] by {
        assert(xs[t].0 == keys(xs)[t]);
        assert(ys[t].0 == keys(ys)[t]);
        lemma_lookup_at(xs, xs[t].0, t);
        lemma_lookup_at(ys, ys[t].0, t);
    }
    assert(xs =~= ys);
}

/// Among any entries keyed `k` there is a first one.
pub proof fn lemma_first_match<V>(es: Seq<(Seq<char>, V)>, k: Seq<char>)
    requires
        exists|j: int| 0 <= j < es.len() && es[j].0 == k,
    ensures
        exists|i: int|
            0 <= i < es.len() && es[i].0 == k && (forall|j: int| 0 <= j < i ==> es[j].0 != k),
    decreases es.len(),
{
    if es[0].0 == k {
        assert(0 <= 0 < es.len() && es[0].0 == k && (forall|j: int| 0 <= j < 0 ==> es[j].0 != k));
    } else {
        let tail = es.subrange(1, es.len() as int);
        let j0 = choose|j: int| 0 <= j < es.len() && es[j].0 == k;
        assert(tail[j0 - 1].0 == k);
        lemma_first_match(tail, k);
        let i1 = choose|i: int|
            0 <= i < tail.len() && tail[i].0 == k && (forall|j: int| 0 <= j < i ==> tail[j].0 != k);
        assert(es[i1 + 1].0 == k);
        assert(forall|j: int| 0 <= j < i1 + 1 ==> es[j].0 != k) by {
            assert(forall|j: int| 1 <= j < i1 + 1 ==> es[j].0 == tail[j - 1].0);
        }
    }
}

/// Setting a key keeps the keys unique.
pub proof fn lemma_set_unique<V>(es: Seq<(Seq<char>, V)>, k: Seq<char>, v: V)
    requires
        unique_keys(es),
    ensures
        unique_keys(spec_set(es, k, v)),
{
    if exists|j: int| 0 <= j < es.len() && es[j].0 == k {
        lemma_first_match(es, k);
        let i = choose|i: int|
            0 <= i < es.len() && es[i].0 == k && (forall|j: int| 0 <= j < i ==> es[j].0 != k);
        lemma_set_at(es, k, v, i);
        assert(forall|t: int|
            0 <= t < es.len() ==> es.update(i, (k, v))[t].0 == es[t].0);
    } else {
        assert(forall|j: int| 0 <= j < es.len() ==> es[j].0 != k);
        lemma_set_none(es, k, v);
    }
}

/// When no entry is keyed `k`, removing `k` changes nothing.
pub proof fn lemma_remove_none<V>(es: Seq<(Seq<char>, V)>, k: Seq<char>)
    requires
        forall|j: int| 0 <= j < es.len() ==> es[j].0 != k,
    ensures
        spec_remove(es, k) == es,
    decreases es.len(),
{
    if es.len() == 0 {
        assert(spec_remove(es, k) =~= es);
    } else {
        lemma_remove_none(es.subrange(1, es.len() as int), k);
        assert(spec_remove(es, k) =~= es);
    }
}

} // verus!
