//! Specification-level association sequences: string-keyed `(key, value)`
//! sequences with first-match lookup. The rate limiter, the cache and the
//! upstream registry all model their keyed state this way.

use vstd::prelude::*;

verus! {

/// The value at the first entry whose key is `k`, `None` when no entry has it.
pub open spec fn lookup<V>(es: Seq<(Seq<char>, V)>, k: Seq<char>) -> Option<V>
    decreases es.len(),
{
    if es.len() == 0 {
        None
    } else if es[0].0 == k {
        Some(es[0].1)
    } else {
        lookup(es.drop_first(), k)
    }
}

/// No two entries share a key.
pub open spec fn unique_keys<V>(es: Seq<(Seq<char>, V)>) -> bool {
    forall|i: int, j: int| 0 <= i < j < es.len() ==> es[i].0 != es[j].0
}

/// Lookup finds the entry at `i` when no earlier entry has its key.
pub proof fn lemma_lookup_index<V>(es: Seq<(Seq<char>, V)>, i: int)
    requires
        0 <= i < es.len(),
        forall|j: int| 0 <= j < i ==> es[j].0 != es[i].0,
    ensures
        lookup(es, es[i].0) == Some(es[i].1),
    decreases i,
{
    if i > 0 {
        let rest = es.drop_first();
        assert(forall|j: int| 0 <= j < i - 1 ==> rest[j].0 == es[j + 1].0);
        lemma_lookup_index(rest, i - 1);
    }
}

/// Lookup misses when no entry has the key.
pub proof fn lemma_lookup_absent<V>(es: Seq<(Seq<char>, V)>, k: Seq<char>)
    requires
        forall|j: int| 0 <= j < es.len() ==> es[j].0 != k,
    ensures
        lookup(es, k) is None,
    decreases es.len(),
{
    if es.len() > 0 {
        lemma_lookup_absent(es.drop_first(), k);
    }
}

/// A missed lookup means no entry has the key.
pub proof fn lemma_lookup_none_no_key<V>(es: Seq<(Seq<char>, V)>, k: Seq<char>)
    requires
        lookup(es, k) is None,
    ensures
        forall|j: int| 0 <= j < es.len() ==> es[j].0 != k,
    decreases es.len(),
{
    if es.len() > 0 {
        lemma_lookup_none_no_key(es.drop_first(), k);
        assert(forall|j: int| 1 <= j < es.len() ==> es[j].0 == es.drop_first()[j - 1].0);
    }
}

/// Lookup over a concatenation prefers the left side.
pub proof fn lemma_lookup_append<V>(a: Seq<(Seq<char>, V)>, b: Seq<(Seq<char>, V)>, k: Seq<char>)
    ensures
        lookup(a + b, k) == if lookup(a, k) is Some {
            lookup(a, k)
        } else {
            lookup(b, k)
        },
    decreases a.len(),
{
    if a.len() == 0 {
        assert(a + b =~= b);
    } else {
        assert((a + b)[0] == a[0]);
        assert((a + b).drop_first() =~= a.drop_first() + b);
        lemma_lookup_append(a.drop_first(), b, k);
    }
}

/// An entry with key `k` anywhere makes lookup hit.
pub proof fn lemma_lookup_some_key<V>(es: Seq<(Seq<char>, V)>, i: int)
    requires
        0 <= i < es.len(),
    ensures
        lookup(es, es[i].0) is Some,
    decreases i,
{
    if es[0].0 != es[i].0 {
        let rest = es.drop_first();
        assert(rest[i - 1] == es[i]);
        lemma_lookup_some_key(rest, i - 1);
    }
}

/// A hit returns an entry that stands in the sequence.
pub proof fn lemma_lookup_some_in<V>(es: Seq<(Seq<char>, V)>, k: Seq<char>)
    requires
        lookup(es, k) is Some,
    ensures
        exists|i: int|
            0 <= i < es.len() && #[trigger] es[i] == (k, lookup(es, k)->Some_0),
    decreases es.len(),
{
    if es[0].0 == k {
        assert(es[0] == (k, lookup(es, k)->Some_0));
    } else {
        let rest = es.drop_first();
        lemma_lookup_some_in(rest, k);
        let i = choose|i: int| 0 <= i < rest.len() && #[trigger] rest[i] == (k, lookup(rest, k)->Some_0);
        assert(es[i + 1] == (k, lookup(es, k)->Some_0));
    }
}

/// Replacing the value at `i` (key kept) changes lookup only for that key,
/// and for that key only when no earlier entry shadows it.
pub proof fn lemma_lookup_update_value<V>(es: Seq<(Seq<char>, V)>, i: int, v: V, k: Seq<char>)
    requires
        0 <= i < es.len(),
    ensures
        k != es[i].0 ==> lookup(es.update(i, (es[i].0, v)), k) == lookup(es, k),
        (k == es[i].0 && (forall|j: int| 0 <= j < i ==> es[j].0 != k)) ==> lookup(
            es.update(i, (es[i].0, v)),
            k,
        ) == Some(v),
    decreases i,
{
    let es2 = es.update(i, (es[i].0, v));
    if i == 0 {
        if es.len() > 1 {
            assert(es2.drop_first() =~= es.drop_first());
        }
    } else {
        assert(es2[0] == es[0]);
        assert(es2.drop_first() =~= es.drop_first().update(i - 1, (es[i].0, v)));
        assert(es.drop_first()[i - 1] == es[i]);
        lemma_lookup_update_value(es.drop_first(), i - 1, v, k);
        assert(forall|j: int| 0 <= j < i - 1 ==> es.drop_first()[j].0 == es[j + 1].0);
    }
}

} // verus!
