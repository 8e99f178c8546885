//! Per-key store of previously computed response documents with expiry.
//!
//! Values are opaque documents: the cache performs no interpretation. An
//! entry is valid only strictly before its expiry timestamp; an expired entry
//! answers exactly like an absent one until a sweep physically removes it.
//! Time is supplied by the caller as a monotonic reading in milliseconds.

use vstd::prelude::*;
use crate::assoc;
use crate::strutil::str_eq;

verus! {

/// One stored document together with the instant it stops being valid.
pub struct CacheItem {
    value: String,
    expires_at: u64,
}

struct CacheSlot {
    key: String,
    item: CacheItem,
}

/// In-memory TTL cache of opaque documents, keyed by string.
pub struct MemoryCache {
    store: Vec<CacheSlot>,
    default_ttl: u64,
}

/// The entries that survive a sweep at `now`: exactly those whose expiry
/// still lies ahead, unchanged and in order.
pub open spec fn unexpired(
    es: Seq<(Seq<char>, (Seq<char>, u64))>,
    now: u64,
) -> Seq<(Seq<char>, (Seq<char>, u64))>
    decreases es.len(),
{
    if es.len() == 0 {
        Seq::empty()
    } else {
        let rest = unexpired(es.drop_first(), now);
        if now < es[0].1.1 {
            seq![es[0]] + rest
        } else {
            rest
        }
    }
}

proof fn lemma_unexpired_lookup(es: Seq<(Seq<char>, (Seq<char>, u64))>, now: u64, k: Seq<char>)
    requires
        assoc::unique_keys(es),
    ensures
        assoc::lookup(unexpired(es, now), k) == match assoc::lookup(es, k) {
            Option::None => Option::<(Seq<char>, u64)>::None,
            Option::Some(e) => if now < e.1 {
                Option::Some(e)
            } else {
                Option::<(Seq<char>, u64)>::None
            },
        },
    decreases es.len(),
{
    if es.len() > 0 {
        let rest = es.drop_first();
        assert(forall|j: int| 0 <= j < rest.len() ==> rest[j] == es[j + 1]);
        lemma_unexpired_lookup(rest, now, k);
        if now < es[0].1.1 {
            let head = seq![es[0]];
            assoc::lemma_lookup_append(head, unexpired(rest, now), k);
            if es[0].0 == k {
                assert(assoc::lookup(head, k) == Some(es[0].1));
                assert(assoc::lookup(es, k) == Some(es[0].1));
            } else {
                assert(forall|j: int| 0 <= j < head.len() ==> head[j].0 != k);
                assoc::lemma_lookup_absent(head, k);
                assert(assoc::lookup(es, k) == assoc::lookup(rest, k));
            }
        } else {
            if es[0].0 == k {
                assert(forall|j: int| 0 <= j < rest.len() ==> rest[j].0 != k);
                assoc::lemma_lookup_absent(rest, k);
            }
        }
    }
}

proof fn lemma_unexpired_unique(es: Seq<(Seq<char>, (Seq<char>, u64))>, now: u64)
    requires
        assoc::unique_keys(es),
    ensures
        assoc::unique_keys(unexpired(es, now)),
    decreases es.len(),
{
    if es.len() > 0 {
        let rest = es.drop_first();
        assert(forall|j: int| 0 <= j < rest.len() ==> rest[j] == es[j + 1]);
        lemma_unexpired_unique(rest, now);
        if now < es[0].1.1 {
            let head = seq![es[0]];
            let out = head + unexpired(rest, now);
            assert(forall|j: int| 0 <= j < rest.len() ==> rest[j].0 != es[0].0);
            assoc::lemma_lookup_absent(rest, es[0].0);
            lemma_unexpired_lookup(rest, now, es[0].0);
            assoc::lemma_lookup_none_no_key(unexpired(rest, now), es[0].0);
            assert(forall|i: int, j: int| 0 < i < j < out.len() ==> out[i].0 != out[j].0);
        }
    }
}

proof fn lemma_unexpired_append(
    a: Seq<(Seq<char>, (Seq<char>, u64))>,
    b: Seq<(Seq<char>, (Seq<char>, u64))>,
    now: u64,
)
    ensures
        unexpired(a + b, now) == unexpired(a, now) + unexpired(b, now),
    decreases a.len(),
{
    if a.len() == 0 {
        assert(a + b =~= b);
        assert(unexpired(a, now) + unexpired(b, now) =~= unexpired(b, now));
    } else {
        assert((a + b).drop_first() =~= a.drop_first() + b);
        assert((a + b)[0] == a[0]);
        lemma_unexpired_append(a.drop_first(), b, now);
        if now < a[0].1.1 {
            assert(seq![a[0]] + (unexpired(a.drop_first(), now) + unexpired(b, now)) =~= (seq![
                a[0],
            ] + unexpired(a.drop_first(), now)) + unexpired(b, now));
        }
    }
}

impl MemoryCache {
    /// The stored entries: key, document and expiry, as views.
    pub closed spec fn entries(self) -> Seq<(Seq<char>, (Seq<char>, u64))> {
        self.store@.map_values(|s: CacheSlot| (s.key@, (s.item.value@, s.item.expires_at)))
    }

    /// Internal shape: no key occurs twice.
    pub open spec fn wf(self) -> bool {
        assoc::unique_keys(self.entries())
    }

    /// The expiry stamped on entries whose `set` names no lifetime.
    pub closed spec fn spec_default_ttl(self) -> u64 {
        self.default_ttl
    }

    /// The physically stored entry for `k`: its document and expiry.
    pub open spec fn entry_of(self, k: Seq<char>) -> Option<(Seq<char>, u64)> {
        assoc::lookup(self.entries(), k)
    }

    /// Whether `k` answers a `get` at `now`: present and not yet expired.
    pub open spec fn valid_at(self, k: Seq<char>, now: u64) -> bool {
        match self.entry_of(k) {
            Option::Some(e) => now < e.1,
            Option::None => false,
        }
    }

    /// The document `get(k)` returns at `now`, when any.
    pub open spec fn value_at(self, k: Seq<char>, now: u64) -> Option<Seq<char>> {
        match self.entry_of(k) {
            Option::Some(e) => if now < e.1 {
                Option::Some(e.0)
            } else {
                Option::None
            },
            Option::None => Option::None,
        }
    }

    pub fn new(default_ttl: u64) -> (r: MemoryCache)
        ensures
            r.wf(),
            r.spec_default_ttl() == default_ttl,
            forall|k: Seq<char>| r.entry_of(k) is None,
    {
        let r = MemoryCache { store: Vec::new(), default_ttl };
        proof {
            assert(r.entries() =~= Seq::empty());
        }
        r
    }

    /// The index of the slot for `key`, when one exists.
    fn find_key(&self, key: &str) -> (r: Option<usize>)
        ensures
            match r {
                Option::Some(i) => i < self.entries().len() && self.entries()[i as int].0 == key@
                    && (forall|j: int| 0 <= j < i ==> self.entries()[j].0 != key@),
                Option::None => forall|j: int|
                    0 <= j < self.entries().len() ==> self.entries()[j].0 != key@,
            },
    {
        let n = self.store.len();
        let mut i: usize = 0;
        while i < n
            invariant
                n == self.store@.len(),
                i <= n,
                forall|j: int| 0 <= j < i ==> self.entries()[j].0 != key@,
            decreases n - i,
        {
            if str_eq(self.store[i].key.as_str(), key) {
                return Some(i);
            }
            i = i + 1;
        }
        None
    }

    /// Returns the stored document iff an entry exists whose expiry still
    /// lies ahead; an expired entry answers like an absent one and is left
    /// in place.
    pub fn get(&self, key: &str, now: u64) -> (r: Option<String>)
        requires
            self.wf(),
        ensures
            match r {
                Option::Some(v) => self.value_at(key@, now) == Option::Some(v@),
                Option::None => !self.valid_at(key@, now),
            },
    {
        match self.find_key(key) {
            Some(i) => {
                proof {
                    assoc::lemma_lookup_index(self.entries(), i as int);
                }
                if now < self.store[i].item.expires_at {
                    Some(self.store[i].item.value.clone())
                } else {
                    None
                }
            },
            None => {
                proof {
                    assoc::lemma_lookup_absent(self.entries(), key@);
                }
                None
            },
        }
    }

    /// Inserts or atomically replaces the entry for `key`, stamping it to
    /// expire `ttl` (or the default lifetime) after `now`; the expiry
    /// saturates at the largest representable instant.
    pub fn set(&mut self, key: String, value: String, ttl: Option<u64>, now: u64)
        requires
            old(self).wf(),
        ensures
            final(self).wf(),
            final(self).entry_of(key@) == Option::Some(
                (
                    value@,
                    now.saturating_add(
                        match ttl {
                            Option::Some(t) => t,
                            Option::None => old(self).spec_default_ttl(),
                        },
                    ),
                ),
            ),
            forall|k2: Seq<char>|
                k2 != key@ ==> final(self).entry_of(k2) == old(self).entry_of(k2),
            final(self).spec_default_ttl() == old(self).spec_default_ttl(),
    {
        let ghost es0 = self.entries();
        let t = match ttl {
            Some(t) => t,
            None => self.default_ttl,
        };
        let expires_at = now.saturating_add(t);
        let item = CacheItem { value, expires_at };
        let ghost new_e = (item.value@, item.expires_at);
        match self.find_key(&key) {
            Some(i) => {
                let _old_slot = self.store.remove(i);
                self.store.insert(i, CacheSlot { key, item });
                proof {
                    assert(self.entries() =~= es0.update(i as int, (es0[i as int].0, new_e)));
                    assert forall|k2: Seq<char>| k2 != es0[i as int].0 implies assoc::lookup(
                        self.entries(),
                        k2,
                    ) == assoc::lookup(es0, k2) by {
                        assoc::lemma_lookup_update_value(es0, i as int, new_e, k2);
                    }
                    assoc::lemma_lookup_update_value(es0, i as int, new_e, es0[i as int].0);
                    assert forall|a: int, b: int|
                        0 <= a < b < self.entries().len() implies self.entries()[a].0
                        != self.entries()[b].0 by {
                        assert(self.entries()[a].0 == es0[a].0);
                        assert(self.entries()[b].0 == es0[b].0);
                    }
                }
            },
            None => {
                let ghost kview = key@;
                self.store.push(CacheSlot { key, item });
                proof {
                    let single = seq![(kview, new_e)];
                    assert(self.entries() =~= es0 + single);
                    assoc::lemma_lookup_absent(es0, kview);
                    assert forall|k2: Seq<char>| k2 != kview implies assoc::lookup(
                        self.entries(),
                        k2,
                    ) == assoc::lookup(es0, k2) by {
                        assoc::lemma_lookup_append(es0, single, k2);
                        assert(forall|j: int| 0 <= j < single.len() ==> single[j].0 != k2);
                        assoc::lemma_lookup_absent(single, k2);
                    }
                    assoc::lemma_lookup_append(es0, single, kview);
                    assert(assoc::lookup(single, kview) == Some(new_e));
                    assert forall|a: int, b: int|
                        0 <= a < b < self.entries().len() implies self.entries()[a].0
                        != self.entries()[b].0 by {
                        if b == self.entries().len() - 1 {
                            assert(self.entries()[a].0 == es0[a].0);
                            assoc::lemma_lookup_none_no_key(es0, kview);
                        } else {
                            assert(self.entries()[a].0 == es0[a].0);
                            assert(self.entries()[b].0 == es0[b].0);
                        }
                    }
                }
            },
        }
    }

    /// Removes the entry for `key` outright; removing an absent key is a
    /// no-op.
    pub fn delete(&mut self, key: &str)
        requires
            old(self).wf(),
        ensures
            final(self).wf(),
            final(self).entry_of(key@) is None,
            forall|k2: Seq<char>|
                k2 != key@ ==> final(self).entry_of(k2) == old(self).entry_of(k2),
            final(self).spec_default_ttl() == old(self).spec_default_ttl(),
    {
        let ghost es0 = self.entries();
        match self.find_key(key) {
            Some(i) => {
                let _removed = self.store.remove(i);
                proof {
                    assert(self.entries() =~= es0.take(i as int) + es0.skip(i + 1));
                    assert forall|k2: Seq<char>| true implies assoc::lookup(self.entries(), k2)
                        == if assoc::lookup(es0.take(i as int), k2) is Some {
                        assoc::lookup(es0.take(i as int), k2)
                    } else {
                        assoc::lookup(es0.skip(i + 1), k2)
                    } by {
                        assoc::lemma_lookup_append(es0.take(i as int), es0.skip(i + 1), k2);
                    }
                    assert(forall|j: int| 0 <= j < i ==> es0.take(i as int)[j] == es0[j]);
                    assert(forall|j: int|
                        0 <= j < es0.len() - i - 1 ==> #[trigger] es0.skip(i + 1)[j] == es0[j + i
                            + 1]);
                    assoc::lemma_lookup_absent(es0.take(i as int), key@);
                    assert(forall|j: int|
                        0 <= j < es0.skip(i + 1).len() ==> (#[trigger] es0.skip(i + 1)[j]).0
                            != key@);
                    assoc::lemma_lookup_absent(es0.skip(i + 1), key@);
                    assert forall|k2: Seq<char>| k2 != key@ implies assoc::lookup(
                        self.entries(),
                        k2,
                    ) == assoc::lookup(es0, k2) by {
                        if assoc::lookup(es0.take(i as int), k2) is None {
                            lemma_lookup_take_skip(es0, i as int, k2);
                        } else {
                            lemma_lookup_take_some(es0, i as int, k2);
                        }
                    }
                    assert forall|a: int, b: int|
                        0 <= a < b < self.entries().len() implies self.entries()[a].0
                        != self.entries()[b].0 by {
                        lemma_remove_index_keys(es0, i as int, a, b);
                    }
                }
            },
            None => {
                proof {
                    assoc::lemma_lookup_absent(es0, key@);
                }
            },
        }
    }

    /// Sweep: removes exactly the entries whose expiry is at or before
    /// `now`; every still-valid entry survives unchanged.
    pub fn cleanup_expired(&mut self, now: u64)
        requires
            old(self).wf(),
        ensures
            final(self).wf(),
            forall|k: Seq<char>|
                final(self).entry_of(k) == match old(self).entry_of(k) {
                    Option::None => Option::<(Seq<char>, u64)>::None,
                    Option::Some(e) => if now < e.1 {
                        Option::Some(e)
                    } else {
                        Option::<(Seq<char>, u64)>::None
                    },
                },
            final(self).spec_default_ttl() == old(self).spec_default_ttl(),
    {
        let ghost es0 = self.entries();
        let n = self.store.len();
        let mut kept: Vec<CacheSlot> = Vec::new();
        let mut i: usize = 0;
        while i < n
            invariant
                n == self.store@.len(),
                i <= n,
                self.entries() == es0,
                kept@.map_values(|s: CacheSlot| (s.key@, (s.item.value@, s.item.expires_at)))
                    == unexpired(es0.take(i as int), now),
            decreases n - i,
        {
            let ghost kept_before = kept@.map_values(
                |s: CacheSlot| (s.key@, (s.item.value@, s.item.expires_at)),
            );
            let ghost single = seq![es0[i as int]];
            proof {
                assert(es0[i as int] == (self.store@[i as int].key@, (
                    self.store@[i as int].item.value@,
                    self.store@[i as int].item.expires_at,
                )));
                assert(es0.take(i + 1) =~= es0.take(i as int) + single);
                lemma_unexpired_append(es0.take(i as int), single, now);
                assert(single.drop_first() =~= Seq::empty());
                assert(unexpired(Seq::empty(), now) == Seq::<(Seq<char>, (Seq<char>, u64))>::empty());
            }
            if now < self.store[i].item.expires_at {
                let slot = CacheSlot {
                    key: self.store[i].key.clone(),
                    item: CacheItem {
                        value: self.store[i].item.value.clone(),
                        expires_at: self.store[i].item.expires_at,
                    },
                };
                kept.push(slot);
                proof {
                    assert(unexpired(single, now) =~= single);
                    assert(kept@.map_values(
                        |s: CacheSlot| (s.key@, (s.item.value@, s.item.expires_at)),
                    ) =~= kept_before + single);
                }
            } else {
                proof {
                    assert(unexpired(single, now) =~= Seq::empty());
                    assert(kept_before + Seq::<(Seq<char>, (Seq<char>, u64))>::empty()
                        =~= kept_before);
                }
            }
            i = i + 1;
        }
        proof {
            assert(es0.take(n as int) =~= es0);
        }
        self.store = kept;
        proof {
            lemma_unexpired_unique(es0, now);
            assert(self.entries() == unexpired(es0, now));
            assert forall|k: Seq<char>| true implies self.entry_of(k) == match assoc::lookup(
                es0,
                k,
            ) {
                Option::None => Option::<(Seq<char>, u64)>::None,
                Option::Some(e) => if now < e.1 {
                    Option::Some(e)
                } else {
                    Option::<(Seq<char>, u64)>::None
                },
            } by {
                lemma_unexpired_lookup(es0, now, k);
            }
        }
    }
}

/// Law: once an entry `(v, expires)` stands for `k`, a read strictly before
/// `expires` returns `v`, and a read at or after `expires` returns nothing.
pub proof fn lemma_set_then_get(c: MemoryCache, k: Seq<char>, v: Seq<char>, expires: u64, t: u64)
    requires
        c.entry_of(k) == Option::Some((v, expires)),
    ensures
        t < expires ==> c.value_at(k, t) == Option::Some(v),
        t >= expires ==> c.value_at(k, t) is None,
{
}

proof fn lemma_lookup_take_skip<V>(es: Seq<(Seq<char>, V)>, i: int, k: Seq<char>)
    requires
        0 <= i < es.len(),
        assoc::lookup(es.take(i), k) is None,
        es[i].0 != k,
    ensures
        assoc::lookup(es.skip(i + 1), k) == assoc::lookup(es, k),
{
    assert(es =~= es.take(i) + (seq![es[i]] + es.skip(i + 1)));
    assoc::lemma_lookup_append(es.take(i), seq![es[i]] + es.skip(i + 1), k);
    assoc::lemma_lookup_append(seq![es[i]], es.skip(i + 1), k);
    assert(forall|j: int| 0 <= j < 1 ==> seq![es[i]][j].0 != k);
    assoc::lemma_lookup_absent(seq![es[i]], k);
}

proof fn lemma_lookup_take_some<V>(es: Seq<(Seq<char>, V)>, i: int, k: Seq<char>)
    requires
        0 <= i <= es.len(),
        assoc::lookup(es.take(i), k) is Some,
    ensures
        assoc::lookup(es.take(i), k) == assoc::lookup(es, k),
{
    assert(es =~= es.take(i) + es.skip(i));
    assoc::lemma_lookup_append(es.take(i), es.skip(i), k);
}

proof fn lemma_remove_index_keys<V>(es: Seq<(Seq<char>, V)>, i: int, a: int, b: int)
    requires
        0 <= i < es.len(),
        assoc::unique_keys(es),
        0 <= a < b < es.len() - 1,
    ensures
        (es.take(i) + es.skip(i + 1))[a].0 != (es.take(i) + es.skip(i + 1))[b].0,
{
    let out = es.take(i) + es.skip(i + 1);
    let oa = if a < i {
        a
    } else {
        a + 1
    };
    let ob = if b < i {
        b
    } else {
        b + 1
    };
    assert(out[a] == es[oa]);
    assert(out[b] == es[ob]);
}

} // verus!
