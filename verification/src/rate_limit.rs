//! Per-key admission control over a sliding time window.
//!
//! Each key holds the ordered log of timestamps of its admitted calls. A call
//! is admitted when, after dropping timestamps that fell out of the trailing
//! window, fewer than the configured ceiling remain; the admitted call's own
//! timestamp is then appended. Time is supplied by the caller as a monotonic
//! reading in milliseconds, so the limiter itself never consults a clock.

use vstd::prelude::*;
use crate::assoc;
use crate::strutil::str_eq;

verus! {

/// The timestamps of `st` still inside the trailing window of length `w`
/// ending at `now`, in their original order.
pub open spec fn live(st: Seq<u64>, now: u64, w: u64) -> Seq<u64>
    decreases st.len(),
{
    if st.len() == 0 {
        Seq::empty()
    } else {
        let rest = live(st.drop_first(), now, w);
        if st[0] + w > now {
            seq![st[0]] + rest
        } else {
            rest
        }
    }
}

/// Purging distributes over concatenation.
pub proof fn lemma_live_append(a: Seq<u64>, b: Seq<u64>, now: u64, w: u64)
    ensures
        live(a + b, now, w) == live(a, now, w) + live(b, now, w),
    decreases a.len(),
{
    if a.len() == 0 {
        assert(a + b =~= b);
        assert(live(a, now, w) + live(b, now, w) =~= live(b, now, w));
    } else {
        assert((a + b)[0] == a[0]);
        assert((a + b).drop_first() =~= a.drop_first() + b);
        lemma_live_append(a.drop_first(), b, now, w);
        if a[0] + w > now {
            assert(seq![a[0]] + (live(a.drop_first(), now, w) + live(b, now, w)) =~= (seq![a[0]]
                + live(a.drop_first(), now, w)) + live(b, now, w));
        }
    }
}

/// A log whose every timestamp still qualifies is purged to itself.
pub proof fn lemma_live_all_fresh(st: Seq<u64>, now: u64, w: u64)
    requires
        forall|i: int| 0 <= i < st.len() ==> st[i] + w > now,
    ensures
        live(st, now, w) == st,
    decreases st.len(),
{
    if st.len() > 0 {
        assert(forall|i: int| 0 <= i < st.drop_first().len() ==> st.drop_first()[i] == st[i + 1]);
        lemma_live_all_fresh(st.drop_first(), now, w);
        assert(seq![st[0]] + st.drop_first() =~= st);
    }
}

/// A log whose every timestamp has expired is purged to nothing.
pub proof fn lemma_live_all_stale(st: Seq<u64>, now: u64, w: u64)
    requires
        forall|i: int| 0 <= i < st.len() ==> st[i] + w <= now,
    ensures
        live(st, now, w) == Seq::<u64>::empty(),
    decreases st.len(),
{
    if st.len() > 0 {
        assert(forall|i: int| 0 <= i < st.drop_first().len() ==> st.drop_first()[i] == st[i + 1]);
        lemma_live_all_stale(st.drop_first(), now, w);
    }
}

/// Whether a call at `t` is admitted against the log `st`: the live usage
/// is strictly below the ceiling.
pub open spec fn admitted_at(st: Seq<u64>, t: u64, ceiling: nat, w: u64) -> bool {
    live(st, t, w).len() < ceiling
}

/// One admission check at `t` as a pure transition of a key's log: the log
/// is purged, and the call's own timestamp appended exactly when admitted.
pub open spec fn admit_step(st: Seq<u64>, t: u64, ceiling: nat, w: u64) -> Seq<u64> {
    if admitted_at(st, t, ceiling, w) {
        live(st, t, w).push(t)
    } else {
        live(st, t, w)
    }
}

/// A key's log after a sequence of calls at the times `ts`, in order.
pub open spec fn replay_calls(st: Seq<u64>, ts: Seq<u64>, ceiling: nat, w: u64) -> Seq<u64>
    decreases ts.len(),
{
    if ts.len() == 0 {
        st
    } else {
        replay_calls(admit_step(st, ts[0], ceiling, w), ts.drop_first(), ceiling, w)
    }
}

/// Whether every call of the sequence `ts` is admitted, in order.
pub open spec fn all_admitted(st: Seq<u64>, ts: Seq<u64>, ceiling: nat, w: u64) -> bool
    decreases ts.len(),
{
    if ts.len() == 0 {
        true
    } else {
        &&& admitted_at(st, ts[0], ceiling, w)
        &&& all_admitted(admit_step(st, ts[0], ceiling, w), ts.drop_first(), ceiling, w)
    }
}

proof fn lemma_admit_run(st: Seq<u64>, ts: Seq<u64>, t_next: u64, ceiling: nat, w: u64)
    requires
        st.len() + ts.len() <= ceiling,
        forall|i: int| 0 <= i < st.len() ==> #[trigger] st[i] + w > t_next && st[i] <= t_next,
        forall|i: int| 0 <= i < ts.len() ==> #[trigger] ts[i] + w > t_next && ts[i] <= t_next,
        forall|i: int, j: int| 0 <= i <= j < ts.len() ==> ts[i] <= ts[j],
        forall|i: int, j: int|
            0 <= i < st.len() && 0 <= j < ts.len() ==> #[trigger] st[i] <= #[trigger] ts[j],
    ensures
        all_admitted(st, ts, ceiling, w),
        replay_calls(st, ts, ceiling, w) == st + ts,
    decreases ts.len(),
{
    if ts.len() == 0 {
        assert(st + ts =~= st);
    } else {
        let t0 = ts[0];
        assert(forall|i: int| 0 <= i < st.len() ==> #[trigger] st[i] + w > t0);
        lemma_live_all_fresh(st, t0, w);
        assert(admitted_at(st, t0, ceiling, w));
        let st2 = admit_step(st, t0, ceiling, w);
        assert(st2 == st.push(t0));
        let rest = ts.drop_first();
        assert(forall|i: int| 0 <= i < rest.len() ==> rest[i] == ts[i + 1]);
        lemma_admit_run(st2, rest, t_next, ceiling, w);
        assert(st2 + rest =~= st + ts);
    }
}

/// Law: starting from an untouched key, `ceiling` calls whose times all lie
/// within one window (in nondecreasing order) are all admitted; a further
/// call within that same window is denied.
pub proof fn lemma_ceiling_exhausted(ts: Seq<u64>, t_next: u64, ceiling: nat, w: u64)
    requires
        ts.len() == ceiling,
        forall|i: int| 0 <= i < ts.len() ==> #[trigger] ts[i] + w > t_next && ts[i] <= t_next,
        forall|i: int, j: int| 0 <= i <= j < ts.len() ==> ts[i] <= ts[j],
    ensures
        all_admitted(Seq::empty(), ts, ceiling, w),
        replay_calls(Seq::empty(), ts, ceiling, w) == ts,
        !admitted_at(ts, t_next, ceiling, w),
{
    lemma_admit_run(Seq::empty(), ts, t_next, ceiling, w);
    assert(Seq::empty() + ts =~= ts);
    lemma_live_all_fresh(ts, t_next, w);
}

/// Law: once a full window has elapsed past every recorded call, the next
/// call is admitted whatever the prior count, provided the ceiling is
/// positive at all.
pub proof fn lemma_window_reset(st: Seq<u64>, now: u64, ceiling: nat, w: u64)
    requires
        ceiling >= 1,
        forall|i: int| 0 <= i < st.len() ==> #[trigger] st[i] + w <= now,
    ensures
        admitted_at(st, now, ceiling, w),
{
    lemma_live_all_stale(st, now, w);
}

struct KeyWindow {
    key: String,
    stamps: Vec<u64>,
}

/// Sliding-log rate limiter: at most `ceiling` admitted calls per key within
/// any trailing window of `window_ms` milliseconds.
pub struct RateLimiter {
    limits: Vec<KeyWindow>,
    max_requests: usize,
    window_ms: u64,
}

/// The per-key log after a purge-and-sweep over every key: keys whose window
/// holds no qualifying timestamp disappear, the others keep their live log.
pub open spec fn swept(
    es: Seq<(Seq<char>, Seq<u64>)>,
    now: u64,
    w: u64,
) -> Seq<(Seq<char>, Seq<u64>)>
    decreases es.len(),
{
    if es.len() == 0 {
        Seq::empty()
    } else {
        let rest = swept(es.drop_first(), now, w);
        if live(es[0].1, now, w).len() > 0 {
            seq![(es[0].0, live(es[0].1, now, w))] + rest
        } else {
            rest
        }
    }
}

proof fn lemma_swept_lookup(es: Seq<(Seq<char>, Seq<u64>)>, now: u64, w: u64, k: Seq<char>)
    requires
        assoc::unique_keys(es),
    ensures
        assoc::lookup(swept(es, now, w), k) == match assoc::lookup(es, k) {
            Option::None => Option::<Seq<u64>>::None,
            Option::Some(st) => if live(st, now, w).len() > 0 {
                Option::Some(live(st, now, w))
            } else {
                Option::<Seq<u64>>::None
            },
        },
    decreases es.len(),
{
    if es.len() > 0 {
        let rest = es.drop_first();
        assert(forall|j: int| 0 <= j < rest.len() ==> rest[j] == es[j + 1]);
        lemma_swept_lookup(rest, now, w, k);
        if live(es[0].1, now, w).len() > 0 {
            let head = seq![(es[0].0, live(es[0].1, now, w))];
            assoc::lemma_lookup_append(head, swept(rest, now, w), k);
            if es[0].0 == k {
                assert(assoc::lookup(head, k) == Some(live(es[0].1, now, w)));
                assert(assoc::lookup(es, k) == Some(es[0].1));
            } else {
                assert(forall|j: int| 0 <= j < head.len() ==> head[j].0 != k);
                assoc::lemma_lookup_absent(head, k);
                assert(assoc::lookup(es, k) == assoc::lookup(rest, k));
            }
        } else {
            if es[0].0 == k {
                // the head's key vanishes with its empty live window, and no
                // later entry shares its key
                assert(forall|j: int| 0 <= j < rest.len() ==> rest[j].0 != k);
                assoc::lemma_lookup_absent(rest, k);
            }
        }
    }
}

proof fn lemma_swept_unique(es: Seq<(Seq<char>, Seq<u64>)>, now: u64, w: u64)
    requires
        assoc::unique_keys(es),
    ensures
        assoc::unique_keys(swept(es, now, w)),
    decreases es.len(),
{
    if es.len() > 0 {
        let rest = es.drop_first();
        assert(forall|j: int| 0 <= j < rest.len() ==> rest[j] == es[j + 1]);
        lemma_swept_unique(rest, now, w);
        if live(es[0].1, now, w).len() > 0 {
            let head = seq![(es[0].0, live(es[0].1, now, w))];
            let out = head + swept(rest, now, w);
            assert(forall|j: int| 0 <= j < rest.len() ==> rest[j].0 != es[0].0);
            assoc::lemma_lookup_absent(rest, es[0].0);
            lemma_swept_lookup(rest, now, w, es[0].0);
            assoc::lemma_lookup_none_no_key(swept(rest, now, w), es[0].0);
            assert(forall|i: int, j: int| 0 < i < j < out.len() ==> out[i].0 != out[j].0);
        }
    }
}

proof fn lemma_swept_append(
    a: Seq<(Seq<char>, Seq<u64>)>,
    b: Seq<(Seq<char>, Seq<u64>)>,
    now: u64,
    w: u64,
)
    ensures
        swept(a + b, now, w) == swept(a, now, w) + swept(b, now, w),
    decreases a.len(),
{
    if a.len() == 0 {
        assert(a + b =~= b);
        assert(swept(a, now, w) + swept(b, now, w) =~= swept(b, now, w));
    } else {
        assert((a + b).drop_first() =~= a.drop_first() + b);
        assert((a + b)[0] == a[0]);
        lemma_swept_append(a.drop_first(), b, now, w);
        if live(a[0].1, now, w).len() > 0 {
            let head = seq![(a[0].0, live(a[0].1, now, w))];
            assert(head + (swept(a.drop_first(), now, w) + swept(b, now, w)) =~= (head + swept(
                a.drop_first(),
                now,
                w,
            )) + swept(b, now, w));
        }
    }
}

impl RateLimiter {
    /// The keyed logs, as an association sequence of views.
    pub closed spec fn entries(self) -> Seq<(Seq<char>, Seq<u64>)> {
        self.limits@.map_values(|e: KeyWindow| (e.key@, e.stamps@))
    }

    /// Internal shape: no key occurs twice.
    pub open spec fn wf(self) -> bool {
        assoc::unique_keys(self.entries())
    }

    /// The admitted-call ceiling per window.
    pub closed spec fn ceiling(self) -> nat {
        self.max_requests as nat
    }

    /// The window length in milliseconds.
    pub closed spec fn window(self) -> u64 {
        self.window_ms
    }

    /// Whether the limiter tracks `k` at all; an absent key means zero usage.
    pub open spec fn has_key(self, k: Seq<char>) -> bool {
        assoc::lookup(self.entries(), k) is Some
    }

    /// The log recorded for `k`, empty when the key is untracked.
    pub open spec fn stamps_of(self, k: Seq<char>) -> Seq<u64> {
        match assoc::lookup(self.entries(), k) {
            Option::Some(st) => st,
            Option::None => Seq::empty(),
        }
    }

    /// Whether a call for `k` at `now` is admitted: current window usage is
    /// strictly below the ceiling.
    pub open spec fn admits(self, k: Seq<char>, now: u64) -> bool {
        admitted_at(self.stamps_of(k), now, self.ceiling(), self.window())
    }

    pub fn new(max_requests: usize, window_ms: u64) -> (r: RateLimiter)
        ensures
            r.wf(),
            r.ceiling() == max_requests as nat,
            r.window() == window_ms,
            forall|k: Seq<char>| !r.has_key(k),
            forall|k: Seq<char>| r.stamps_of(k) == Seq::<u64>::empty(),
    {
        let r = RateLimiter { limits: Vec::new(), max_requests, window_ms };
        proof {
            assert(r.entries() =~= Seq::empty());
        }
        r
    }

    /// The index of the entry for `key`, when one exists.
    fn find_key(&self, key: &str) -> (r: Option<usize>)
        ensures
            match r {
                Option::Some(i) => i < self.entries().len() && self.entries()[i as int].0 == key@
                    && (forall|j: int| 0 <= j < i ==> self.entries()[j].0 != key@),
                Option::None => forall|j: int|
                    0 <= j < self.entries().len() ==> self.entries()[j].0 != key@,
            },
    {
        let n = self.limits.len();
        let mut i: usize = 0;
        while i < n
            invariant
                n == self.limits@.len(),
                i <= n,
                forall|j: int| 0 <= j < i ==> self.entries()[j].0 != key@,
            decreases n - i,
        {
            if str_eq(self.limits[i].key.as_str(), key) {
                return Some(i);
            }
            i = i + 1;
        }
        None
    }

    /// Drops the timestamps of `stamps` that fell out of the window.
    fn purge(stamps: &Vec<u64>, now: u64, window_ms: u64) -> (r: Vec<u64>)
        ensures
            r@ == live(stamps@, now, window_ms),
    {
        let n = stamps.len();
        let mut r: Vec<u64> = Vec::new();
        let mut i: usize = 0;
        while i < n
            invariant
                n == stamps@.len(),
                i <= n,
                r@ == live(stamps@.take(i as int), now, window_ms),
            decreases n - i,
        {
            let t = stamps[i];
            let keep = if window_ms > now {
                true
            } else {
                t > now - window_ms
            };
            let ghost prev = stamps@.take(i as int);
            let ghost single = seq![stamps@[i as int]];
            proof {
                assert(stamps@.take(i + 1) =~= prev + single);
                lemma_live_append(prev, single, now, window_ms);
                assert(single.drop_first() =~= Seq::<u64>::empty());
                assert(live(Seq::<u64>::empty(), now, window_ms) == Seq::<u64>::empty());
                if keep {
                    assert(live(single, now, window_ms) =~= seq![t]);
                    assert(r@.push(t) =~= r@ + seq![t]);
                } else {
                    assert(live(single, now, window_ms) =~= Seq::<u64>::empty());
                    assert(r@ + Seq::<u64>::empty() =~= r@);
                }
            }
            if keep {
                r.push(t);
            }
            i = i + 1;
        }
        proof {
            assert(stamps@.take(n as int) =~= stamps@);
        }
        r
    }

    /// How one `check_rate_limit` call for `k` at `now` takes `pre` to
    /// `post`: the key's log is purged and extended by `now` exactly when
    /// the call was admitted, every other key is untouched, and the
    /// configuration stands.
    pub open spec fn stepped(pre: RateLimiter, post: RateLimiter, k: Seq<char>, now: u64) -> bool {
        &&& post.wf()
        &&& post.stamps_of(k) == admit_step(pre.stamps_of(k), now, pre.ceiling(), pre.window())
        &&& post.has_key(k)
        &&& forall|k2: Seq<char>| k2 != k ==> post.stamps_of(k2) == pre.stamps_of(k2)
        &&& forall|k2: Seq<char>| k2 != k ==> (post.has_key(k2) <==> pre.has_key(k2))
        &&& post.ceiling() == pre.ceiling()
        &&& post.window() == pre.window()
    }

    /// Admission check and consumption in one step: purges the key's log,
    /// admits iff its live usage is below the ceiling, and records the call
    /// only when admitted. A denied call changes no usage.
    pub fn check_rate_limit(&mut self, key: &str, now: u64) -> (admitted: bool)
        requires
            old(self).wf(),
        ensures
            admitted == old(self).admits(key@, now),
            RateLimiter::stepped(*old(self), *final(self), key@, now),
    {
        let ghost es0 = self.entries();
        match self.find_key(key) {
            Some(i) => {
                proof {
                    assoc::lemma_lookup_index(es0, i as int);
                }
                let mut entry = self.limits.remove(i);
                let purged = Self::purge(&entry.stamps, now, self.window_ms);
                entry.stamps = purged;
                let admitted = entry.stamps.len() < self.max_requests;
                if admitted {
                    entry.stamps.push(now);
                }
                let ghost new_st = entry.stamps@;
                self.limits.insert(i, entry);
                proof {
                    assert(self.entries() =~= es0.update(i as int, (key@, new_st)));
                    assert((key@, new_st) == (es0[i as int].0, new_st));
                    assert forall|k2: Seq<char>| k2 != key@ implies assoc::lookup(
                        self.entries(),
                        k2,
                    ) == assoc::lookup(es0, k2) by {
                        assoc::lemma_lookup_update_value(es0, i as int, new_st, k2);
                    }
                    assoc::lemma_lookup_update_value(es0, i as int, new_st, key@);
                    assert(assoc::lookup(self.entries(), key@) == Some(new_st));
                    assert forall|a: int, b: int|
                        0 <= a < b < self.entries().len() implies self.entries()[a].0
                        != self.entries()[b].0 by {
                        assert(self.entries()[a].0 == es0[a].0);
                        assert(self.entries()[b].0 == es0[b].0);
                    }
                }
                admitted
            },
            None => {
                proof {
                    assoc::lemma_lookup_absent(es0, key@);
                }
                let admitted = 0 < self.max_requests;
                let mut stamps: Vec<u64> = Vec::new();
                if admitted {
                    stamps.push(now);
                }
                let ghost new_st = stamps@;
                let entry = KeyWindow { key: key.to_owned(), stamps };
                self.limits.push(entry);
                proof {
                    assert(live(Seq::<u64>::empty(), now, old(self).window()) == Seq::<
                        u64,
                    >::empty());
                    if admitted {
                        assert(new_st =~= Seq::<u64>::empty().push(now));
                    }
                    let single = seq![(key@, new_st)];
                    assert(self.entries() =~= es0 + single);
                    assert forall|k2: Seq<char>| k2 != key@ implies assoc::lookup(
                        self.entries(),
                        k2,
                    ) == assoc::lookup(es0, k2) by {
                        assoc::lemma_lookup_append(es0, single, k2);
                        assert(forall|j: int| 0 <= j < single.len() ==> single[j].0 != k2);
                        assoc::lemma_lookup_absent(single, k2);
                    }
                    assoc::lemma_lookup_append(es0, single, key@);
                    assert(assoc::lookup(single, key@) == Some(new_st));
                    assert(assoc::lookup(self.entries(), key@) == Some(new_st));
                    assert forall|a: int, b: int|
                        0 <= a < b < self.entries().len() implies self.entries()[a].0
                        != self.entries()[b].0 by {
                        if b == self.entries().len() - 1 {
                            assert(self.entries()[a].0 == es0[a].0);
                            assoc::lemma_lookup_none_no_key(es0, key@);
                        } else {
                            assert(self.entries()[a].0 == es0[a].0);
                            assert(self.entries()[b].0 == es0[b].0);
                        }
                    }
                }
                admitted
            },
        }
    }

    /// Periodic sweep: every key's log is purged to its live timestamps, and
    /// keys left with no qualifying entry are removed outright, bounding
    /// memory growth.
    pub fn cleanup_old_entries(&mut self, now: u64)
        requires
            old(self).wf(),
        ensures
            final(self).wf(),
            forall|k: Seq<char>|
                final(self).stamps_of(k) == live(old(self).stamps_of(k), now, old(self).window()),
            forall|k: Seq<char>|
                final(self).has_key(k) <==> live(
                    old(self).stamps_of(k),
                    now,
                    old(self).window(),
                ).len() > 0,
            final(self).ceiling() == old(self).ceiling(),
            final(self).window() == old(self).window(),
    {
        let ghost es0 = self.entries();
        let n = self.limits.len();
        let mut kept: Vec<KeyWindow> = Vec::new();
        let mut i: usize = 0;
        while i < n
            invariant
                n == self.limits@.len(),
                i <= n,
                self.entries() == es0,
                kept@.map_values(|e: KeyWindow| (e.key@, e.stamps@)) == swept(
                    es0.take(i as int),
                    now,
                    self.window_ms,
                ),
                self.window() == self.window_ms,
            decreases n - i,
        {
            let purged = Self::purge(&self.limits[i].stamps, now, self.window_ms);
            let ghost kept_before = kept@.map_values(|e: KeyWindow| (e.key@, e.stamps@));
            let ghost single = seq![es0[i as int]];
            proof {
                assert(es0[i as int] == (self.limits@[i as int].key@, self.limits@[i as int].stamps@));
                assert(es0.take(i + 1) =~= es0.take(i as int) + single);
                lemma_swept_append(es0.take(i as int), single, now, self.window_ms);
                assert(single.drop_first() =~= Seq::empty());
                assert(swept(Seq::empty(), now, self.window_ms) == Seq::<(Seq<char>, Seq<u64>)>::empty());
            }
            if purged.len() > 0 {
                let entry = KeyWindow { key: self.limits[i].key.clone(), stamps: purged };
                kept.push(entry);
                proof {
                    assert(swept(single, now, self.window_ms) =~= seq![(es0[i as int].0, live(es0[i as int].1, now, self.window_ms))]);
                    assert(kept@.map_values(|e: KeyWindow| (e.key@, e.stamps@)) =~= kept_before
                        + swept(single, now, self.window_ms));
                }
            } else {
                proof {
                    assert(live(es0[i as int].1, now, self.window_ms).len() == 0);
                    assert(swept(single, now, self.window_ms) =~= Seq::empty());
                    assert(kept_before + Seq::<(Seq<char>, Seq<u64>)>::empty() =~= kept_before);
                }
            }
            i = i + 1;
        }
        proof {
            assert(es0.take(n as int) =~= es0);
        }
        self.limits = kept;
        proof {
            lemma_swept_unique(es0, now, self.window_ms);
            assert(self.entries() == swept(es0, now, self.window_ms));
            assert forall|k: Seq<char>| true implies {
                &&& self.stamps_of(k) == live(old(self).stamps_of(k), now, old(self).window())
                &&& (self.has_key(k) <==> live(
                    old(self).stamps_of(k),
                    now,
                    old(self).window(),
                ).len() > 0)
            } by {
                lemma_swept_lookup(es0, now, old(self).window(), k);
                if assoc::lookup(es0, k) is None {
                    assert(live(Seq::<u64>::empty(), now, old(self).window()) == Seq::<
                        u64,
                    >::empty());
                } else {
                    let st = old(self).stamps_of(k);
                    if live(st, now, old(self).window()).len() == 0 {
                        assert(live(st, now, old(self).window()) =~= Seq::<u64>::empty());
                    }
                }
            }
        }
    }
}

} // verus!
