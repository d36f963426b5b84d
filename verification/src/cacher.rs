//! A cache that keeps values for at least a given duration, and drops the
//! stale ones when it is accessed.
use vstd::prelude::*;

use crate::keyed::{keys_distinct, lemma_pairs_map_at, lemma_pairs_map_dom, pairs_map};
use crate::time::{elapsed_between, elapsed_nanos, Clock, Duration};

verus! {

/// Keys by which a cache finds its values again: two keys are the same key
/// exactly when their views are equal.
pub trait CacheKey: View {
    fn same_key(&self, other: &Self) -> (r: bool)
        ensures
            r == (self@ == other@),
    ;
}

impl CacheKey for String {
    fn same_key(&self, other: &Self) -> (r: bool) {
        *self == *other
    }
}

impl<'a> CacheKey for &'a str {
    fn same_key(&self, other: &Self) -> (r: bool) {
        let a: String = (*self).to_owned();
        let b: String = (*other).to_owned();
        a == b
    }
}

/// The abstract state of a cache: for each key, the cached value and the
/// moment (in nanoseconds) at which it was stored; the moment of the last
/// cleanup; and the two durations that the cache was made with.
#[verifier::reject_recursive_types(KV)]
pub struct CacheState<KV, V> {
    pub entries: Map<KV, (V, u128)>,
    pub last_clean: u128,
    pub cache_duration: nat,
    pub min_clean_interval: nat,
}

/// A value stored at `stored` is still fresh at `now` while less than
/// `lifetime` nanoseconds have passed.
pub open spec fn is_fresh(stored: u128, now: u128, lifetime: nat) -> bool {
    elapsed_nanos(now as int, stored as int) < lifetime
}

impl<KV, V> CacheState<KV, V> {
    /// What a lookup of `k` at `now` answers: the value, if it is there and fresh.
    pub open spec fn lookup(self, k: KV, now: u128) -> Option<V> {
        if self.entries.contains_key(k) && is_fresh(self.entries[k].1, now, self.cache_duration) {
            Some(self.entries[k].0)
        } else {
            None
        }
    }

    /// The state after a cleanup at `now`: only fresh values remain, and the
    /// cleanup moment is `now`.
    pub open spec fn swept(self, now: u128) -> CacheState<KV, V> {
        CacheState {
            entries: Map::new(
                |k: KV| self.entries.contains_key(k) && is_fresh(self.entries[k].1, now, self.cache_duration),
                |k: KV| self.entries[k],
            ),
            last_clean: now,
            ..self
        }
    }

    /// Whether a cleanup is due at `now`: at least the minimal clean interval
    /// passed since the last one.
    pub open spec fn cleanup_due(self, now: u128) -> bool {
        elapsed_nanos(now as int, self.last_clean as int) >= self.min_clean_interval
    }

    /// The state after the cleanup that an insertion at `now` performs when it is due.
    pub open spec fn maintained(self, now: u128) -> CacheState<KV, V> {
        if self.cleanup_due(now) {
            self.swept(now)
        } else {
            self
        }
    }

    /// The state after `v` was stored under `k` at moment `t`.
    pub open spec fn stored(self, k: KV, v: V, t: u128) -> CacheState<KV, V> {
        CacheState { entries: self.entries.insert(k, (v, t)), ..self }
    }

    /// The outcome of a get-or-insert of `k`: after the due cleanup at `now`,
    /// either `k` was present and `r` is its value, with nothing else changed,
    /// or `r` is a new value, stored under `k` at moment `stamp`.
    pub open spec fn get_or_insert_outcome(
        self,
        k: KV,
        now: u128,
        stamp: u128,
        r: V,
        next: CacheState<KV, V>,
    ) -> bool {
        let mid = self.maintained(now);
        if mid.entries.contains_key(k) {
            &&& r == mid.entries[k].0
            &&& next == mid
        } else {
            next == mid.stored(k, r, stamp)
        }
    }
}

/// A structure that caches values associated to keys for a minimal given
/// duration. Checks are performed when it is accessed.
pub struct Cacher<K: View, V> {
    entries: Vec<(K, (V, u128))>,
    cache_duration: Duration,
    min_clean_interval: Duration,
    last_clean_instant: u128,
    clock: Clock,
}

impl<K: View, V> View for Cacher<K, V> {
    type V = CacheState<K::V, V>;

    closed spec fn view(&self) -> CacheState<K::V, V> {
        CacheState {
            entries: pairs_map(self.entries@),
            last_clean: self.last_clean_instant,
            cache_duration: self.cache_duration.spec_nanos(),
            min_clean_interval: self.min_clean_interval.spec_nanos(),
        }
    }
}

impl<K: View, V> Cacher<K, V> {
    #[verifier::type_invariant]
    spec fn keys_are_distinct(self) -> bool {
        keys_distinct(self.entries@)
    }
}

impl<K: CacheKey, V> Cacher<K, V> {
    /// Creates a cacher whose values last at least `cache_duration` and whose
    /// minimal clean interval is `min_clean_interval`. Its clock starts now, so
    /// the last cleanup happened at moment zero.
    pub fn new(cache_duration: Duration, min_clean_interval: Duration) -> (c: Cacher<K, V>)
        ensures
            c@.entries == Map::<K::V, (V, u128)>::empty(),
            c@.last_clean == 0,
            c@.cache_duration == cache_duration.spec_nanos(),
            c@.min_clean_interval == min_clean_interval.spec_nanos(),
    {
        Cacher {
            entries: Vec::new(),
            cache_duration,
            min_clean_interval,
            last_clean_instant: 0,
            clock: Clock::start(),
        }
    }

    /// The moment, in nanoseconds on the cacher's clock, of the last cleanup.
    pub fn last_clean_instant(&self) -> (t: u128)
        ensures
            t == self@.last_clean,
    {
        self.last_clean_instant
    }

    /// The current moment on the cacher's clock.
    pub fn now(&self) -> u128 {
        self.clock.now()
    }

    fn find(&self, key: &K) -> (r: Option<usize>)
        ensures
            match r {
                Some(i) => i < self.entries@.len() && self.entries@[i as int].0@ == key@,
                None => forall|i: int| 0 <= i < self.entries@.len() ==> self.entries@[i].0@ != key@,
            },
    {
        let mut i: usize = 0;
        while i < self.entries.len()
            invariant
                i <= self.entries@.len(),
                forall|j: int| 0 <= j < i ==> self.entries@[j].0@ != key@,
            decreases self.entries@.len() - i,
        {
            if self.entries[i].0.same_key(key) {
                return Some(i);
            }
            i = i + 1;
        }
        None
    }

    /// The value associated to `key` at moment `now`: `None` if no value has
    /// been inserted yet or if the value is expired.
    pub fn get_at(&self, key: &K, now: u128) -> (r: Option<&V>)
        ensures
            match r {
                Some(v) => self@.lookup(key@, now) == Some(*v),
                None => self@.lookup(key@, now) is None,
            },
    {
        proof {
            use_type_invariant(self);
        }
        match self.find(key) {
            Some(i) => {
                proof {
                    lemma_pairs_map_at(self.entries@, i as int);
                }
                let entry = &self.entries[i];
                if elapsed_between(now, entry.1.1) < self.cache_duration.as_nanos() {
                    Some(&entry.1.0)
                } else {
                    None
                }
            },
            None => {
                proof {
                    lemma_pairs_map_dom(self.entries@, key@);
                }
                None
            },
        }
    }

    /// Retrieves the value associated to the given key: `None` if no value has
    /// been inserted yet or if the value is expired on the cacher's clock.
    /// Use `get_or_insert` to insert.
    pub fn get(&self, key: &K) -> (r: Option<&V>)
        ensures
            exists|now: u128|
                match r {
                    Some(v) => self@.lookup(key@, now) == Some(*v),
                    None => self@.lookup(key@, now) is None,
                },
    {
        let now = self.clock.now();
        self.get_at(key, now)
    }
}

impl<K: CacheKey, V> Cacher<K, V> {
    /// Drops every value that is no longer fresh at `now`, and records `now`
    /// as the moment of the last cleanup.
    pub fn cleanup_at(&mut self, now: u128)
        ensures
            final(self)@ == old(self)@.swept(now),
    {
        proof {
            use_type_invariant(&*self);
        }
        let ghost orig = self.entries@;
        let lifetime = self.cache_duration.as_nanos();
        let mut rest: Vec<(K, (V, u128))> = Vec::new();
        std::mem::swap(&mut rest, &mut self.entries);
        let mut kept: Vec<(K, (V, u128))> = Vec::new();
        let ghost mut src: Seq<int> = Seq::empty();
        while rest.len() > 0
            invariant
                keys_distinct(orig),
                lifetime == self.cache_duration.spec_nanos(),
                rest@ == orig.take(rest@.len() as int),
                rest@.len() <= orig.len(),
                src.len() == kept@.len(),
                forall|x: int|
                    0 <= x < kept@.len() ==> rest@.len() <= #[trigger] src[x] < orig.len()
                        && kept@[x] == orig[src[x]] && is_fresh(orig[src[x]].1.1, now, lifetime as nat),
                forall|x: int, y: int| 0 <= x < y < kept@.len() ==> src[x] > src[y],
                forall|i: int|
                    rest@.len() <= i < orig.len() && is_fresh(orig[i].1.1, now, lifetime as nat)
                        ==> exists|x: int| 0 <= x < kept@.len() && src[x] == i,
            decreases rest@.len(),
        {
            let ghost before = rest@.len() as int;
            let entry = rest.pop().unwrap();
            assert(entry == orig[before - 1]);
            assert(rest@ =~= orig.take(before - 1));
            if elapsed_between(now, entry.1.1) < lifetime {
                kept.push(entry);
                proof {
                    let ghost old_src = src;
                    src = src.push(before - 1);
                    assert forall|i: int|
                        rest@.len() <= i < orig.len() && is_fresh(orig[i].1.1, now, lifetime as nat)
                        implies exists|x: int| 0 <= x < kept@.len() && src[x] == i by {
                        if i == before - 1 {
                            assert(src[kept@.len() - 1] == i);
                        } else {
                            let x = choose|x: int| 0 <= x < old_src.len() && old_src[x] == i;
                            assert(src[x] == i);
                        }
                    }
                }
            }
        }
        proof {
            assert forall|x: int, y: int| 0 <= x < y < kept@.len() implies kept@[x].0@ != kept@[y].0@ by {
                assert(src[x] > src[y]);
            }
            let old_state = old(self)@;
            let target = old_state.swept(now);
            assert forall|k: K::V| #[trigger] pairs_map(kept@).contains_key(k) == target.entries.contains_key(k) by {
                lemma_pairs_map_dom(kept@, k);
                lemma_pairs_map_dom(orig, k);
                if pairs_map(kept@).contains_key(k) {
                    let x = choose|x: int| 0 <= x < kept@.len() && kept@[x].0@ == k;
                    lemma_pairs_map_at(orig, src[x]);
                }
                if target.entries.contains_key(k) {
                    let i = choose|i: int| 0 <= i < orig.len() && orig[i].0@ == k;
                    lemma_pairs_map_at(orig, i);
                    let x = choose|x: int| 0 <= x < kept@.len() && src[x] == i;
                    assert(kept@[x].0@ == k);
                }
            }
            assert forall|k: K::V| #[trigger] pairs_map(kept@).contains_key(k) implies
                pairs_map(kept@)[k] == target.entries[k] by {
                lemma_pairs_map_dom(kept@, k);
                let x = choose|x: int| 0 <= x < kept@.len() && kept@[x].0@ == k;
                lemma_pairs_map_at(kept@, x);
                lemma_pairs_map_at(orig, src[x]);
            }
            assert(pairs_map(kept@) =~= target.entries);
        }
        self.entries = kept;
        self.last_clean_instant = now;
    }
}

impl<K: CacheKey, V> Cacher<K, V> {
    fn sweep_if_due(&mut self, now: u128)
        ensures
            final(self)@ == old(self)@.maintained(now),
    {
        if elapsed_between(now, self.last_clean_instant) >= self.min_clean_interval.as_nanos() {
            self.cleanup_at(now);
        }
    }

    fn insert_new(&mut self, key: K, content: V, t: u128)
        requires
            !old(self)@.entries.contains_key(key@),
        ensures
            final(self)@ == old(self)@.stored(key@, content, t),
            final(self).entries@.len() == old(self).entries@.len() + 1,
            final(self).entries@.last().1.0 == content,
    {
        proof {
            use_type_invariant(&*self);
            lemma_pairs_map_dom(self.entries@, key@);
        }
        let ghost before = self.entries@;
        let mut grown: Vec<(K, (V, u128))> = Vec::new();
        std::mem::swap(&mut grown, &mut self.entries);
        grown.push((key, (content, t)));
        proof {
            assert(grown@.drop_last() =~= before);
        }
        self.entries = grown;
    }

    /// The value associated to `key`, after the cleanup that is due at moment
    /// `now`. Only if no value is there is `producer` called: it makes one,
    /// which is stored with moment `now` and returned. Where a value is there,
    /// the producer need not even be callable.
    pub fn get_or_insert_at<F: FnOnce() -> V>(&mut self, key: K, now: u128, producer: F) -> (r: &V)
        requires
            old(self)@.maintained(now).entries.contains_key(key@) || call_requires(producer, ()),
        ensures
            old(self)@.get_or_insert_outcome(key@, now, now, *r, final(self)@),
            !old(self)@.maintained(now).entries.contains_key(key@) ==> call_ensures(producer, (), *r),
    {
        self.sweep_if_due(now);
        proof {
            use_type_invariant(&*self);
        }
        match self.find(&key) {
            Some(i) => {
                proof {
                    lemma_pairs_map_at(self.entries@, i as int);
                }
                &self.entries[i].1.0
            },
            None => {
                proof {
                    lemma_pairs_map_dom(self.entries@, key@);
                }
                let content = producer();
                self.insert_new(key, content, now);
                let n = self.entries.len();
                &self.entries[n - 1].1.0
            },
        }
    }

    /// Retrieves the value associated to the given key. If no value has been
    /// inserted yet, the producer function is used to create the value, which
    /// is stored and returned. Before that, the stale values are dropped when
    /// the minimal clean interval has passed since the last cleanup.
    pub fn get_or_insert<F: FnOnce() -> V>(&mut self, key: K, producer: F) -> (r: &V)
        requires
            call_requires(producer, ()),
        ensures
            exists|now: u128, stamp: u128|
                #![trigger old(self)@.get_or_insert_outcome(key@, now, stamp, *r, final(self)@)]
                {
                    &&& old(self)@.get_or_insert_outcome(key@, now, stamp, *r, final(self)@)
                    &&& !old(self)@.maintained(now).entries.contains_key(key@) ==> call_ensures(producer, (), *r)
                },
    {
        let now = self.clock.now();
        self.sweep_if_due(now);
        proof {
            use_type_invariant(&*self);
        }
        match self.find(&key) {
            Some(i) => {
                proof {
                    lemma_pairs_map_at(self.entries@, i as int);
                }
                let r = &self.entries[i].1.0;
                assert(old(self)@.get_or_insert_outcome(key@, now, now, *r, self@));
                r
            },
            None => {
                proof {
                    lemma_pairs_map_dom(self.entries@, key@);
                }
                let content = producer();
                let stamp = self.clock.now();
                self.insert_new(key, content, stamp);
                let n = self.entries.len();
                let r = &self.entries[n - 1].1.0;
                assert(old(self)@.get_or_insert_outcome(key@, now, stamp, *r, self@));
                r
            },
        }
    }
}

/// A value stored under `k` at moment `t` is what a lookup of `k` answers
/// for as long as it is fresh, and nothing afterwards.
pub proof fn law_lookup_after_store<KV, V>(s: CacheState<KV, V>, k: KV, v: V, t: u128, now: u128)
    ensures
        s.stored(k, v, t).lookup(k, now) == (if is_fresh(t, now, s.cache_duration) {
            Some(v)
        } else {
            None
        }),
{
}

/// Storing a value under one key leaves what every other key answers unchanged.
pub proof fn law_store_keeps_other_keys<KV, V>(
    s: CacheState<KV, V>,
    k: KV,
    v: V,
    t: u128,
    other: KV,
    now: u128,
)
    requires
        other != k,
    ensures
        s.stored(k, v, t).lookup(other, now) == s.lookup(other, now),
{
}

/// A cleanup never changes what a lookup answers, at the moment of the
/// cleanup or at any later moment.
pub proof fn law_cleanup_keeps_lookups<KV, V>(s: CacheState<KV, V>, k: KV, now: u128, later: u128)
    requires
        now <= later,
    ensures
        s.swept(now).lookup(k, later) == s.lookup(k, later),
{
}

/// A cleanup drops every value that is stale at its moment.
pub proof fn law_cleanup_drops_stale<KV, V>(s: CacheState<KV, V>, k: KV, now: u128)
    requires
        s.entries.contains_key(k),
        !is_fresh(s.entries[k].1, now, s.cache_duration),
    ensures
        !s.swept(now).entries.contains_key(k),
{
}

/// A second cleanup at the same moment changes nothing.
pub proof fn law_cleanup_idempotent<KV, V>(s: CacheState<KV, V>, now: u128)
    ensures
        s.swept(now).swept(now) == s.swept(now),
{
    assert(s.swept(now).swept(now).entries =~= s.swept(now).entries);
}

/// While a value is fresh, a get-or-insert of its key answers that value and
/// stores nothing new: the producer is not called.
pub proof fn law_fresh_value_is_reused<KV, V>(
    s: CacheState<KV, V>,
    k: KV,
    v: V,
    now: u128,
    stamp: u128,
    r: V,
    next: CacheState<KV, V>,
)
    requires
        s.lookup(k, now) == Some(v),
        s.get_or_insert_outcome(k, now, stamp, r, next),
    ensures
        s.maintained(now).entries.contains_key(k),
        r == v,
        next == s.maintained(now),
{
}

/// One call on a cache, by what it does to the cache's state: a cleanup at a
/// moment, or a get-or-insert of a key at a moment that stores `value` at
/// moment `stamp` if the key is missing after the due cleanup.
pub enum CacheCall<KV, V> {
    Cleanup(u128),
    GetOrInsert(KV, u128, u128, V),
}

impl<KV, V> CacheCall<KV, V> {
    /// The moment at which the call looks at the cache.
    pub open spec fn moment(self) -> u128 {
        match self {
            CacheCall::Cleanup(m) => m,
            CacheCall::GetOrInsert(_, m, _, _) => m,
        }
    }
}

impl<KV, V> CacheState<KV, V> {
    /// The state after the call `c`.
    pub open spec fn after_call(self, c: CacheCall<KV, V>) -> CacheState<KV, V> {
        match c {
            CacheCall::Cleanup(m) => self.swept(m),
            CacheCall::GetOrInsert(k, m, stamp, v) => {
                let mid = self.maintained(m);
                if mid.entries.contains_key(k) {
                    mid
                } else {
                    mid.stored(k, v, stamp)
                }
            },
        }
    }

    /// The state after the calls `cs`, one after the other.
    pub open spec fn after_calls(self, cs: Seq<CacheCall<KV, V>>) -> CacheState<KV, V>
        decreases cs.len(),
    {
        if cs.len() == 0 {
            self
        } else {
            self.after_call(cs[0]).after_calls(cs.drop_first())
        }
    }
}

/// What a get-or-insert does to the state is the call `GetOrInsert` with the
/// value it answers.
pub proof fn law_get_or_insert_is_a_call<KV, V>(
    s: CacheState<KV, V>,
    k: KV,
    now: u128,
    stamp: u128,
    r: V,
    next: CacheState<KV, V>,
)
    requires
        s.get_or_insert_outcome(k, now, stamp, r, next),
    ensures
        next == s.after_call(CacheCall::GetOrInsert(k, now, stamp, r)),
{
}

/// A cached value lasts at least the cache duration: whatever calls, on any
/// keys, follow its storing at moment `t`, as long as they look at the cache
/// no later than a moment `t1` at which the value is still fresh, the value
/// stays stored as it was, and a lookup at `t1` answers it.
pub proof fn law_value_lasts_cache_duration<KV, V>(
    s: CacheState<KV, V>,
    k: KV,
    v: V,
    t: u128,
    cs: Seq<CacheCall<KV, V>>,
    t1: u128,
)
    requires
        s.entries.contains_key(k),
        s.entries[k] == (v, t),
        is_fresh(t, t1, s.cache_duration),
        forall|i: int| 0 <= i < cs.len() ==> (#[trigger] cs[i]).moment() <= t1,
    ensures
        s.after_calls(cs).entries.contains_key(k),
        s.after_calls(cs).entries[k] == (v, t),
        s.after_calls(cs).cache_duration == s.cache_duration,
        s.after_calls(cs).lookup(k, t1) == Some(v),
    decreases cs.len(),
{
    if cs.len() > 0 {
        let c = cs[0];
        assert(c.moment() <= t1);
        let next = s.after_call(c);
        assert(is_fresh(t, c.moment(), s.cache_duration));
        assert(next.entries.contains_key(k) && next.entries[k] == (v, t));
        let rest = cs.drop_first();
        assert forall|i: int| 0 <= i < rest.len() implies (#[trigger] rest[i]).moment() <= t1 by {
            assert(rest[i] == cs[i + 1]);
        }
        law_value_lasts_cache_duration(next, k, v, t, rest, t1);
    }
}

} // verus!
