//! The bounded, TTL-expiring cache: a unique-key store of immutable
//! entries under a global byte-size ceiling, evicting the
//! least-recently-inserted entry first.

use vstd::prelude::*;
use crate::key::{CacheKey, KeyView};
use crate::entry::{CacheEntry, EntryView, entry_wf};

verus! {

/// Byte-size ceiling used when none is configured: 150 MiB.
pub const DEFAULT_MAX_BYTES: usize = 150 * 1024 * 1024;

/// Time-to-live used when none is configured: one hour.
pub const DEFAULT_TTL_SECS: u64 = 3600;

/// The mathematical value of the cache: its slots in storage order.
pub type CacheView = Seq<(KeyView, EntryView)>;

/// An entry is fresh at `now` when its age is strictly under `ttl`.
pub open spec fn live(e: EntryView, now: u64, ttl: u64) -> bool {
    now - e.inserted_at < ttl
}

/// No two slots share a key.
pub open spec fn unique_keys(s: CacheView) -> bool {
    forall|i: int, j: int| 0 <= i < j < s.len() ==> (#[trigger] s[i]).0 != (#[trigger] s[j]).0
}

/// Every entry of the cache is well formed.
pub open spec fn entries_wf(s: CacheView) -> bool {
    forall|i: int| 0 <= i < s.len() ==> entry_wf((#[trigger] s[i]).1)
}

/// The sum of the recorded sizes of all slots.
pub open spec fn total_size(s: CacheView) -> int
    decreases s.len(),
{
    if s.len() == 0 {
        0
    } else {
        total_size(s.drop_last()) + s.last().1.size
    }
}

/// The index of the first slot holding key `k`, or -1 when none does.
pub open spec fn find_idx(s: CacheView, k: KeyView) -> int
    decreases s.len(),
{
    if s.len() == 0 {
        -1
    } else if s[0].0 == k {
        0
    } else {
        let r = find_idx(s.drop_first(), k);
        if r < 0 {
            -1
        } else {
            r + 1
        }
    }
}

/// The entry stored under key `k`, if any, expired or not.
pub open spec fn spec_get(s: CacheView, k: KeyView) -> Option<EntryView> {
    if find_idx(s, k) >= 0 {
        Some(s[find_idx(s, k)].1)
    } else {
        None
    }
}

/// What a lookup at time `now` observes: the stored entry only when it is
/// present and fresh; an expired entry is as absent as a missing one.
pub open spec fn spec_lookup(s: CacheView, k: KeyView, now: u64, ttl: u64) -> Option<EntryView> {
    match spec_get(s, k) {
        Some(e) => if live(e, now, ttl) {
            Some(e)
        } else {
            None
        },
        None => None,
    }
}

/// The slot an eviction pass removes next: the first slot among those
/// with the oldest insertion time. Taking the first such slot makes the
/// tie-break deterministic: equal timestamps fall to storage order.
pub open spec fn min_idx(s: CacheView) -> int
    decreases s.len(),
{
    if s.len() <= 1 {
        0
    } else {
        let m = min_idx(s.drop_last());
        if s.last().1.inserted_at < s[m].1.inserted_at {
            s.len() - 1
        } else {
            m
        }
    }
}

/// The cache after an insert of entry `e` under key `k`: the slot holding
/// `k`, if any, is replaced; either way the new slot sits at the end, as
/// the most recent insertion.
pub open spec fn insert_model(s: CacheView, k: KeyView, e: EntryView) -> CacheView {
    if find_idx(s, k) >= 0 {
        s.remove(find_idx(s, k)).push((k, e))
    } else {
        s.push((k, e))
    }
}

/// The cache after an eviction pass under ceiling `max`: while the total
/// size exceeds the ceiling and more than one slot remains, the oldest
/// slot is removed. A single remaining slot is never removed, so one
/// entry larger than the ceiling by itself stays, and the cache then
/// stands above the ceiling until that entry expires or a later pass
/// finds it no longer alone.
pub open spec fn evict_model(s: CacheView, max: int) -> CacheView
    decreases s.len(),
        via evict_model_decreases
{
    if total_size(s) <= max || s.len() <= 1 {
        s
    } else {
        evict_model(s.remove(min_idx(s)), max)
    }
}

#[via_fn]
proof fn evict_model_decreases(s: CacheView, max: int) {
    if !(total_size(s) <= max || s.len() <= 1) {
        lemma_min_idx(s);
    }
}

/// The index `find_idx` returns is a sound and complete key search: it
/// lands on `k`, nothing before it holds `k`, and -1 means no slot does.
pub proof fn lemma_find_idx(s: CacheView, k: KeyView)
    ensures
        find_idx(s, k) == -1 || 0 <= find_idx(s, k) < s.len(),
        find_idx(s, k) >= 0 ==> s[find_idx(s, k)].0 == k,
        find_idx(s, k) >= 0 ==> forall|i: int| 0 <= i < find_idx(s, k) ==> (#[trigger] s[i]).0 != k,
        find_idx(s, k) == -1 ==> forall|i: int| 0 <= i < s.len() ==> (#[trigger] s[i]).0 != k,
    decreases s.len(),
{
    if s.len() == 0 {
    } else if s[0].0 == k {
    } else {
        lemma_find_idx(s.drop_first(), k);
        assert forall|i: int| 1 <= i < s.len() implies s[i] == s.drop_first()[i - 1] by {}
    }
}

/// `min_idx` lands inside the sequence, on a slot no younger than any
/// other, and earlier than every other slot of the same age.
pub proof fn lemma_min_idx(s: CacheView)
    requires
        s.len() >= 1,
    ensures
        0 <= min_idx(s) < s.len(),
        forall|i: int| 0 <= i < s.len() ==> s[min_idx(s)].1.inserted_at <= (#[trigger] s[i]).1.inserted_at,
        forall|i: int| 0 <= i < min_idx(s) ==> (#[trigger] s[i]).1.inserted_at > s[min_idx(s)].1.inserted_at,
    decreases s.len(),
{
    if s.len() == 1 {
    } else {
        lemma_min_idx(s.drop_last());
        assert forall|i: int| 0 <= i < s.len() - 1 implies s[i] == s.drop_last()[i] by {}
    }
}

/// The total size of a cache is never negative.
pub proof fn lemma_total_size_nonneg(s: CacheView)
    ensures
        total_size(s) >= 0,
    decreases s.len(),
{
    if s.len() > 0 {
        lemma_total_size_nonneg(s.drop_last());
    }
}

/// Removing one slot lowers the total size by exactly that slot's size.
pub proof fn lemma_total_size_remove(s: CacheView, i: int)
    requires
        0 <= i < s.len(),
    ensures
        total_size(s.remove(i)) == total_size(s) - s[i].1.size,
    decreases s.len(),
{
    if i == s.len() - 1 {
        assert(s.remove(i) =~= s.drop_last());
    } else {
        assert(s.remove(i).drop_last() =~= s.drop_last().remove(i));
        assert(s.remove(i).last() == s.last());
        lemma_total_size_remove(s.drop_last(), i);
        assert(s.drop_last()[i] == s[i]);
    }
}

/// Appending one slot raises the total size by exactly that slot's size.
pub proof fn lemma_total_size_push(s: CacheView, p: (KeyView, EntryView))
    ensures
        total_size(s.push(p)) == total_size(s) + p.1.size,
{
    assert(s.push(p).drop_last() =~= s);
    assert(s.push(p).last() == p);
}

/// A prefix never outweighs the whole.
pub proof fn lemma_total_size_take_le(s: CacheView, i: int)
    requires
        0 <= i <= s.len(),
    ensures
        total_size(s.take(i)) <= total_size(s),
    decreases s.len(),
{
    if i == s.len() {
        assert(s.take(i) =~= s);
    } else {
        assert(s.drop_last().take(i) =~= s.take(i));
        lemma_total_size_take_le(s.drop_last(), i);
        lemma_total_size_nonneg(s.take(i));
    }
}

/// Removing a slot preserves key uniqueness and entry well-formedness.
pub proof fn lemma_remove_preserves(s: CacheView, i: int)
    requires
        0 <= i < s.len(),
        unique_keys(s),
        entries_wf(s),
    ensures
        unique_keys(s.remove(i)),
        entries_wf(s.remove(i)),
{
    let r = s.remove(i);
    assert forall|j: int| 0 <= j < r.len() implies r[j] == (if j < i {
        s[j]
    } else {
        s[j + 1]
    }) by {}
}

/// Everything an eviction pass keeps was already in the cache.
pub proof fn lemma_evict_model_subset(s: CacheView, max: int)
    ensures
        forall|x: (KeyView, EntryView)|
            #[trigger] evict_model(s, max).contains(x) ==> s.contains(x),
    decreases s.len(),
{
    if total_size(s) <= max || s.len() <= 1 {
    } else {
        lemma_min_idx(s);
        let r = s.remove(min_idx(s));
        lemma_evict_model_subset(r, max);
        assert forall|x: (KeyView, EntryView)|
            #[trigger] evict_model(s, max).contains(x) implies s.contains(x) by {
            assert(evict_model(s, max) == evict_model(r, max));
            assert(evict_model(r, max).contains(x));
            assert(r.contains(x));
            let j = choose|j: int| 0 <= j < r.len() && r[j] == x;
            if j < min_idx(s) {
                assert(s[j] == x);
            } else {
                assert(s[j + 1] == x);
            }
        }
    }
}

/// An eviction pass preserves key uniqueness and entry well-formedness,
/// and ends under the ceiling unless a single slot remains.
pub proof fn lemma_evict_model_wf(s: CacheView, max: int)
    requires
        max >= 0,
        unique_keys(s),
        entries_wf(s),
    ensures
        unique_keys(evict_model(s, max)),
        entries_wf(evict_model(s, max)),
        total_size(evict_model(s, max)) <= max || evict_model(s, max).len() == 1,
    decreases s.len(),
{
    if total_size(s) <= max || s.len() <= 1 {
        if s.len() == 0 {
            assert(total_size(s) == 0);
        }
    } else {
        lemma_min_idx(s);
        lemma_remove_preserves(s, min_idx(s));
        lemma_evict_model_wf(s.remove(min_idx(s)), max);
    }
}

/// Law: after any eviction pass the total recorded size is at or under
/// the ceiling, except when exactly one slot remains and that single
/// entry is itself larger than the ceiling.
pub proof fn lemma_size_ceiling(s: CacheView, max: int)
    requires
        max >= 0,
    ensures
        total_size(evict_model(s, max)) <= max || (evict_model(s, max).len() == 1
            && evict_model(s, max)[0].1.size > max),
    decreases s.len(),
{
    if total_size(s) <= max || s.len() <= 1 {
        if total_size(s) > max {
            assert(s.len() == 1);
            assert(total_size(s) == total_size(s.drop_last()) + s[0].1.size);
            assert(s.drop_last().len() == 0);
        }
    } else {
        lemma_min_idx(s);
        lemma_size_ceiling(s.remove(min_idx(s)), max);
    }
}

/// Law: eviction removes the oldest first. When the cache stands over the
/// ceiling with more than one slot, the slot removed next is one whose
/// insertion time is no later than any other's.
pub proof fn lemma_evicts_oldest_first(s: CacheView, max: int)
    requires
        total_size(s) > max,
        s.len() > 1,
    ensures
        0 <= min_idx(s) < s.len(),
        forall|i: int| 0 <= i < s.len()
            ==> s[min_idx(s)].1.inserted_at <= (#[trigger] s[i]).1.inserted_at,
        evict_model(s, max) == evict_model(s.remove(min_idx(s)), max),
{
    lemma_min_idx(s);
}

/// Law: eviction never keeps an older entry while dropping a newer one —
/// alongside every entry the pass keeps, every strictly newer entry of
/// the original cache is kept as well.
pub proof fn lemma_eviction_keeps_newer(s: CacheView, max: int)
    ensures
        forall|x: (KeyView, EntryView), y: (KeyView, EntryView)|
            #![trigger evict_model(s, max).contains(x), s.contains(y)]
            evict_model(s, max).contains(x) && s.contains(y)
                && y.1.inserted_at > x.1.inserted_at
                ==> evict_model(s, max).contains(y),
    decreases s.len(),
{
    if total_size(s) <= max || s.len() <= 1 {
    } else {
        lemma_min_idx(s);
        let m = min_idx(s);
        let r = s.remove(m);
        lemma_eviction_keeps_newer(r, max);
        lemma_evict_model_subset(r, max);
        assert forall|x: (KeyView, EntryView), y: (KeyView, EntryView)|
            #![trigger evict_model(s, max).contains(x), s.contains(y)]
            evict_model(s, max).contains(x) && s.contains(y)
                && y.1.inserted_at > x.1.inserted_at
                implies evict_model(s, max).contains(y) by {
            assert(evict_model(s, max) == evict_model(r, max));
            assert(r.contains(x));
            let j = choose|j: int| 0 <= j < s.len() && s[j] == y;
            assert(y.1.inserted_at > x.1.inserted_at);
            assert(x.1.inserted_at >= s[m].1.inserted_at) by {
                let jx = choose|jx: int| 0 <= jx < r.len() && r[jx] == x;
                if jx < m {
                    assert(s[jx] == x);
                } else {
                    assert(s[jx + 1] == x);
                }
            }
            if j != m {
                if j < m {
                    assert(r[j] == y);
                } else {
                    assert(r[j - 1] == y);
                }
                assert(r.contains(y));
            } else {
                assert(y.1.inserted_at == s[m].1.inserted_at);
                assert(false);
            }
        }
    }
}

/// An eviction pass never removes the last slot while that slot is at
/// least as new as every other: the pass removes older slots first and
/// stops before the last one.
pub proof fn lemma_evict_model_keeps_newest(s: CacheView, max: int)
    requires
        s.len() >= 1,
        forall|i: int| 0 <= i < s.len() ==> (#[trigger] s[i]).1.inserted_at
            <= s.last().1.inserted_at,
    ensures
        evict_model(s, max).len() >= 1,
        evict_model(s, max).last() == s.last(),
        forall|i: int| 0 <= i < evict_model(s, max).len()
            ==> (#[trigger] evict_model(s, max)[i]).1.inserted_at <= s.last().1.inserted_at,
    decreases s.len(),
{
    if total_size(s) <= max || s.len() <= 1 {
    } else {
        lemma_min_idx(s);
        let m = min_idx(s);
        assert(m < s.len() - 1) by {
            if m == s.len() - 1 {
                assert(s[0].1.inserted_at > s[m].1.inserted_at);
                assert(s[0].1.inserted_at <= s.last().1.inserted_at);
            }
        }
        let r = s.remove(m);
        assert forall|j: int| 0 <= j < r.len() implies r[j] == (if j < m {
            s[j]
        } else {
            s[j + 1]
        }) by {}
        assert(r.last() == s.last());
        lemma_evict_model_keeps_newest(r, max);
    }
}

/// Law: a put is immediately visible. After an entry stamped at least as
/// new as everything stored is inserted under a key, that key's slot
/// holds exactly that entry, whatever the eviction pass removed.
pub proof fn lemma_put_visible(s: CacheView, k: KeyView, e: EntryView, max: int)
    requires
        unique_keys(s),
        forall|i: int| 0 <= i < s.len() ==> (#[trigger] s[i]).1.inserted_at <= e.inserted_at,
    ensures
        spec_get(evict_model(insert_model(s, k, e), max), k) == Some(e),
{
    lemma_find_idx(s, k);
    let t = insert_model(s, k, e);
    assert(t.last() == (k, e));
    assert forall|i: int| 0 <= i < t.len() - 1 implies (#[trigger] t[i]).0 != k
        && t[i].1.inserted_at <= e.inserted_at by {
        if find_idx(s, k) >= 0 {
            let f = find_idx(s, k);
            let r = s.remove(f);
            assert(r[i] == (if i < f {
                s[i]
            } else {
                s[i + 1]
            }));
        }
    }
    assert forall|i: int| 0 <= i < t.len() implies (#[trigger] t[i]).1.inserted_at
        <= t.last().1.inserted_at by {}
    lemma_evict_model_keeps_newest(t, max);
    lemma_evict_model_subset(t, max);
    let v = evict_model(t, max);
    assert(v.last() == (k, e));
    lemma_find_idx(v, k);
    assert(v[v.len() - 1].0 == k);
    assert(find_idx(v, k) >= 0);
    let f = find_idx(v, k);
    assert(v.contains(v[f]));
    let j = choose|j: int| 0 <= j < t.len() && t[j] == v[f];
    assert(t[j].0 == k);
    assert(j == t.len() - 1);
    assert(v[f].1 == e);
}

/// Law: an entry inserted at some time is a hit, payload unchanged, at
/// every query time strictly inside its time-to-live, and a miss at every
/// query time at or past it.
pub proof fn lemma_ttl_expiry(s: CacheView, k: KeyView, now_hit: u64, now_miss: u64, ttl: u64)
    requires
        spec_get(s, k) is Some,
        now_hit - spec_get(s, k).unwrap().inserted_at < ttl,
        now_miss - spec_get(s, k).unwrap().inserted_at >= ttl,
    ensures
        spec_lookup(s, k, now_hit, ttl) == Some(spec_get(s, k).unwrap()),
        spec_lookup(s, k, now_miss, ttl) is None,
{
}

/// The bounded cache: a unique-key store of immutable entries under a
/// byte-size ceiling, with insertion-time eviction order and a
/// time-to-live that expired entries observe at lookup.
pub struct BoundedCache {
    entries: Vec<(CacheKey, CacheEntry)>,
    max_bytes: usize,
    ttl_secs: u64,
}

impl View for BoundedCache {
    type V = CacheView;

    closed spec fn view(&self) -> CacheView {
        self.entries@.map_values(|p: (CacheKey, CacheEntry)| (p.0@, p.1@))
    }
}

impl BoundedCache {
    /// The configured byte-size ceiling.
    pub closed spec fn ceiling(self) -> usize {
        self.max_bytes
    }

    /// The configured time-to-live, in seconds.
    pub closed spec fn ttl(self) -> u64 {
        self.ttl_secs
    }

    /// The cache invariant: keys are unique, every entry is well formed,
    /// and the total recorded size respects the ceiling except when a
    /// single (then possibly oversized) entry remains.
    pub open spec fn wf(self) -> bool {
        &&& unique_keys(self@)
        &&& entries_wf(self@)
        &&& (total_size(self@) <= self.ceiling() || self@.len() <= 1)
    }

    /// An empty cache under the given ceiling and time-to-live.
    pub fn new(max_bytes: usize, ttl_secs: u64) -> (c: BoundedCache)
        ensures
            c.wf(),
            c@ == Seq::<(KeyView, EntryView)>::empty(),
            c.ceiling() == max_bytes,
            c.ttl() == ttl_secs,
    {
        let c = BoundedCache { entries: Vec::new(), max_bytes, ttl_secs };
        proof {
            assert(c@ =~= Seq::<(KeyView, EntryView)>::empty());
        }
        c
    }

    /// An empty cache under the default ceiling and time-to-live.
    pub fn with_defaults() -> (c: BoundedCache)
        ensures
            c.wf(),
            c@ == Seq::<(KeyView, EntryView)>::empty(),
            c.ceiling() == DEFAULT_MAX_BYTES,
            c.ttl() == DEFAULT_TTL_SECS,
    {
        Self::new(DEFAULT_MAX_BYTES, DEFAULT_TTL_SECS)
    }

    /// The number of slots, expired ones included.
    pub fn len(&self) -> (n: usize)
        ensures
            n == self@.len(),
    {
        self.entries.len()
    }

    /// The configured ceiling.
    pub fn max_bytes(&self) -> (n: usize)
        ensures
            n == self.ceiling(),
    {
        self.max_bytes
    }

    /// The configured time-to-live, in seconds.
    pub fn ttl_secs(&self) -> (n: u64)
        ensures
            n == self.ttl(),
    {
        self.ttl_secs
    }

    /// The position of the slot holding `key`, if any.
    fn position_of(&self, key: &CacheKey) -> (r: Option<usize>)
        ensures
            match r {
                Some(i) => 0 <= i < self@.len() && find_idx(self@, key@) == i,
                None => find_idx(self@, key@) == -1,
            },
    {
        proof {
            lemma_find_idx(self@, key@);
        }
        let mut i: usize = 0;
        while i < self.entries.len()
            invariant
                0 <= i <= self.entries.len(),
                self@.len() == self.entries.len(),
                forall|j: int| 0 <= j < i ==> (#[trigger] self@[j]).0 != key@,
                find_idx(self@, key@) == -1 || 0 <= find_idx(self@, key@) < self@.len(),
                find_idx(self@, key@) >= 0 ==> self@[find_idx(self@, key@)].0 == key@,
                find_idx(self@, key@) >= 0 ==> forall|j: int|
                    0 <= j < find_idx(self@, key@) ==> (#[trigger] self@[j]).0 != key@,
                find_idx(self@, key@) == -1 ==> forall|j: int|
                    0 <= j < self@.len() ==> (#[trigger] self@[j]).0 != key@,
            decreases self.entries.len() - i,
        {
            if self.entries[i].0.key_eq(key) {
                proof {
                    assert(self@[i as int].0 == key@);
                }
                return Some(i);
            }
            i += 1;
        }
        None
    }

    /// Looks the key up at time `now`. Returns the stored entry only when
    /// it is present and fresh; an expired entry is a miss, though this
    /// read alone does not remove it.
    pub fn get(&self, key: &CacheKey, now: u64) -> (r: Option<&CacheEntry>)
        ensures
            match r {
                Some(e) => spec_lookup(self@, key@, now, self.ttl()) == Some(e@),
                None => spec_lookup(self@, key@, now, self.ttl()) is None,
            },
    {
        match self.position_of(key) {
            Some(i) => {
                let e = &self.entries[i].1;
                proof {
                    assert(self@[i as int].1 == e@);
                }
                if e.inserted_at > now || now - e.inserted_at < self.ttl_secs {
                    Some(e)
                } else {
                    None
                }
            },
            None => None,
        }
    }

    /// The total recorded size of all slots, in bytes.
    pub fn total_bytes(&self) -> (n: u128)
        requires
            self.wf(),
        ensures
            n == total_size(self@),
    {
        proof {
            if self@.len() == 1 {
                assert(total_size(self@) == total_size(self@.drop_last()) + self@[0].1.size);
                assert(self@.drop_last().len() == 0);
                assert(self@[0].1 == self.entries@[0].1@);
            }
        }
        self.sum_bytes()
    }

    /// Sums the recorded sizes of all slots.
    fn sum_bytes(&self) -> (n: u128)
        requires
            total_size(self@) <= u128::MAX,
        ensures
            n == total_size(self@),
    {
        let mut acc: u128 = 0;
        let mut i: usize = 0;
        while i < self.entries.len()
            invariant
                0 <= i <= self.entries.len(),
                self@.len() == self.entries.len(),
                total_size(self@) <= u128::MAX,
                acc == total_size(self@.take(i as int)),
            decreases self.entries.len() - i,
        {
            proof {
                assert(self@.take(i as int + 1).drop_last() =~= self@.take(i as int));
                assert(self@.take(i as int + 1).last() == self@[i as int]);
                assert(self@[i as int].1.size == self.entries@[i as int].1.size as nat);
                lemma_total_size_take_le(self@, i as int + 1);
            }
            acc = acc + self.entries[i].1.size as u128;
            i += 1;
        }
        proof {
            assert(self@.take(self@.len() as int) =~= self@);
        }
        acc
    }

    /// The position of the slot an eviction pass removes next: the first
    /// slot among those with the oldest insertion time.
    fn oldest_index(&self) -> (r: usize)
        requires
            self@.len() >= 1,
        ensures
            r == min_idx(self@),
            0 <= r < self@.len(),
    {
        let mut best: usize = 0;
        let mut i: usize = 1;
        while i < self.entries.len()
            invariant
                self@.len() == self.entries.len(),
                1 <= i <= self@.len(),
                self@.len() >= 1,
                0 <= best < i,
                best == min_idx(self@.take(i as int)),
            decreases self.entries.len() - i,
        {
            proof {
                assert(self@.take(i as int + 1).drop_last() =~= self@.take(i as int));
                assert(self@.take(i as int + 1).last() == self@[i as int]);
                lemma_min_idx(self@.take(i as int));
                assert(self@[i as int].1.inserted_at == self.entries@[i as int].1.inserted_at);
                assert(self@[best as int].1.inserted_at
                    == self.entries@[best as int].1.inserted_at);
            }
            if self.entries[i].1.inserted_at < self.entries[best].1.inserted_at {
                best = i;
            }
            i += 1;
        }
        proof {
            assert(self@.take(self@.len() as int) =~= self@);
            lemma_min_idx(self@);
        }
        best
    }

    /// Runs the eviction pass: while the total recorded size exceeds the
    /// ceiling and more than one slot remains, removes the slot with the
    /// oldest insertion time. A single oversized entry therefore stays,
    /// and the cache then stands above the ceiling until that entry
    /// expires or a later pass finds it no longer alone.
    pub fn enforce_cache_limit(&mut self)
        requires
            unique_keys(old(self)@),
            entries_wf(old(self)@),
            total_size(old(self)@) <= u128::MAX,
        ensures
            final(self)@ == evict_model(old(self)@, old(self).ceiling() as int),
            final(self).wf(),
            final(self).ceiling() == old(self).ceiling(),
            final(self).ttl() == old(self).ttl(),
    {
        let ghost orig = self@;
        let ghost max = self.max_bytes as int;
        let mut total: u128 = self.sum_bytes();
        while total > self.max_bytes as u128 && self.entries.len() > 1
            invariant
                self.max_bytes == old(self).max_bytes,
                self.ttl_secs == old(self).ttl_secs,
                self@.len() == self.entries.len(),
                total == total_size(self@),
                unique_keys(self@),
                entries_wf(self@),
                evict_model(self@, max) == evict_model(orig, max),
                max == old(self).ceiling() as int,
            decreases self.entries.len(),
        {
            proof {
                lemma_min_idx(self@);
            }
            let idx = self.oldest_index();
            proof {
                lemma_total_size_remove(self@, idx as int);
                lemma_total_size_nonneg(self@.remove(idx as int));
                lemma_remove_preserves(self@, idx as int);
                assert(self@[idx as int].1.size == self.entries@[idx as int].1.size as nat);
                assert(evict_model(self@, max) == evict_model(self@.remove(idx as int), max));
            }
            let ghost before = self@;
            let removed = self.entries.remove(idx);
            proof {
                assert(self@ =~= before.remove(idx as int));
            }
            total = total - removed.1.size as u128;
        }
        proof {
            assert(evict_model(self@, max) == self@);
        }
    }

    /// Inserts or replaces the entry under `key`, unconditionally, then
    /// runs the eviction pass so the ceiling is restored wherever more
    /// than one entry remains.
    pub fn put(&mut self, key: CacheKey, entry: CacheEntry)
        requires
            old(self).wf(),
            entry.wf(),
        ensures
            final(self)@ == evict_model(
                insert_model(old(self)@, key@, entry@),
                old(self).ceiling() as int,
            ),
            final(self).wf(),
            final(self).ceiling() == old(self).ceiling(),
            final(self).ttl() == old(self).ttl(),
    {
        let ghost orig = self@;
        proof {
            lemma_find_idx(self@, key@);
            if self@.len() == 1 {
                assert(total_size(self@) == total_size(self@.drop_last()) + self@[0].1.size);
                assert(self@.drop_last().len() == 0);
                assert(self@[0].1.size == self.entries@[0].1.size as nat);
            }
            lemma_total_size_nonneg(self@);
        }
        match self.position_of(&key) {
            Some(i) => {
                let ghost before = self@;
                self.entries.remove(i);
                proof {
                    assert(self@ =~= before.remove(i as int));
                    lemma_total_size_remove(before, i as int);
                    lemma_remove_preserves(before, i as int);
                }
            },
            None => {},
        }
        let ghost mid = self@;
        self.entries.push((key, entry));
        proof {
            assert(self@ =~= mid.push((key@, entry@)));
            lemma_total_size_push(mid, (key@, entry@));
            assert(self@ == insert_model(orig, key@, entry@));
            assert(unique_keys(self@)) by {
                assert(forall|j: int| 0 <= j < mid.len() ==> (#[trigger] mid[j]).0 != key@);
                assert(forall|j: int| 0 <= j < mid.len() ==> self@[j] == mid[j]);
                assert(self@[self@.len() - 1].0 == key@);
            }
            assert(entries_wf(self@)) by {
                assert(forall|j: int| 0 <= j < mid.len() ==> self@[j] == mid[j]);
                assert(self@[self@.len() - 1].1 == entry@);
            }
            lemma_total_size_nonneg(mid);
        }
        self.enforce_cache_limit();
    }
}

} // verus!
