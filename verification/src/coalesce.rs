//! The coalescing layer: admits at most one in-flight computation per key.
//!
//! A registry of in-flight keys sits beside the bounded cache. A caller
//! that misses and finds its key unclaimed claims it and computes; every
//! concurrent caller for the same key is told to wait for that one
//! result. When the computation finishes — with success or failure — the
//! claim is released, so a later request can compute afresh. The waiting
//! itself (parking a task, waking it) is the caller's concern; the
//! decisions made here determine that at most one computation per key is
//! ever admitted at a time.

use vstd::prelude::*;
use crate::key::{CacheKey, KeyView};
use crate::entry::{CacheEntry, EntryView, ProcessedImage};
use crate::cache::{
    BoundedCache, CacheView, DEFAULT_MAX_BYTES, DEFAULT_TTL_SECS, evict_model, insert_model,
    spec_lookup,
};
use crate::digest::sha1_hex_of;

verus! {

/// What a requester is told about a key.
pub enum ComputeDecision {
    /// A fresh entry exists; here is a copy of it.
    Hit(CacheEntry),
    /// No fresh entry exists and nobody is computing this key: the caller
    /// now holds the claim, must run the computation, and must then
    /// report it through `finish_success` or `finish_failure`.
    MustCompute,
    /// No fresh entry exists but another caller is already computing this
    /// key: await that caller's result.
    Wait,
}

/// The mathematical value of a decision, without the carried entry.
pub enum DecisionView {
    /// A fresh entry exists.
    Hit,
    /// The requester holds the claim and computes.
    MustCompute,
    /// Another requester holds the claim.
    Wait,
}

/// The decision a state dictates for a key at time `now`: a fresh entry
/// is a hit; otherwise an already-claimed key means wait, and an
/// unclaimed one means compute.
pub open spec fn spec_decision(
    entries: CacheView,
    flights: Seq<KeyView>,
    k: KeyView,
    now: u64,
    ttl: u64,
) -> DecisionView {
    if spec_lookup(entries, k, now, ttl) is Some {
        DecisionView::Hit
    } else if flights.contains(k) {
        DecisionView::Wait
    } else {
        DecisionView::MustCompute
    }
}

/// No key is claimed twice.
pub open spec fn unique_flights(fl: Seq<KeyView>) -> bool {
    forall|i: int, j: int| 0 <= i < j < fl.len() ==> fl[i] != fl[j]
}

/// The position of key `k` in the registry, or -1 when it is unclaimed.
pub open spec fn flight_idx(fl: Seq<KeyView>, k: KeyView) -> int
    decreases fl.len(),
{
    if fl.len() == 0 {
        -1
    } else if fl[0] == k {
        0
    } else {
        let r = flight_idx(fl.drop_first(), k);
        if r < 0 {
            -1
        } else {
            r + 1
        }
    }
}

/// The registry after key `k` is released: its claim, if any, is removed.
pub open spec fn remove_flight(fl: Seq<KeyView>, k: KeyView) -> Seq<KeyView> {
    if flight_idx(fl, k) >= 0 {
        fl.remove(flight_idx(fl, k))
    } else {
        fl
    }
}

/// The index `flight_idx` returns is a sound and complete search: it
/// lands on `k`, nothing before it equals `k`, and -1 means `k` is
/// unclaimed.
pub proof fn lemma_flight_idx(fl: Seq<KeyView>, k: KeyView)
    ensures
        flight_idx(fl, k) == -1 || 0 <= flight_idx(fl, k) < fl.len(),
        flight_idx(fl, k) >= 0 ==> fl[flight_idx(fl, k)] == k,
        flight_idx(fl, k) >= 0 ==> forall|i: int| 0 <= i < flight_idx(fl, k) ==> fl[i] != k,
        flight_idx(fl, k) == -1 ==> forall|i: int| 0 <= i < fl.len() ==> fl[i] != k,
        (flight_idx(fl, k) >= 0) == fl.contains(k),
    decreases fl.len(),
{
    if fl.len() == 0 {
    } else if fl[0] == k {
    } else {
        lemma_flight_idx(fl.drop_first(), k);
        assert forall|i: int| 1 <= i < fl.len() implies fl[i] == fl.drop_first()[i - 1] by {}
        if fl.contains(k) {
            let w = choose|w: int| 0 <= w < fl.len() && fl[w] == k;
            assert(fl.drop_first()[w - 1] == k);
            assert(fl.drop_first().contains(k));
        }
    }
}

/// Releasing a key keeps the registry's claims unique, leaves the key
/// unclaimed, and claims of every other key untouched.
pub proof fn lemma_remove_flight(fl: Seq<KeyView>, k: KeyView)
    requires
        unique_flights(fl),
    ensures
        unique_flights(remove_flight(fl, k)),
        !remove_flight(fl, k).contains(k),
        forall|k2: KeyView| k2 != k ==> remove_flight(fl, k).contains(k2) == fl.contains(k2),
{
    lemma_flight_idx(fl, k);
    if flight_idx(fl, k) >= 0 {
        let m = flight_idx(fl, k);
        let r = fl.remove(m);
        assert forall|j: int| 0 <= j < r.len() implies r[j] == (if j < m {
            fl[j]
        } else {
            fl[j + 1]
        }) by {}
        assert forall|j: int| 0 <= j < r.len() implies r[j] != k by {}
        assert forall|k2: KeyView| k2 != k implies r.contains(k2) == fl.contains(k2) by {
            if r.contains(k2) {
                let w = choose|w: int| 0 <= w < r.len() && r[w] == k2;
                if w < m {
                    assert(fl[w] == k2);
                } else {
                    assert(fl[w + 1] == k2);
                }
            }
            if fl.contains(k2) {
                let w = choose|w: int| 0 <= w < fl.len() && fl[w] == k2;
                if w < m {
                    assert(r[w] == k2);
                } else {
                    assert(w != m);
                    assert(r[w - 1] == k2);
                }
                assert(r.contains(k2));
            }
        }
    }
}

/// Law (coalescing): once a requester for a cold key has been told to
/// compute, the key stands claimed, and every further requester for the
/// same key in the same state is told to wait rather than compute; a
/// waiting requester changes nothing, so this holds for any number of
/// concurrent requesters.
pub proof fn lemma_coalescing_single_compute(
    entries: CacheView,
    flights: Seq<KeyView>,
    k: KeyView,
    now: u64,
    ttl: u64,
)
    requires
        spec_decision(entries, flights, k, now, ttl) == DecisionView::MustCompute,
    ensures
        spec_decision(entries, flights.push(k), k, now, ttl) == DecisionView::Wait,
{
    assert(flights.push(k)[flights.len() as int] == k);
    assert(flights.push(k).contains(k));
}

/// Law (error non-caching): when a computation fails, the key's claim is
/// released without storing anything, so a later request for the same
/// still-absent key is told to compute afresh — failures are never
/// cached.
pub proof fn lemma_error_not_cached(
    entries: CacheView,
    flights: Seq<KeyView>,
    k: KeyView,
    now: u64,
    ttl: u64,
)
    requires
        unique_flights(flights),
    ensures
        !remove_flight(flights, k).contains(k),
        spec_lookup(entries, k, now, ttl) is None ==> spec_decision(
            entries,
            remove_flight(flights, k),
            k,
            now,
            ttl,
        ) == DecisionView::MustCompute,
{
    lemma_remove_flight(flights, k);
}

/// Law (concurrent-key independence): claiming or releasing one key
/// neither blocks nor unblocks any other key — the decision for a key
/// depends only on that key's own entry and claim.
pub proof fn lemma_key_independence(
    entries: CacheView,
    flights: Seq<KeyView>,
    k1: KeyView,
    k2: KeyView,
    now: u64,
    ttl: u64,
)
    requires
        k1 != k2,
        unique_flights(flights),
    ensures
        spec_decision(entries, flights.push(k1), k2, now, ttl) == spec_decision(
            entries,
            flights,
            k2,
            now,
            ttl,
        ),
        spec_decision(entries, remove_flight(flights, k1), k2, now, ttl) == spec_decision(
            entries,
            flights,
            k2,
            now,
            ttl,
        ),
{
    let p = flights.push(k1);
    assert(p.contains(k2) == flights.contains(k2)) by {
        if p.contains(k2) {
            let w = choose|w: int| 0 <= w < p.len() && p[w] == k2;
            assert(w < flights.len());
            assert(flights[w] == k2);
        }
        if flights.contains(k2) {
            let w = choose|w: int| 0 <= w < flights.len() && flights[w] == k2;
            assert(p[w] == k2);
        }
    }
    lemma_remove_flight(flights, k1);
}

/// The bounded cache together with the in-flight registry.
pub struct CoalescingCache {
    cache: BoundedCache,
    in_flight: Vec<CacheKey>,
}

impl CoalescingCache {
    /// The cache contents.
    pub closed spec fn entries(self) -> CacheView {
        self.cache@
    }

    /// The keys whose computations are in flight.
    pub closed spec fn flights(self) -> Seq<KeyView> {
        self.in_flight@.map_values(|k: CacheKey| k@)
    }

    /// The configured byte-size ceiling.
    pub closed spec fn ceiling(self) -> usize {
        self.cache.ceiling()
    }

    /// The configured time-to-live, in seconds.
    pub closed spec fn ttl(self) -> u64 {
        self.cache.ttl()
    }

    /// The invariant: the cache is well formed and no key is claimed
    /// twice.
    pub closed spec fn wf(self) -> bool {
        &&& self.cache.wf()
        &&& unique_flights(self.flights())
    }

    /// An empty cache and registry under the given ceiling and
    /// time-to-live.
    pub fn new(max_bytes: usize, ttl_secs: u64) -> (c: CoalescingCache)
        ensures
            c.wf(),
            c.entries() == Seq::<(KeyView, EntryView)>::empty(),
            c.flights() == Seq::<KeyView>::empty(),
            c.ceiling() == max_bytes,
            c.ttl() == ttl_secs,
    {
        let c = CoalescingCache { cache: BoundedCache::new(max_bytes, ttl_secs), in_flight: Vec::new() };
        proof {
            assert(c.flights() =~= Seq::<KeyView>::empty());
        }
        c
    }

    /// An empty cache and registry under the default ceiling and
    /// time-to-live.
    pub fn with_defaults() -> (c: CoalescingCache)
        ensures
            c.wf(),
            c.entries() == Seq::<(KeyView, EntryView)>::empty(),
            c.flights() == Seq::<KeyView>::empty(),
            c.ceiling() == DEFAULT_MAX_BYTES,
            c.ttl() == DEFAULT_TTL_SECS,
    {
        Self::new(DEFAULT_MAX_BYTES, DEFAULT_TTL_SECS)
    }

    /// The configured time-to-live, in seconds.
    pub fn ttl_secs(&self) -> (n: u64)
        ensures
            n == self.ttl(),
    {
        self.cache.ttl_secs()
    }

    /// Looks the key up at time `now`, as the underlying cache does.
    pub fn get(&self, key: &CacheKey, now: u64) -> (r: Option<&CacheEntry>)
        ensures
            match r {
                Some(e) => spec_lookup(self.entries(), key@, now, self.ttl()) == Some(e@),
                None => spec_lookup(self.entries(), key@, now, self.ttl()) is None,
            },
    {
        self.cache.get(key, now)
    }

    /// The number of stored slots, expired ones included.
    pub fn len(&self) -> (n: usize)
        ensures
            n == self.entries().len(),
    {
        self.cache.len()
    }

    /// The position of `key` in the in-flight registry, if it is claimed.
    fn flight_position(&self, key: &CacheKey) -> (r: Option<usize>)
        ensures
            match r {
                Some(i) => 0 <= i < self.flights().len() && flight_idx(self.flights(), key@) == i,
                None => flight_idx(self.flights(), key@) == -1,
            },
    {
        proof {
            lemma_flight_idx(self.flights(), key@);
        }
        let mut i: usize = 0;
        while i < self.in_flight.len()
            invariant
                0 <= i <= self.in_flight.len(),
                self.flights().len() == self.in_flight.len(),
                forall|j: int| 0 <= j < i ==> self.flights()[j] != key@,
                flight_idx(self.flights(), key@) == -1 || 0 <= flight_idx(self.flights(), key@)
                    < self.flights().len(),
                flight_idx(self.flights(), key@) >= 0 ==> self.flights()[flight_idx(
                    self.flights(),
                    key@,
                )] == key@,
                flight_idx(self.flights(), key@) >= 0 ==> forall|j: int|
                    0 <= j < flight_idx(self.flights(), key@) ==> self.flights()[j] != key@,
                flight_idx(self.flights(), key@) == -1 ==> forall|j: int|
                    0 <= j < self.flights().len() ==> self.flights()[j] != key@,
            decreases self.in_flight.len() - i,
        {
            proof {
                assert(self.flights()[i as int] == self.in_flight@[i as int]@);
            }
            if self.in_flight[i].key_eq(key) {
                return Some(i);
            }
            i += 1;
        }
        None
    }

    /// Decides what a requester for `key` at time `now` does: a fresh
    /// entry is handed out at once; otherwise, if nobody computes this
    /// key yet, the requester claims it and must compute; and if somebody
    /// does, the requester waits for that result. The claim taken by a
    /// `MustCompute` answer is released only by `finish_success` or
    /// `finish_failure`.
    pub fn begin_compute(&mut self, key: &CacheKey, now: u64) -> (d: ComputeDecision)
        requires
            old(self).wf(),
        ensures
            final(self).wf(),
            final(self).entries() == old(self).entries(),
            final(self).ceiling() == old(self).ceiling(),
            final(self).ttl() == old(self).ttl(),
            match d {
                ComputeDecision::Hit(e) => {
                    &&& spec_lookup(old(self).entries(), key@, now, old(self).ttl()) == Some(e@)
                    &&& final(self).flights() == old(self).flights()
                },
                ComputeDecision::MustCompute => {
                    &&& spec_decision(
                        old(self).entries(),
                        old(self).flights(),
                        key@,
                        now,
                        old(self).ttl(),
                    ) == DecisionView::MustCompute
                    &&& final(self).flights() == old(self).flights().push(key@)
                },
                ComputeDecision::Wait => {
                    &&& spec_decision(
                        old(self).entries(),
                        old(self).flights(),
                        key@,
                        now,
                        old(self).ttl(),
                    ) == DecisionView::Wait
                    &&& final(self).flights() == old(self).flights()
                },
            },
    {
        let hit = match self.cache.get(key, now) {
            Some(e) => Some(e.duplicate()),
            None => None,
        };
        match hit {
            Some(e) => ComputeDecision::Hit(e),
            None => {
                match self.flight_position(key) {
                    Some(_) => {
                        proof {
                            lemma_flight_idx(self.flights(), key@);
                        }
                        ComputeDecision::Wait
                    },
                    None => {
                        proof {
                            lemma_flight_idx(self.flights(), key@);
                        }
                        let ghost before = self.flights();
                        self.in_flight.push(key.duplicate());
                        proof {
                            assert(self.flights() =~= before.push(key@));
                            assert(unique_flights(self.flights())) by {
                                assert(forall|j: int|
                                    0 <= j < before.len() ==> self.flights()[j] == before[j]);
                                assert(self.flights()[before.len() as int] == key@);
                                assert(forall|j: int| 0 <= j < before.len() ==> before[j] != key@);
                            }
                        }
                        ComputeDecision::MustCompute
                    },
                }
            },
        }
    }

    /// Reports a successful computation for `key`: finalizes the artifact
    /// into an entry stamped `now`, stores it (evicting as the ceiling
    /// demands), releases the key's claim, and returns a copy of the
    /// entry for the caller and every waiter.
    pub fn finish_success(&mut self, key: CacheKey, result: ProcessedImage, now: u64) -> (e:
        CacheEntry)
        requires
            old(self).wf(),
        ensures
            final(self).wf(),
            final(self).ceiling() == old(self).ceiling(),
            final(self).ttl() == old(self).ttl(),
            e@ == (EntryView {
                payload: result.payload@,
                content_type: result.content_type@,
                original_width: result.original_width,
                original_height: result.original_height,
                etag: sha1_hex_of(result.payload@),
                size: result.payload@.len(),
                inserted_at: now,
            }),
            final(self).entries() == evict_model(
                insert_model(old(self).entries(), key@, e@),
                old(self).ceiling() as int,
            ),
            final(self).flights() == remove_flight(old(self).flights(), key@),
    {
        self.release(&key);
        let entry = CacheEntry::new(result, now);
        let out = entry.duplicate();
        self.cache.put(key, entry);
        out
    }

    /// Reports a failed computation for `key`: stores nothing — the
    /// cache is exactly as it was — and releases the key's claim, so the
    /// next request for it computes afresh. Every waiter coalesced on the
    /// key receives the failure from the caller that held the claim.
    pub fn finish_failure(&mut self, key: &CacheKey)
        requires
            old(self).wf(),
        ensures
            final(self).wf(),
            final(self).entries() == old(self).entries(),
            final(self).ceiling() == old(self).ceiling(),
            final(self).ttl() == old(self).ttl(),
            final(self).flights() == remove_flight(old(self).flights(), key@),
    {
        self.release(key);
    }

    /// Removes `key`'s claim from the registry, if present.
    fn release(&mut self, key: &CacheKey)
        requires
            old(self).wf(),
        ensures
            final(self).wf(),
            final(self).entries() == old(self).entries(),
            final(self).ceiling() == old(self).ceiling(),
            final(self).ttl() == old(self).ttl(),
            final(self).flights() == remove_flight(old(self).flights(), key@),
    {
        proof {
            lemma_remove_flight(self.flights(), key@);
        }
        match self.flight_position(key) {
            Some(i) => {
                let ghost before = self.flights();
                self.in_flight.remove(i);
                proof {
                    assert(self.flights() =~= before.remove(i as int));
                }
            },
            None => {},
        }
    }
}

} // verus!
