use imgcache::coalesce::{CoalescingCache, ComputeDecision};
use imgcache::entry::ProcessedImage;
use imgcache::key::{derive_cache_key, CacheKey};

fn key(url: &str) -> CacheKey {
    derive_cache_key(url.as_bytes().to_vec(), None, None, None)
}

fn image(payload: &[u8]) -> ProcessedImage {
    ProcessedImage {
        payload: payload.to_vec(),
        content_type: String::from("image/jpeg"),
        original_width: 64,
        original_height: 64,
    }
}

#[test]
fn ten_concurrent_requesters_compute_once() {
    // A synthetic computation that counts its invocations: ten
    // requesters for the same cold key arrive before any computation
    // finishes; exactly one is admitted, the other nine wait.
    let mut c = CoalescingCache::new(1000, 3600);
    let mut compute_invocations = 0;
    let mut waiters = 0;
    for _ in 0..10 {
        match c.begin_compute(&key("cold"), 5) {
            ComputeDecision::MustCompute => compute_invocations += 1,
            ComputeDecision::Wait => waiters += 1,
            ComputeDecision::Hit(_) => panic!("no entry exists yet"),
        }
    }
    assert_eq!(compute_invocations, 1);
    assert_eq!(waiters, 9);

    // The one admitted computation finishes; every waiter then receives
    // the identical entry.
    let stored = c.finish_success(key("cold"), image(b"artifact"), 6);
    for _ in 0..9 {
        let got = match c.begin_compute(&key("cold"), 7) {
            ComputeDecision::Hit(e) => e,
            _ => panic!("waiters must see the stored entry"),
        };
        assert_eq!(got.result.payload, stored.result.payload);
        assert_eq!(got.etag, stored.etag);
        assert_eq!(got.inserted_at, stored.inserted_at);
    }
}

#[test]
fn failure_caches_nothing_and_each_call_retries() {
    let mut c = CoalescingCache::new(1000, 3600);
    let mut compute_invocations = 0;
    for _ in 0..5 {
        match c.begin_compute(&key("failing"), 1) {
            ComputeDecision::MustCompute => compute_invocations += 1,
            _ => panic!("a released key must be recomputed"),
        }
        // The computation fails: nothing is stored, the claim is
        // released, and the next call must retry independently.
        c.finish_failure(&key("failing"));
        assert_eq!(c.len(), 0);
        assert!(c.get(&key("failing"), 1).is_none());
    }
    assert_eq!(compute_invocations, 5);
}

#[test]
fn distinct_keys_do_not_block_each_other() {
    let mut c = CoalescingCache::new(1000, 3600);
    assert!(matches!(c.begin_compute(&key("one"), 1), ComputeDecision::MustCompute));
    // While "one" is in flight, a requester for "two" is admitted at
    // once rather than told to wait.
    assert!(matches!(c.begin_compute(&key("two"), 1), ComputeDecision::MustCompute));
    // And finishing "two" does not release "one".
    c.finish_success(key("two"), image(b"b"), 2);
    assert!(matches!(c.begin_compute(&key("one"), 2), ComputeDecision::Wait));
}

#[test]
fn fresh_entry_hits_without_claiming() {
    let mut c = CoalescingCache::new(1000, 3600);
    assert!(matches!(c.begin_compute(&key("k"), 10), ComputeDecision::MustCompute));
    c.finish_success(key("k"), image(b"v"), 10);
    match c.begin_compute(&key("k"), 11) {
        ComputeDecision::Hit(e) => assert_eq!(e.result.payload, b"v".to_vec()),
        _ => panic!("a fresh entry must hit"),
    }
}

#[test]
fn expired_entry_triggers_fresh_computation() {
    let mut c = CoalescingCache::new(1000, 3600);
    assert!(matches!(c.begin_compute(&key("k"), 10), ComputeDecision::MustCompute));
    c.finish_success(key("k"), image(b"v"), 10);
    assert!(matches!(c.begin_compute(&key("k"), 10 + 3600), ComputeDecision::MustCompute));
}

#[test]
fn success_stores_entry_with_insertion_time() {
    let mut c = CoalescingCache::new(1000, 3600);
    assert!(matches!(c.begin_compute(&key("k"), 42), ComputeDecision::MustCompute));
    let e = c.finish_success(key("k"), image(b"bytes"), 42);
    assert_eq!(e.inserted_at, 42);
    assert_eq!(e.size, 5);
    let got = c.get(&key("k"), 43).expect("stored entry must be fresh");
    assert_eq!(got.result.payload, b"bytes".to_vec());
}
