use imgcache::cache::{BoundedCache, DEFAULT_MAX_BYTES, DEFAULT_TTL_SECS};
use imgcache::entry::{CacheEntry, ProcessedImage};
use imgcache::key::derive_cache_key;
use imgcache::key::CacheKey;

fn key(url: &str) -> CacheKey {
    derive_cache_key(url.as_bytes().to_vec(), None, None, None)
}

fn entry(payload: &[u8], now: u64) -> CacheEntry {
    CacheEntry::new(
        ProcessedImage {
            payload: payload.to_vec(),
            content_type: String::from("image/jpeg"),
            original_width: 100,
            original_height: 50,
        },
        now,
    )
}

#[test]
fn defaults_match_configuration() {
    let c = BoundedCache::with_defaults();
    assert_eq!(c.max_bytes(), 150 * 1024 * 1024);
    assert_eq!(DEFAULT_MAX_BYTES, 150 * 1024 * 1024);
    assert_eq!(c.ttl_secs(), 3600);
    assert_eq!(DEFAULT_TTL_SECS, 3600);
    assert_eq!(c.len(), 0);
}

#[test]
fn get_on_missing_key_misses() {
    let c = BoundedCache::new(100, 3600);
    assert!(c.get(&key("a"), 0).is_none());
}

#[test]
fn hit_within_ttl_returns_unchanged_payload() {
    let mut c = BoundedCache::new(1000, 3600);
    let t = 100;
    c.put(key("a"), entry(b"payload-bytes", t));
    let got = c.get(&key("a"), t + 3600 - 1).expect("fresh entry must hit");
    assert_eq!(got.result.payload, b"payload-bytes".to_vec());
    assert_eq!(got.result.content_type, "image/jpeg");
    assert_eq!(got.inserted_at, t);
}

#[test]
fn miss_after_ttl_expires() {
    let mut c = BoundedCache::new(1000, 3600);
    let t = 100;
    c.put(key("a"), entry(b"payload-bytes", t));
    assert!(c.get(&key("a"), t + 3600).is_none());
    assert!(c.get(&key("a"), t + 3600 + 1).is_none());
    // The entry may still be physically present; expiry is observed at read.
    assert_eq!(c.len(), 1);
}

#[test]
fn put_replaces_entry_under_same_key() {
    let mut c = BoundedCache::new(1000, 3600);
    c.put(key("a"), entry(b"first", 1));
    c.put(key("a"), entry(b"second", 2));
    assert_eq!(c.len(), 1);
    let got = c.get(&key("a"), 2).unwrap();
    assert_eq!(got.result.payload, b"second".to_vec());
}

#[test]
fn total_stays_under_ceiling_across_puts() {
    let mut c = BoundedCache::new(100, 3600);
    for i in 0..20u64 {
        let name = format!("k{}", i);
        c.put(key(&name), entry(&[7u8; 30], i));
        assert!(c.total_bytes() <= 100);
    }
    // 3 entries of 30 bytes fit under 100; a 4th would breach it.
    assert_eq!(c.len(), 3);
}

#[test]
fn eviction_removes_least_recently_inserted_first() {
    // Three entries at distinct times, each just under a third of the
    // ceiling; a fourth breaches the ceiling and evicts the oldest.
    let mut c = BoundedCache::new(100, 3600);
    c.put(key("t1"), entry(&[1u8; 32], 10));
    c.put(key("t2"), entry(&[2u8; 32], 20));
    c.put(key("t3"), entry(&[3u8; 32], 30));
    assert_eq!(c.len(), 3);
    c.put(key("t4"), entry(&[4u8; 32], 40));
    assert!(c.get(&key("t1"), 41).is_none());
    assert!(c.get(&key("t2"), 41).is_some());
    assert!(c.get(&key("t3"), 41).is_some());
    assert!(c.get(&key("t4"), 41).is_some());
    assert_eq!(c.len(), 3);
}

#[test]
fn eviction_continues_until_under_ceiling() {
    let mut c = BoundedCache::new(100, 3600);
    c.put(key("t1"), entry(&[1u8; 40], 10));
    c.put(key("t2"), entry(&[2u8; 40], 20));
    // 90-byte newcomer: both older entries must go.
    c.put(key("t3"), entry(&[3u8; 90], 30));
    assert_eq!(c.len(), 1);
    assert!(c.get(&key("t3"), 31).is_some());
    assert_eq!(c.total_bytes(), 90);
}

#[test]
fn single_oversized_entry_is_accepted_and_left_alone() {
    let mut c = BoundedCache::new(100, 3600);
    c.put(key("small"), entry(&[1u8; 10], 10));
    c.put(key("huge"), entry(&[2u8; 150], 20));
    // Everything else is evicted; the oversized entry alone remains and
    // the cache stands above the ceiling until it expires or is evicted
    // by a later pass that finds it no longer alone.
    assert_eq!(c.len(), 1);
    assert!(c.get(&key("huge"), 21).is_some());
    assert!(c.get(&key("small"), 21).is_none());
    assert_eq!(c.total_bytes(), 150);
}

#[test]
fn oversized_entry_goes_first_in_a_later_pass() {
    let mut c = BoundedCache::new(100, 3600);
    c.put(key("huge"), entry(&[2u8; 150], 10));
    assert_eq!(c.total_bytes(), 150);
    c.put(key("next"), entry(&[1u8; 10], 20));
    // The later pass sees two entries over the ceiling and removes the
    // older, oversized one.
    assert_eq!(c.len(), 1);
    assert!(c.get(&key("next"), 21).is_some());
    assert_eq!(c.total_bytes(), 10);
}

#[test]
fn eviction_tie_break_is_stable_by_insertion_order() {
    let mut c = BoundedCache::new(100, 3600);
    // Equal timestamps: the slot stored first goes first.
    c.put(key("a"), entry(&[1u8; 40], 5));
    c.put(key("b"), entry(&[2u8; 40], 5));
    c.put(key("c"), entry(&[3u8; 40], 5));
    assert!(c.get(&key("a"), 6).is_none());
    assert!(c.get(&key("b"), 6).is_some());
    assert!(c.get(&key("c"), 6).is_some());
}

#[test]
fn enforce_on_cache_under_ceiling_changes_nothing() {
    let mut c = BoundedCache::new(100, 3600);
    c.put(key("a"), entry(&[1u8; 10], 1));
    c.enforce_cache_limit();
    assert_eq!(c.len(), 1);
    assert_eq!(c.total_bytes(), 10);
}

#[test]
fn empty_cache_accepts_eviction_pass() {
    let mut c = BoundedCache::new(100, 3600);
    c.enforce_cache_limit();
    assert_eq!(c.len(), 0);
    assert_eq!(c.total_bytes(), 0);
}

#[test]
fn entry_size_records_payload_length() {
    let e = entry(b"12345", 0);
    assert_eq!(e.size, 5);
}
