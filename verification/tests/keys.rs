use imgcache::key::{clamped_quality, derive_cache_key, CacheKey};

fn key(url: &str, w: Option<u32>, h: Option<u32>, q: Option<u8>) -> CacheKey {
    derive_cache_key(url.as_bytes().to_vec(), w, h, q)
}

#[test]
fn derivation_is_deterministic() {
    let a = key("http://example.com/a.png", Some(640), Some(480), Some(75));
    let b = key("http://example.com/a.png", Some(640), Some(480), Some(75));
    assert!(a.key_eq(&b));
}

#[test]
fn omitted_parameters_collapse_to_defaults() {
    let explicit = key("http://example.com/a.png", Some(0), Some(0), Some(80));
    let omitted = key("http://example.com/a.png", None, None, None);
    assert!(explicit.key_eq(&omitted));
}

#[test]
fn differing_parameters_give_distinct_keys() {
    let a = key("http://example.com/a.png", Some(640), None, None);
    let b = key("http://example.com/a.png", Some(641), None, None);
    let c = key("http://example.com/b.png", Some(640), None, None);
    assert!(!a.key_eq(&b));
    assert!(!a.key_eq(&c));
}

#[test]
fn key_fields_hold_effective_values() {
    let k = key("u", None, Some(7), None);
    assert_eq!(k.url, b"u".to_vec());
    assert_eq!(k.width, 0);
    assert_eq!(k.height, 7);
    assert_eq!(k.quality, 80);
}

#[test]
fn quality_defaults_and_clamps() {
    assert_eq!(clamped_quality(None), 80);
    assert_eq!(clamped_quality(Some(0)), 1);
    assert_eq!(clamped_quality(Some(55)), 55);
    assert_eq!(clamped_quality(Some(100)), 100);
    assert_eq!(clamped_quality(Some(250)), 100);
}

#[test]
fn duplicate_copies_every_field() {
    let k = key("http://example.com/a.png", Some(1), Some(2), Some(3));
    let d = k.duplicate();
    assert!(k.key_eq(&d));
    assert_eq!(d.url, k.url);
}
