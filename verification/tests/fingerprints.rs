use imgcache::entry::{response_meta, CacheEntry, ProcessedImage};

fn image(payload: &[u8]) -> ProcessedImage {
    ProcessedImage {
        payload: payload.to_vec(),
        content_type: String::from("image/png"),
        original_width: 3,
        original_height: 2,
    }
}

#[test]
fn etag_is_the_sha1_hex_of_the_payload() {
    let e = CacheEntry::new(image(b"abc"), 0);
    assert_eq!(e.etag, "a9993e364706816aba3e25717850c26c9cd0d89d");
}

#[test]
fn etag_of_empty_payload() {
    let e = CacheEntry::new(image(b""), 0);
    assert_eq!(e.etag, "da39a3ee5e6b4b0d3255bfef95601890afd80709");
}

#[test]
fn etag_is_computed_once_and_reused_by_copies() {
    let e = CacheEntry::new(image(b"payload"), 9);
    let d = e.duplicate();
    assert_eq!(d.etag, e.etag);
    assert_eq!(d.result.payload, e.result.payload);
    assert_eq!(d.result.content_type, e.result.content_type);
    assert_eq!(d.result.original_width, 3);
    assert_eq!(d.result.original_height, 2);
    assert_eq!(d.size, e.size);
    assert_eq!(d.inserted_at, 9);
}

#[test]
fn response_metadata_comes_from_entry_fields() {
    let e = CacheEntry::new(image(b"abc"), 5);
    let m = response_meta(&e, 3600);
    assert_eq!(m.content_type, "image/png");
    assert_eq!(m.max_age_secs, 3600);
    assert_eq!(m.etag, "a9993e364706816aba3e25717850c26c9cd0d89d");
}
