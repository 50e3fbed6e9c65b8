//! Cache entries: immutable processed artifacts with derived metadata.

use vstd::prelude::*;
use crate::digest::{sha1_hex, sha1_hex_of};
use crate::key::copy_bytes;

verus! {

/// A processed artifact as the image-processing collaborator hands it
/// back: the encoded bytes, their media type, and the source dimensions.
pub struct ProcessedImage {
    /// The encoded artifact bytes.
    pub payload: Vec<u8>,
    /// Media type of the payload, carried alongside it.
    pub content_type: String,
    /// Width of the source image before processing.
    pub original_width: u32,
    /// Height of the source image before processing.
    pub original_height: u32,
}

/// One cached value. Entries are immutable once constructed: a stored
/// entry is only ever replaced wholesale or removed, never updated in
/// place.
pub struct CacheEntry {
    /// The processed artifact.
    pub result: ProcessedImage,
    /// Hexadecimal fingerprint of the payload, computed once at
    /// construction and reused on every hit.
    pub etag: String,
    /// Byte length of the payload, cached so eviction accounting never
    /// re-measures it.
    pub size: usize,
    /// Timestamp of insertion, in seconds; drives both expiry and
    /// eviction order.
    pub inserted_at: u64,
}

/// The mathematical value of a cache entry.
pub struct EntryView {
    /// The artifact bytes.
    pub payload: Seq<u8>,
    /// Media type of the payload.
    pub content_type: Seq<char>,
    /// Width of the source image before processing.
    pub original_width: u32,
    /// Height of the source image before processing.
    pub original_height: u32,
    /// Fingerprint of the payload.
    pub etag: Seq<char>,
    /// Recorded byte length of the payload.
    pub size: nat,
    /// Timestamp of insertion, in seconds.
    pub inserted_at: u64,
}

impl View for CacheEntry {
    type V = EntryView;

    open spec fn view(&self) -> EntryView {
        EntryView {
            payload: self.result.payload@,
            content_type: self.result.content_type@,
            original_width: self.result.original_width,
            original_height: self.result.original_height,
            etag: self.etag@,
            size: self.size as nat,
            inserted_at: self.inserted_at,
        }
    }
}

/// An entry is well formed when its recorded size is the byte length of
/// its payload and its fingerprint is the payload's.
pub open spec fn entry_wf(e: EntryView) -> bool {
    &&& e.size == e.payload.len()
    &&& e.etag == sha1_hex_of(e.payload)
}

impl CacheEntry {
    /// Well-formedness of the executable entry: that of its value.
    pub open spec fn wf(self) -> bool {
        entry_wf(self@)
    }

    /// Finalizes a computed artifact into an immutable entry: records its
    /// size, fingerprints its payload, and stamps it with the insertion
    /// time. This is the second of the two construction phases: the
    /// collaborator computes the payload, and this step derives the etag
    /// as part of building a single immutable value.
    pub fn new(result: ProcessedImage, now: u64) -> (e: CacheEntry)
        ensures
            e.wf(),
            e@ == (EntryView {
                payload: result.payload@,
                content_type: result.content_type@,
                original_width: result.original_width,
                original_height: result.original_height,
                etag: sha1_hex_of(result.payload@),
                size: result.payload@.len(),
                inserted_at: now,
            }),
    {
        let etag = sha1_hex(result.payload.as_slice());
        let size = result.payload.len();
        CacheEntry { result, etag, size, inserted_at: now }
    }

    /// A field-for-field copy of the entry. Hits hand such a copy out so
    /// the stored entry itself never escapes the cache.
    pub fn duplicate(&self) -> (e: CacheEntry)
        ensures
            e@ == self@,
    {
        CacheEntry {
            result: ProcessedImage {
                payload: copy_bytes(&self.result.payload),
                content_type: self.result.content_type.clone(),
                original_width: self.result.original_width,
                original_height: self.result.original_height,
            },
            etag: self.etag.clone(),
            size: self.size,
            inserted_at: self.inserted_at,
        }
    }
}

/// The metadata a response derives from a cache entry: its media type,
/// the freshness lifetime a cache-control directive should carry, and the
/// entity tag for conditional requests.
pub struct ResponseMeta {
    /// Media type of the artifact.
    pub content_type: String,
    /// Freshness lifetime in seconds: the configured time-to-live.
    pub max_age_secs: u64,
    /// Entity tag: the entry's content fingerprint.
    pub etag: String,
}

/// Derives the response metadata of an entry under the given
/// time-to-live.
pub fn response_meta(entry: &CacheEntry, ttl_secs: u64) -> (m: ResponseMeta)
    ensures
        m.content_type@ == entry@.content_type,
        m.max_age_secs == ttl_secs,
        m.etag@ == entry@.etag,
{
    ResponseMeta {
        content_type: entry.result.content_type.clone(),
        max_age_secs: ttl_secs,
        etag: entry.etag.clone(),
    }
}

} // verus!
