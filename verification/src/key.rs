//! Cache keys derived deterministically from normalized request parameters.

use vstd::prelude::*;

verus! {

/// Width used for key derivation when the request omits one.
pub const DEFAULT_WIDTH: u32 = 0;

/// Height used for key derivation when the request omits one.
pub const DEFAULT_HEIGHT: u32 = 0;

/// Quality used for key derivation and encoding when the request omits one.
pub const DEFAULT_QUALITY: u8 = 80;

/// The mathematical value of a cache key: the source bytes and the
/// effective width, height and quality.
pub type KeyView = (Seq<u8>, u32, u32, u8);

/// Identifies one cached artifact: the normalized request parameters.
///
/// Omitted width and height normalize to `DEFAULT_WIDTH` and
/// `DEFAULT_HEIGHT`, an omitted quality to `DEFAULT_QUALITY`, so two
/// requests that differ only in an omitted parameter whose explicit value
/// equals the default collide on the same key. That collision is the
/// intended memoization behaviour.
pub struct CacheKey {
    /// The source reference (URL or equivalent), as bytes.
    pub url: Vec<u8>,
    /// Effective target width.
    pub width: u32,
    /// Effective target height.
    pub height: u32,
    /// Effective encoding quality.
    pub quality: u8,
}

impl View for CacheKey {
    type V = KeyView;

    open spec fn view(&self) -> Self::V {
        (self.url@, self.width, self.height, self.quality)
    }
}

/// The effective width of a request: the explicit value, or the default.
pub open spec fn effective_width(w: Option<u32>) -> u32 {
    match w {
        Some(v) => v,
        None => DEFAULT_WIDTH,
    }
}

/// The effective height of a request: the explicit value, or the default.
pub open spec fn effective_height(h: Option<u32>) -> u32 {
    match h {
        Some(v) => v,
        None => DEFAULT_HEIGHT,
    }
}

/// The effective quality of a request: the explicit value, or the default.
pub open spec fn effective_quality(q: Option<u8>) -> u8 {
    match q {
        Some(v) => v,
        None => DEFAULT_QUALITY,
    }
}

/// The key a request with the given parameters derives: the source bytes
/// together with the effective width, height and quality.
pub open spec fn spec_key(
    url: Seq<u8>,
    w: Option<u32>,
    h: Option<u32>,
    q: Option<u8>,
) -> KeyView {
    (url, effective_width(w), effective_height(h), effective_quality(q))
}

/// Derives the cache key for a request, applying the documented defaults
/// to every omitted parameter.
pub fn derive_cache_key(
    url: Vec<u8>,
    width: Option<u32>,
    height: Option<u32>,
    quality: Option<u8>,
) -> (k: CacheKey)
    ensures
        k@ == spec_key(url@, width, height, quality),
{
    CacheKey {
        url,
        width: match width {
            Some(w) => w,
            None => DEFAULT_WIDTH,
        },
        height: match height {
            Some(h) => h,
            None => DEFAULT_HEIGHT,
        },
        quality: match quality {
            Some(q) => q,
            None => DEFAULT_QUALITY,
        },
    }
}

/// A verified byte-for-byte copy of a byte vector.
pub(crate) fn copy_bytes(v: &Vec<u8>) -> (r: Vec<u8>)
    ensures
        r@ == v@,
{
    let mut out: Vec<u8> = Vec::new();
    let mut i: usize = 0;
    while i < v.len()
        invariant
            0 <= i <= v.len(),
            out@ == v@.take(i as int),
        decreases v.len() - i,
    {
        out.push(v[i]);
        proof {
            assert(out@ =~= v@.take(i as int + 1));
        }
        i += 1;
    }
    proof {
        assert(v@.take(v@.len() as int) =~= v@);
    }
    out
}

impl CacheKey {
    /// A field-for-field copy of the key.
    pub fn duplicate(&self) -> (k: CacheKey)
        ensures
            k@ == self@,
    {
        CacheKey {
            url: copy_bytes(&self.url),
            width: self.width,
            height: self.height,
            quality: self.quality,
        }
    }

    /// Decides whether two keys identify the same artifact, that is,
    /// whether their views are equal.
    pub fn key_eq(&self, other: &CacheKey) -> (r: bool)
        ensures
            r == (self@ == other@),
    {
        if self.width != other.width || self.height != other.height
            || self.quality != other.quality {
            return false;
        }
        if self.url.len() != other.url.len() {
            return false;
        }
        let mut i: usize = 0;
        while i < self.url.len()
            invariant
                0 <= i <= self.url.len(),
                self.url.len() == other.url.len(),
                self.width == other.width,
                self.height == other.height,
                self.quality == other.quality,
                forall|j: int| 0 <= j < i ==> self.url@[j] == other.url@[j],
            decreases self.url.len() - i,
    {
            if self.url[i] != other.url[i] {
                return false;
            }
            i += 1;
        }
        proof {
            assert(self.url@ =~= other.url@);
        }
        true
    }
}

/// The quality an encoder is asked for: the effective quality, clamped to
/// the range 1 through 100.
pub open spec fn spec_clamped_quality(q: Option<u8>) -> u8 {
    let v = effective_quality(q);
    if v < 1 {
        1
    } else if v > 100 {
        100
    } else {
        v
    }
}

/// Returns the encoding quality for a request: the explicit value or the
/// default, clamped to the range 1 through 100.
pub fn clamped_quality(quality: Option<u8>) -> (r: u8)
    ensures
        r == spec_clamped_quality(quality),
        1 <= r <= 100,
{
    let v = match quality {
        Some(q) => q,
        None => DEFAULT_QUALITY,
    };
    if v < 1 {
        1
    } else if v > 100 {
        100
    } else {
        v
    }
}

/// Law: key derivation is a function of the parameter tuple alone, so
/// deriving twice from identical inputs yields identical keys; and a
/// request that omits an optional parameter derives the same key as one
/// that states that parameter's default explicitly.
pub proof fn lemma_key_derivation_idempotent(
    url: Seq<u8>,
    w: Option<u32>,
    h: Option<u32>,
    q: Option<u8>,
)
    ensures
        spec_key(url, w, h, q) == spec_key(url, w, h, q),
        spec_key(url, None, None, None) == spec_key(
            url,
            Some(DEFAULT_WIDTH),
            Some(DEFAULT_HEIGHT),
            Some(DEFAULT_QUALITY),
        ),
{
}

} // verus!
