//! A bounded, TTL-expiring, in-memory cache for processed image artifacts.
//!
//! The cache maps request-derived keys to immutable entries, enforces a
//! global byte-size ceiling by evicting the least-recently-inserted
//! entries first, treats entries older than a configured time-to-live as
//! absent, and offers a coalescing layer that admits at most one
//! in-flight computation per key.

pub mod key;
pub mod digest;
pub mod entry;
pub mod cache;
pub mod coalesce;
