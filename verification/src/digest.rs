//! Content fingerprints for cached payloads.

use vstd::prelude::*;

verus! {

/// The hexadecimal SHA-1 fingerprint of a byte sequence. The digest is a
/// function of the bytes alone, so the name stands for whatever the
/// algorithm yields on them.
pub uninterp spec fn sha1_hex_of(bytes: Seq<u8>) -> Seq<char>;

/// Relies on sha1::Sha1::digest: a 20-byte digest that is a function of the
/// input bytes alone, rendered here as 40 lowercase hexadecimal characters.
#[verifier::external_body]
pub(crate) fn sha1_hex(data: &[u8]) -> (r: String)
    ensures
        r@ == sha1_hex_of(data@),
        r@.len() == 40,
{
    let digest = <sha1::Sha1 as sha1::Digest>::digest(data);
    let mut out = String::new();
    for byte in digest {
        out.push_str(&format!("{:02x}", byte));
    }
    out
}

} // verus!
