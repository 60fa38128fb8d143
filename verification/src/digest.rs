//! Content hashing for deduplication and change detection. The hash is
//! computed over the extracted body text.
use vstd::prelude::*;

use sha2::Digest;

verus! {

/// What the SHA-256 digest of the UTF-8 bytes of a text is, written as hex:
/// a function of the text alone.
pub uninterp spec fn sha256_hex_of(s: Seq<char>) -> Seq<char>;

/// Relies on sha2's `Sha256`: the digest of the UTF-8 bytes of the text,
/// a function of the text alone, written as 64 lowercase hex digits.
#[verifier::external_body]
pub fn sha256_hex(s: &str) -> (r: String)
    ensures
        r@ == sha256_hex_of(s@),
        r@.len() == 64,
{
    let mut h = sha2::Sha256::new();
    h.update(s.as_bytes());
    format!("{:x}", h.finalize())
}

} // verus!
