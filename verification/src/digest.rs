//! The cryptographic digest behind block fingerprints.

use sha2::Digest;
use vstd::prelude::*;

verus! {

/// The SHA-256 digest of the UTF-8 bytes of a character sequence.  The digest
/// is a function of its input alone; nothing else is assumed of it.
pub uninterp spec fn sha256_of(s: Seq<char>) -> Seq<u8>;

/// Relies on sha2::Sha256 (through the Digest trait) for the digest itself:
/// 32 bytes, determined by the input alone.
#[verifier::external_body]
pub fn sha256_digest(s: &str) -> (r: Vec<u8>)
    ensures
        r@ == sha256_of(s@),
        r@.len() == 32,
{
    let out = sha2::Sha256::digest(s.as_bytes());
    out.to_vec()
}

} // verus!
