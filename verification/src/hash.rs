//! Keccak-256, the hash of the chain.

use vstd::prelude::*;

verus! {

/// The Keccak-256 digest of a byte string.
pub uninterp spec fn keccak256_digest(data: Seq<u8>) -> Seq<u8>;

/// Hashes `data` with `alloy::primitives::keccak256`. Trusted: the 32 bytes
/// returned are the Keccak-256 digest of `data`, which depends on `data`
/// alone.
#[verifier::external_body]
pub(crate) fn keccak256(data: &[u8]) -> (digest: [u8; 32])
    ensures
        digest@ == keccak256_digest(data@),
{
    alloy::primitives::keccak256(data).0
}

} // verus!
