//! The Blake2b-256 hash.
use vstd::prelude::*;

verus! {

/// What `sp_core::hashing::blake2_256` returns.
pub uninterp spec fn blake2_256_digest(data: Seq<u8>) -> Seq<u8>;

/// `sp_core::hashing::blake2_256`: a function of the hashed bytes alone.
#[verifier::external_body]
pub(crate) fn blake2_256(data: &[u8]) -> (digest: [u8; 32])
    ensures
        digest@ == blake2_256_digest(data@),
{
    sp_core::hashing::blake2_256(data)
}

} // verus!
