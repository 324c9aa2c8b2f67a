//! Encodings and hashes for Cardano.
pub mod cbor;
pub mod entries;
pub mod hash;
pub mod laws;

use crate::encoding::hash::blake2_256_digest;
use vstd::prelude::*;

verus! {

/// A value with a CBOR encoding that Cardano reads.
pub trait CardanoCbor {
    spec fn cardano_cbor(&self) -> Seq<u8>;

    fn to_cardano_cbor(&self) -> (r: Vec<u8>)
        ensures
            r@ == self.cardano_cbor(),
    ;
}

/// A value that is signed by the Blake2b-256 hash of its encoding.
pub trait CborHashable: CardanoCbor {
    fn cardano_cbor_hash(&self) -> (r: [u8; 32])
        ensures
            r@ == blake2_256_digest(self.cardano_cbor()),
    ;
}

} // verus!
