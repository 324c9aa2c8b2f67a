//! Accounts, origins and the outcomes of calls.
use crate::model::Model;
use vstd::prelude::*;

verus! {

/// A 32 byte account id: the ed25519 public key of the account.
pub type AccountId = [u8; 32];

pub type BlockNumber = u64;

/// The ed25519 public key of an admin and the signature made with it.
pub type AdminSig = ([u8; 32], [u8; 64]);

/// A signature in its SCALE encoding: a byte for the scheme and the signature itself.
#[derive(Debug, PartialEq, Eq)]
pub struct Signature {
    pub encoded: Vec<u8>,
}

impl Model for Signature {
    type M = Seq<u8>;

    open spec fn model(&self) -> Seq<u8> {
        self.encoded@
    }

    fn duplicate(&self) -> (copy: Signature) {
        let encoded = self.encoded.clone();
        assert(encoded@ =~= self.encoded@);
        Signature { encoded }
    }
}

/// Who makes a call.
#[derive(Clone, Copy, Debug, PartialEq, Eq)]
pub enum Origin {
    Root,
    Signed(AccountId),
    Unsigned,
}

/// Why a call is refused.
#[derive(Debug, PartialEq, Eq)]
pub enum DispatchError<E> {
    /// The origin may not make the call.
    BadOrigin,
    /// More items than the event can count.
    CountOverflow,
    /// An error of the pallet.
    Module(E),
}

/// What a call returns: nothing, or why it is refused.
pub open spec fn outcome<E>(refusal: Option<DispatchError<E>>) -> Result<(), DispatchError<E>> {
    match refusal {
        Some(error) => Err(error),
        None => Ok(()),
    }
}

/// The lower 32 bits.
pub open spec fn wrap32(n: nat) -> u32 {
    (n % 0x1_0000_0000) as u32
}

/// A count of items as an `u32`, which wraps around.
pub(crate) fn count_items(n: usize) -> (r: u32)
    ensures
        r == wrap32(n as nat),
{
    let wide: u64 = n as u64;
    #[verifier::truncate]
    let r: u32 = wide as u32;
    assert(r == wide % 0x1_0000_0000) by (bit_vector)
        requires
            r == wide as u32,
    ;
    r
}

} // verus!
