//! SCALE encodings, by `parity_scale_codec`.
use crate::primitives::AccountId;
use parity_scale_codec::{Decode, Encode};
use vstd::prelude::*;

verus! {

/// The account with the first 32 bytes.
pub open spec fn account_of(bytes: Seq<u8>) -> AccountId {
    choose|account: AccountId| account@ == bytes.take(32)
}

/// The number with the given bytes, the least significant first.
pub open spec fn little_endian(bytes: Seq<u8>) -> nat
    decreases bytes.len(),
{
    if bytes.len() == 0 {
        0
    } else {
        bytes[0] as nat + 256 * little_endian(bytes.drop_first())
    }
}

/// `Encode::encode` of `[u8; 32]`: the bytes themselves.
#[verifier::external_body]
pub(crate) fn encode_account(account: &AccountId) -> (r: Vec<u8>)
    ensures
        r@ == account@,
{
    account.encode()
}

/// `Decode::decode` of `[u8; 32]`: the first 32 bytes, and an error where there are fewer.
#[verifier::external_body]
fn decode_account_bytes(bytes: &Vec<u8>) -> (r: Option<AccountId>)
    ensures
        r is Some <==> bytes@.len() >= 32,
        r matches Some(account) ==> account@ == bytes@.take(32),
{
    AccountId::decode(&mut &bytes[..]).ok()
}

/// `Decode::decode` of `(u64, u64)`: two numbers of eight bytes, the least significant first, and an
/// error where there are fewer bytes.
#[verifier::external_body]
pub(crate) fn decode_number_pair(bytes: &Vec<u8>) -> (r: Option<(u64, u64)>)
    ensures
        r is Some <==> bytes@.len() >= 16,
        r matches Some(pair) ==> pair.0 == little_endian(bytes@.take(8)) && pair.1 == little_endian(
            bytes@.subrange(8, 16),
        ),
{
    <(u64, u64)>::decode(&mut &bytes[..]).ok()
}

/// The account that is encoded in the first 32 bytes, if there are as many.
pub(crate) fn decode_account(bytes: &Vec<u8>) -> (r: Option<AccountId>)
    ensures
        r is Some <==> bytes@.len() >= 32,
        r matches Some(account) ==> account == account_of(bytes@),
{
    let r = decode_account_bytes(bytes);
    proof {
        if r is Some {
            let account = r->0;
            let chosen = account_of(bytes@);
            assert(chosen@ == account@);
            assert forall|i: int| 0 <= i < 32 implies chosen[i] == account[i] by {
                assert(chosen@[i] == account@[i]);
            }
            assert(chosen =~= account);
        }
    }
    r
}

/// The account of its own encoding.
pub proof fn lemma_account_read_back(account: AccountId)
    ensures
        account_of(account@) == account,
{
    assert(account@.take(32) =~= account@);
    let chosen = account_of(account@);
    assert forall|i: int| 0 <= i < 32 implies chosen[i] == account[i] by {
        assert(chosen@[i] == account@[i]);
    }
    assert(chosen =~= account);
}

} // verus!
