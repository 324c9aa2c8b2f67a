//! Operators, certificates and proposals of the staking participation pallet.
use crate::bounded::{lemma_byte_models, BoundedVec};
use crate::encoding::cbor::{
    big_endian, cbor_bytestring, cbor_list, cbor_uint, joined, lemma_bytestring_read_back,
    lemma_head_read_back, lemma_joined_push, put_begin_array, put_bytes, put_end, put_u64,
    lemma_big_endian_injective, lemma_big_endian_len, byte_range,
};
use crate::encoding::entries::lemma_joined_two;
use crate::model::{models, Model};
use crate::primitives::AccountId;
use vstd::prelude::*;

verus! {

/// Lifecycle status for operators
#[derive(Clone, Copy, Debug, PartialEq, Eq, Structural)]
pub enum OperatorStatus {
    Requested,
    CertificateIssued,
    StakeConfirmed,
    Active,
    PendingRetire,
    Retired,
}

// ---------------------------------------------------------------------------------------------
// Certificates

/// Staking certificate structure. The account of the operator is SCALE-encoded into
/// `operator_account`.
#[derive(Debug, PartialEq, Eq)]
pub struct StakingCertificate {
    pub operator_account: BoundedVec<u8, 64>,
    pub cardano_stake_key_hash: BoundedVec<u8, 64>,
    pub sidechain_pubkey: BoundedVec<u8, 64>,
    pub stake_amount: u128,
    pub expiry: u64,
    pub nonce: u64,
}

#[verifier::ext_equal]
pub struct CertificateModel {
    pub operator_account: Seq<u8>,
    pub cardano_stake_key_hash: Seq<u8>,
    pub sidechain_pubkey: Seq<u8>,
    pub stake_amount: u128,
    pub expiry: u64,
    pub nonce: u64,
}

impl Model for StakingCertificate {
    type M = CertificateModel;

    open spec fn model(&self) -> CertificateModel {
        CertificateModel {
            operator_account: self.operator_account.model(),
            cardano_stake_key_hash: self.cardano_stake_key_hash.model(),
            sidechain_pubkey: self.sidechain_pubkey.model(),
            stake_amount: self.stake_amount,
            expiry: self.expiry,
            nonce: self.nonce,
        }
    }

    fn duplicate(&self) -> (copy: StakingCertificate) {
        StakingCertificate {
            operator_account: self.operator_account.duplicate(),
            cardano_stake_key_hash: self.cardano_stake_key_hash.duplicate(),
            sidechain_pubkey: self.sidechain_pubkey.duplicate(),
            stake_amount: self.stake_amount,
            expiry: self.expiry,
            nonce: self.nonce,
        }
    }
}

/// The CBOR of a certificate. The stake amount is a byte string of its 16 bytes, the most
/// significant first.
pub open spec fn certificate_cbor(certificate: CertificateModel) -> Seq<u8> {
    cbor_list(
        seq![
            cbor_bytestring(certificate.operator_account),
            cbor_bytestring(certificate.cardano_stake_key_hash),
            cbor_bytestring(certificate.sidechain_pubkey),
            cbor_bytestring(big_endian(certificate.stake_amount as nat, 16)),
            cbor_uint(certificate.expiry as nat),
            cbor_uint(certificate.nonce as nat),
        ],
    )
}

proof fn lemma_joined_six(
    a: Seq<u8>,
    b: Seq<u8>,
    c: Seq<u8>,
    d: Seq<u8>,
    e: Seq<u8>,
    f: Seq<u8>,
)
    ensures
        joined(seq![a, b, c, d, e, f]) == a + b + c + d + e + f,
{
    lemma_joined_two(a, b);
    lemma_joined_push(seq![a, b], c);
    lemma_joined_push(seq![a, b, c], d);
    lemma_joined_push(seq![a, b, c, d], e);
    lemma_joined_push(seq![a, b, c, d, e], f);
    assert(seq![a, b].push(c) =~= seq![a, b, c]);
    assert(seq![a, b, c].push(d) =~= seq![a, b, c, d]);
    assert(seq![a, b, c, d].push(e) =~= seq![a, b, c, d, e]);
    assert(seq![a, b, c, d, e].push(f) =~= seq![a, b, c, d, e, f]);
}

/// The bytes of an amount, the most significant first.
fn amount_bytes(amount: u128) -> (r: [u8; 16])
    ensures
        r@ == big_endian(amount as nat, 16),
{
    let mut bytes: [u8; 16] = [0u8;16];
    let mut rest: u128 = amount;
    let mut i: usize = 16;
    assert(bytes@.skip(16) =~= Seq::<u8>::empty());
    assert(big_endian(amount as nat, 16) =~= big_endian(rest as nat, 16) + bytes@.skip(16));
    while i > 0
        invariant
            i <= 16,
            big_endian(amount as nat, 16) == big_endian(rest as nat, i as nat) + bytes@.skip(
                i as int,
            ),
        decreases i,
    {
        let ghost tail = bytes@.skip(i as int);
        let ghost before = rest;
        let ghost width = i;
        i -= 1;
        bytes[i] = (rest % 256) as u8;
        rest = rest / 256;
        proof {
            let last = (before as nat % 256) as u8;
            assert(bytes@.skip(i as int) =~= seq![last] + tail);
            assert(big_endian(before as nat, width as nat) == big_endian(
                rest as nat,
                i as nat,
            ).push(last));
            assert(big_endian(rest as nat, i as nat).push(last) + tail =~= big_endian(
                rest as nat,
                i as nat,
            ) + (seq![last] + tail));
        }
    }
    assert(big_endian(rest as nat, 0) + bytes@.skip(0) =~= bytes@);
    bytes
}

impl StakingCertificate {
    /// Encode certificate to CBOR for Cardano interoperability.
    /// Numeric `stake_amount` is encoded as a byte string (big-endian) to safely
    /// represent u128 values; consumer policies should decode accordingly.
    pub fn to_cbor(&self) -> (r: Vec<u8>)
        ensures
            r@ == certificate_cbor(self.model()),
    {
        let mut buf: Vec<u8> = Vec::new();
        put_begin_array(&mut buf);
        put_bytes(&mut buf, self.operator_account.as_vec().as_slice());
        put_bytes(&mut buf, self.cardano_stake_key_hash.as_vec().as_slice());
        put_bytes(&mut buf, self.sidechain_pubkey.as_vec().as_slice());
        let amt_be = amount_bytes(self.stake_amount);
        put_bytes(&mut buf, amt_be.as_slice());
        put_u64(&mut buf, self.expiry);
        put_u64(&mut buf, self.nonce);
        put_end(&mut buf);
        proof {
            let model = self.model();
            lemma_byte_models(self.operator_account@);
            lemma_byte_models(self.cardano_stake_key_hash@);
            lemma_byte_models(self.sidechain_pubkey@);
            lemma_joined_six(
                cbor_bytestring(model.operator_account),
                cbor_bytestring(model.cardano_stake_key_hash),
                cbor_bytestring(model.sidechain_pubkey),
                cbor_bytestring(big_endian(model.stake_amount as nat, 16)),
                cbor_uint(model.expiry as nat),
                cbor_uint(model.nonce as nat),
            );
            assert(buf@ =~= certificate_cbor(model));
        }
        buf
    }
}

proof fn lemma_certificate_layout(certificate: CertificateModel)
    ensures
        certificate_cbor(certificate).skip(1) == cbor_bytestring(certificate.operator_account) + (
        cbor_bytestring(certificate.cardano_stake_key_hash) + (cbor_bytestring(
            certificate.sidechain_pubkey,
        ) + (cbor_bytestring(big_endian(certificate.stake_amount as nat, 16)) + (cbor_uint(
            certificate.expiry as nat,
        ) + (cbor_uint(certificate.nonce as nat) + seq![0xffu8]))))),
{
    let a = cbor_bytestring(certificate.operator_account);
    let b = cbor_bytestring(certificate.cardano_stake_key_hash);
    let c = cbor_bytestring(certificate.sidechain_pubkey);
    let d = cbor_bytestring(big_endian(certificate.stake_amount as nat, 16));
    let e = cbor_uint(certificate.expiry as nat);
    let f = cbor_uint(certificate.nonce as nat);
    lemma_joined_six(a, b, c, d, e, f);
    assert(certificate_cbor(certificate).skip(1) =~= a + (b + (c + (d + (e + (f + seq![
        0xffu8,
    ]))))));
}

/// Two certificates with one encoding are the same certificate.
pub proof fn lemma_certificate_cbor_injective(a: CertificateModel, b: CertificateModel)
    requires
        a.operator_account.len() <= 64,
        a.cardano_stake_key_hash.len() <= 64,
        a.sidechain_pubkey.len() <= 64,
        b.operator_account.len() <= 64,
        b.cardano_stake_key_hash.len() <= 64,
        b.sidechain_pubkey.len() <= 64,
        certificate_cbor(a) == certificate_cbor(b),
    ensures
        a == b,
{
    let end = seq![0xffu8];
    lemma_certificate_layout(a);
    lemma_certificate_layout(b);
    let sa = big_endian(a.stake_amount as nat, 16);
    let sb = big_endian(b.stake_amount as nat, 16);
    lemma_big_endian_len(a.stake_amount as nat, 16);
    lemma_big_endian_len(b.stake_amount as nat, 16);
    let fa = cbor_uint(a.nonce as nat) + end;
    let fb = cbor_uint(b.nonce as nat) + end;
    let ea = cbor_uint(a.expiry as nat) + fa;
    let eb = cbor_uint(b.expiry as nat) + fb;
    let da = cbor_bytestring(sa) + ea;
    let db = cbor_bytestring(sb) + eb;
    let ca = cbor_bytestring(a.sidechain_pubkey) + da;
    let cb = cbor_bytestring(b.sidechain_pubkey) + db;
    let ba = cbor_bytestring(a.cardano_stake_key_hash) + ca;
    let bb = cbor_bytestring(b.cardano_stake_key_hash) + cb;
    lemma_bytestring_read_back(a.operator_account, b.operator_account, ba, bb);
    lemma_bytestring_read_back(a.cardano_stake_key_hash, b.cardano_stake_key_hash, ca, cb);
    lemma_bytestring_read_back(a.sidechain_pubkey, b.sidechain_pubkey, da, db);
    lemma_bytestring_read_back(sa, sb, ea, eb);
    reveal_with_fuel(byte_range, 17);
    lemma_big_endian_injective(a.stake_amount as nat, b.stake_amount as nat, 16);
    lemma_head_read_back(0x00, a.expiry as nat, b.expiry as nat, fa, fb);
    lemma_head_read_back(0x00, a.nonce as nat, b.nonce as nat, end, end);
}

// ---------------------------------------------------------------------------------------------
// Records

#[derive(Debug, PartialEq, Eq)]
pub struct SlashProposal {
    pub proposer: BoundedVec<u8, 64>,
    pub target_operator: BoundedVec<u8, 64>,
    pub amount: u128,
    pub reason: BoundedVec<u8, 256>,
    pub approvals: u32,
    pub rejections: u32,
}

#[verifier::ext_equal]
pub struct ProposalModel {
    pub proposer: Seq<u8>,
    pub target_operator: Seq<u8>,
    pub amount: u128,
    pub reason: Seq<u8>,
    pub approvals: u32,
    pub rejections: u32,
}

impl Model for SlashProposal {
    type M = ProposalModel;

    open spec fn model(&self) -> ProposalModel {
        ProposalModel {
            proposer: self.proposer.model(),
            target_operator: self.target_operator.model(),
            amount: self.amount,
            reason: self.reason.model(),
            approvals: self.approvals,
            rejections: self.rejections,
        }
    }

    fn duplicate(&self) -> (copy: SlashProposal) {
        SlashProposal {
            proposer: self.proposer.duplicate(),
            target_operator: self.target_operator.duplicate(),
            amount: self.amount,
            reason: self.reason.duplicate(),
            approvals: self.approvals,
            rejections: self.rejections,
        }
    }
}

/// Cardano UTXO and minted token reference stored when an operator confirms their stake.
#[derive(Debug, PartialEq, Eq)]
pub struct CardanoStakeReference {
    pub tx_hash: BoundedVec<u8, 64>,
    pub output_index: u32,
    pub policy_id: BoundedVec<u8, 64>,
    pub asset_name: BoundedVec<u8, 64>,
}

#[verifier::ext_equal]
pub struct ReferenceModel {
    pub tx_hash: Seq<u8>,
    pub output_index: u32,
    pub policy_id: Seq<u8>,
    pub asset_name: Seq<u8>,
}

impl Model for CardanoStakeReference {
    type M = ReferenceModel;

    open spec fn model(&self) -> ReferenceModel {
        ReferenceModel {
            tx_hash: self.tx_hash.model(),
            output_index: self.output_index,
            policy_id: self.policy_id.model(),
            asset_name: self.asset_name.model(),
        }
    }

    fn duplicate(&self) -> (copy: CardanoStakeReference) {
        CardanoStakeReference {
            tx_hash: self.tx_hash.duplicate(),
            output_index: self.output_index,
            policy_id: self.policy_id.duplicate(),
            asset_name: self.asset_name.duplicate(),
        }
    }
}

#[derive(Debug, PartialEq, Eq)]
pub struct OperatorRecord {
    pub account: AccountId,
    pub status: OperatorStatus,
    pub certificate_nonces: BoundedVec<u64, 128>,
}

#[verifier::ext_equal]
pub struct OperatorModel {
    pub account: AccountId,
    pub status: OperatorStatus,
    pub certificate_nonces: Seq<u64>,
}

impl Model for OperatorRecord {
    type M = OperatorModel;

    open spec fn model(&self) -> OperatorModel {
        OperatorModel {
            account: self.account,
            status: self.status,
            certificate_nonces: self.certificate_nonces@,
        }
    }

    fn duplicate(&self) -> (copy: OperatorRecord) {
        let certificate_nonces = self.certificate_nonces.duplicate();
        assert(models(certificate_nonces@) =~= certificate_nonces@);
        assert(models(self.certificate_nonces@) =~= self.certificate_nonces@);
        OperatorRecord { account: self.account, status: self.status, certificate_nonces }
    }
}

#[derive(Debug, PartialEq, Eq)]
pub struct GovernanceConfig {
    pub admins: BoundedVec<AccountId, 16>,
    pub threshold: u32,
}

#[verifier::ext_equal]
pub struct GovernanceModel {
    pub admins: Seq<AccountId>,
    pub threshold: u32,
}

impl Model for GovernanceConfig {
    type M = GovernanceModel;

    open spec fn model(&self) -> GovernanceModel {
        GovernanceModel { admins: self.admins@, threshold: self.threshold }
    }

    fn duplicate(&self) -> (copy: GovernanceConfig) {
        let admins = duplicate_accounts(&self.admins);
        GovernanceConfig { admins, threshold: self.threshold }
    }
}

pub fn duplicate_accounts(accounts: &BoundedVec<AccountId, 16>) -> (copy: BoundedVec<AccountId, 16>)
    ensures
        copy@ == accounts@,
{
    let copy = accounts.duplicate();
    assert(models(copy@) =~= copy@);
    assert(models(accounts@) =~= accounts@);
    copy
}

} // verus!
