//! The records that the oracle pallet stores.
use crate::bounded::BoundedVec;
use crate::model::{models, Model};
use crate::primitives::{AccountId, AdminSig, BlockNumber};
use vstd::prelude::*;

verus! {

// ---------------------------------------------------------------------------------------------
// Staking

#[derive(Clone, Copy, Debug, PartialEq, Eq, Structural)]
pub enum OracleNodeStakingState {
    Inactive,
    StakingApproved,
    ActiveStake,
    RetireStake,
    SlashVoting,
    SlashApproved,
    WithdrawApproved,
}

#[derive(Clone, Copy, Debug, PartialEq, Eq, Structural)]
pub enum SlashVote {
    Approve,
    Deny,
}

impl Model for SlashVote {
    type M = SlashVote;

    open spec fn model(&self) -> SlashVote {
        *self
    }

    fn duplicate(&self) -> (copy: SlashVote) {
        *self
    }
}

#[derive(Debug, PartialEq, Eq)]
pub struct NodeStakingInfo {
    pub stake_amount: u64,
    pub state: OracleNodeStakingState,
    pub stake_activated_at: BlockNumber,
    /// Cardano PKH for admin key, added to OracleSettings.nodes_admin on Cardano.
    /// Identifies the Stake UTxO on Cardano.
    pub cardano_pkh_admin: BoundedVec<u8, 32>,
    /// Cardano PKH for oracle/aggregation key, added to OracleSettings.nodes_aggregation on Cardano.
    pub cardano_pkh_aggregation: BoundedVec<u8, 32>,
}

#[verifier::ext_equal]
pub struct NodeModel {
    pub stake_amount: u64,
    pub state: OracleNodeStakingState,
    pub stake_activated_at: BlockNumber,
    pub cardano_pkh_admin: Seq<u8>,
    pub cardano_pkh_aggregation: Seq<u8>,
}

impl Model for NodeStakingInfo {
    type M = NodeModel;

    open spec fn model(&self) -> NodeModel {
        NodeModel {
            stake_amount: self.stake_amount,
            state: self.state,
            stake_activated_at: self.stake_activated_at,
            cardano_pkh_admin: self.cardano_pkh_admin.model(),
            cardano_pkh_aggregation: self.cardano_pkh_aggregation.model(),
        }
    }

    fn duplicate(&self) -> (copy: NodeStakingInfo) {
        NodeStakingInfo {
            stake_amount: self.stake_amount,
            state: self.state,
            stake_activated_at: self.stake_activated_at,
            cardano_pkh_admin: self.cardano_pkh_admin.duplicate(),
            cardano_pkh_aggregation: self.cardano_pkh_aggregation.duplicate(),
        }
    }
}

/// What the admins approve when a node is to stake.
#[derive(Debug, PartialEq, Eq)]
pub struct StakingTerms {
    pub stake_amount: u64,
    pub lock_until: BlockNumber,
    pub cardano_pkh_admin: BoundedVec<u8, 32>,
    pub cardano_pkh_aggregation: BoundedVec<u8, 32>,
}

#[verifier::ext_equal]
pub struct TermsModel {
    pub stake_amount: u64,
    pub lock_until: BlockNumber,
    pub cardano_pkh_admin: Seq<u8>,
    pub cardano_pkh_aggregation: Seq<u8>,
}

impl Model for StakingTerms {
    type M = TermsModel;

    open spec fn model(&self) -> TermsModel {
        TermsModel {
            stake_amount: self.stake_amount,
            lock_until: self.lock_until,
            cardano_pkh_admin: self.cardano_pkh_admin.model(),
            cardano_pkh_aggregation: self.cardano_pkh_aggregation.model(),
        }
    }

    fn duplicate(&self) -> (copy: StakingTerms) {
        StakingTerms {
            stake_amount: self.stake_amount,
            lock_until: self.lock_until,
            cardano_pkh_admin: self.cardano_pkh_admin.duplicate(),
            cardano_pkh_aggregation: self.cardano_pkh_aggregation.duplicate(),
        }
    }
}

impl StakingTerms {
    pub fn same(&self, other: &StakingTerms) -> (r: bool)
        ensures
            r == (self.model() == other.model()),
    {
        self.stake_amount == other.stake_amount && self.lock_until == other.lock_until
            && self.cardano_pkh_admin.same(&other.cardano_pkh_admin)
            && self.cardano_pkh_aggregation.same(&other.cardano_pkh_aggregation)
    }
}

/// The terms that the admins approved, with their signatures.
#[derive(Debug, PartialEq, Eq)]
pub struct IssuedStakingCert {
    pub terms: StakingTerms,
    pub sigs: BoundedVec<AdminSig, 32>,
}

#[verifier::ext_equal]
pub struct StakingCertModel {
    pub terms: TermsModel,
    pub sigs: Seq<AdminSig>,
}

impl Model for IssuedStakingCert {
    type M = StakingCertModel;

    open spec fn model(&self) -> StakingCertModel {
        StakingCertModel { terms: self.terms.model(), sigs: self.sigs@ }
    }

    fn duplicate(&self) -> (copy: IssuedStakingCert) {
        let sigs = duplicate_sigs(&self.sigs);
        IssuedStakingCert { terms: self.terms.duplicate(), sigs }
    }
}

/// The withdrawal that the admins approved, with their signatures.
#[derive(Debug, PartialEq, Eq)]
pub struct IssuedWithdrawalCert {
    pub approved_amount: u64,
    pub sigs: BoundedVec<AdminSig, 32>,
}

#[verifier::ext_equal]
pub struct WithdrawalCertModel {
    pub approved_amount: u64,
    pub sigs: Seq<AdminSig>,
}

impl Model for IssuedWithdrawalCert {
    type M = WithdrawalCertModel;

    open spec fn model(&self) -> WithdrawalCertModel {
        WithdrawalCertModel { approved_amount: self.approved_amount, sigs: self.sigs@ }
    }

    fn duplicate(&self) -> (copy: IssuedWithdrawalCert) {
        let sigs = duplicate_sigs(&self.sigs);
        IssuedWithdrawalCert { approved_amount: self.approved_amount, sigs }
    }
}

proof fn lemma_sig_models(sigs: Seq<AdminSig>)
    ensures
        models(sigs) == sigs,
{
    assert forall|i: int| 0 <= i < sigs.len() implies models(sigs)[i] == sigs[i] by {
        assert(sigs[i].model() == sigs[i]);
    }
    assert(models(sigs) =~= sigs);
}

pub fn duplicate_sigs(sigs: &BoundedVec<AdminSig, 32>) -> (copy: BoundedVec<AdminSig, 32>)
    ensures
        copy@ == sigs@,
{
    let copy = sigs.duplicate();
    proof {
        lemma_sig_models(sigs@);
        lemma_sig_models(copy@);
    }
    copy
}

/// A proposal to slash the stake of a node.
#[derive(Clone, Copy, Debug, PartialEq, Eq)]
pub struct SlashProposal {
    pub slash_amount: u64,
    pub initiated_by: AccountId,
    pub when: BlockNumber,
}

impl Model for SlashProposal {
    type M = SlashProposal;

    open spec fn model(&self) -> SlashProposal {
        *self
    }

    fn duplicate(&self) -> (copy: SlashProposal) {
        *self
    }
}

// ---------------------------------------------------------------------------------------------
// Consensus

/// A price, its age in blocks, and the ed25519 public keys of the rewarded nodes.
pub type PriceEntry = (u64, u16, BoundedVec<[u8; 32], 64>);

pub type PriceEntryModel = (u64, u16, Seq<[u8; 32]>);

/// This is the aggregated data after oracle consensus
#[derive(Debug, PartialEq, Eq)]
pub struct AggregationState {
    /// Vec of prices and their respective age (in blocks ago),
    /// Third entry is a vec of byte arrays for rewarded nodes ed25519 public keys
    pub prices_age_and_rewards: BoundedVec<Option<PriceEntry>, 64>,
    /// Aggregation timestamp
    pub timestamp: u64,
}

#[verifier::ext_equal]
pub struct AggregationModel {
    pub prices_age_and_rewards: Seq<Option<PriceEntryModel>>,
    pub timestamp: u64,
}

impl Model for AggregationState {
    type M = AggregationModel;

    open spec fn model(&self) -> AggregationModel {
        AggregationModel {
            prices_age_and_rewards: self.prices_age_and_rewards.model(),
            timestamp: self.timestamp,
        }
    }

    fn duplicate(&self) -> (copy: AggregationState) {
        AggregationState {
            prices_age_and_rewards: self.prices_age_and_rewards.duplicate(),
            timestamp: self.timestamp,
        }
    }
}

} // verus!
