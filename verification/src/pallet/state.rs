//! The storage of the oracle pallet, its events and errors, and its genesis.
use crate::bounded::BoundedVec;
use crate::model::Model;
use crate::pallet::messages::{OracleMessage, OracleMessageModel};
use crate::pallet::types::{
    AggregationModel, AggregationState, IssuedStakingCert, IssuedWithdrawalCert, NodeModel,
    NodeStakingInfo, OracleNodeStakingState, SlashProposal, SlashVote, StakingCertModel,
    StakingTerms, TermsModel, WithdrawalCertModel,
};
use crate::primitives::{AccountId, AdminSig, BlockNumber, Signature};
use crate::sorted_map::SortedMap;
use crate::types::config::node::{ada_usd, ada_usd_pair, ConsensusModel, PairModel, RewardModel};
use crate::types::{
    ChannelId, ConsensusConfiguration, MessagesConfiguration, RewardConfiguration, TradePair,
};
use vstd::prelude::*;

verus! {

// ---------------------------------------------------------------------------------------------
// Errors and events

#[derive(Clone, Copy, Debug, PartialEq, Eq, Structural)]
pub enum Error {
    /// Oracle node is not authorized to submit data
    UnauthorizedNode,
    /// Invalid state for operation
    InvalidNodeState,
    /// Stake amount mismatch
    StakeMismatch,
    /// Slash amount invalid
    SlashAmountInvalid,
    /// Cannot vote for yourself
    CannotVoteForSelf,
    /// No active slash to vote on
    NoActiveSlash,
    /// Approved amount invalid
    ApprovedAmountInvalid,
    /// Amount mismatch on withdrawal
    AmountMismatch,
    /// Signing admin submitted different params than the existing proposal
    ProposalMismatch,
    /// This account has already signed this proposal
    AlreadySigned,
}

#[allow(inconsistent_fields)]
#[derive(Debug, PartialEq, Eq)]
pub enum Event {
    StoredPrices { count: u16, who: AccountId, when: BlockNumber },
    StoredSignatures {
        who: AccountId,
        when: BlockNumber,
        signatures: Vec<(OracleMessage, Signature)>,
    },
    Status { current_state: AggregationState, block: BlockNumber },
    UpdatedConfig {
        consensus_config: ConsensusConfiguration,
        channels_to_trade_pairs: MessagesConfiguration,
        reward_config: Option<RewardConfiguration>,
        block: BlockNumber,
    },
    AddedOracleNode { which: AccountId, block: BlockNumber },
    RemovedOracleNode { which: AccountId, block: BlockNumber },
    /// Staking certificate was issued and approved. It carries the threshold admin signatures
    /// inline.
    StakingCertificateIssued { node: AccountId, certificate: IssuedStakingCert, when: BlockNumber },
    /// Staking confirmed on Cardano
    StakingConfirmed {
        node: AccountId,
        tx_hash: [u8; 32],
        stake_amount: u64,
        when: BlockNumber,
    },
    /// Node requested retire
    RetireRequested { node: AccountId, when: BlockNumber },
    /// Retire certificate issued
    RetireCertificateIssued { node: AccountId, lock_until: BlockNumber, when: BlockNumber },
    /// Slash request initiated
    SlashRequested {
        node: AccountId,
        slash_amount: u64,
        initiated_by: AccountId,
        when: BlockNumber,
    },
    /// Slash vote cast
    SlashVoteCast { node: AccountId, voter: AccountId, vote: SlashVote, when: BlockNumber },
    /// Slash approved by voting
    SlashApproved {
        node: AccountId,
        slash_amount: u64,
        approve_count: u32,
        deny_count: u32,
        when: BlockNumber,
    },
    /// Slash rejected by voting
    SlashRejected {
        node: AccountId,
        approve_count: u32,
        deny_count: u32,
        when: BlockNumber,
    },
    /// Withdrawal certificate issued. It carries the threshold admin signatures inline.
    WithdrawalCertificateIssued {
        node: AccountId,
        certificate: IssuedWithdrawalCert,
        when: BlockNumber,
    },
    /// An admin signed a staking approval, waiting for more signatures.
    StakingApprovalSigned { node: AccountId, signer: AccountId, when: BlockNumber },
    /// An admin signed a withdrawal approval, waiting for more signatures.
    WithdrawalApprovalSigned { node: AccountId, signer: AccountId, when: BlockNumber },
    /// Withdrawal confirmed on Cardano
    WithdrawalConfirmed {
        node: AccountId,
        tx_hash: [u8; 32],
        released_amount: u64,
        penalty_amount: u64,
        when: BlockNumber,
    },
}

#[allow(inconsistent_fields)]
#[verifier::ext_equal]
pub enum EventModel {
    StoredPrices { count: u16, who: AccountId, when: BlockNumber },
    StoredSignatures {
        who: AccountId,
        when: BlockNumber,
        signatures: Seq<(OracleMessageModel, Seq<u8>)>,
    },
    Status { current_state: AggregationModel, block: BlockNumber },
    UpdatedConfig {
        consensus_config: ConsensusModel,
        channels_to_trade_pairs: Seq<(Seq<u8>, Seq<u16>)>,
        reward_config: Option<RewardModel>,
        block: BlockNumber,
    },
    AddedOracleNode { which: AccountId, block: BlockNumber },
    RemovedOracleNode { which: AccountId, block: BlockNumber },
    StakingCertificateIssued { node: AccountId, certificate: StakingCertModel, when: BlockNumber },
    StakingConfirmed {
        node: AccountId,
        tx_hash: [u8; 32],
        stake_amount: u64,
        when: BlockNumber,
    },
    RetireRequested { node: AccountId, when: BlockNumber },
    RetireCertificateIssued { node: AccountId, lock_until: BlockNumber, when: BlockNumber },
    SlashRequested {
        node: AccountId,
        slash_amount: u64,
        initiated_by: AccountId,
        when: BlockNumber,
    },
    SlashVoteCast { node: AccountId, voter: AccountId, vote: SlashVote, when: BlockNumber },
    SlashApproved {
        node: AccountId,
        slash_amount: u64,
        approve_count: u32,
        deny_count: u32,
        when: BlockNumber,
    },
    SlashRejected {
        node: AccountId,
        approve_count: u32,
        deny_count: u32,
        when: BlockNumber,
    },
    WithdrawalCertificateIssued {
        node: AccountId,
        certificate: WithdrawalCertModel,
        when: BlockNumber,
    },
    StakingApprovalSigned { node: AccountId, signer: AccountId, when: BlockNumber },
    WithdrawalApprovalSigned { node: AccountId, signer: AccountId, when: BlockNumber },
    WithdrawalConfirmed {
        node: AccountId,
        tx_hash: [u8; 32],
        released_amount: u64,
        penalty_amount: u64,
        when: BlockNumber,
    },
}

impl Event {
    pub open spec fn model(&self) -> EventModel {
        match *self {
            Event::StoredPrices { count, who, when } => EventModel::StoredPrices {
                count,
                who,
                when,
            },
            Event::StoredSignatures { who, when, signatures } => EventModel::StoredSignatures {
                who,
                when,
                signatures: signatures.model(),
            },
            Event::Status { current_state, block } => EventModel::Status {
                current_state: current_state.model(),
                block,
            },
            Event::UpdatedConfig {
                consensus_config,
                channels_to_trade_pairs,
                reward_config,
                block,
            } => EventModel::UpdatedConfig {
                consensus_config: consensus_config.model(),
                channels_to_trade_pairs: channels_to_trade_pairs.model(),
                reward_config: reward_config.model(),
                block,
            },
            Event::AddedOracleNode { which, block } => EventModel::AddedOracleNode {
                which,
                block,
            },
            Event::RemovedOracleNode { which, block } => EventModel::RemovedOracleNode {
                which,
                block,
            },
            Event::StakingCertificateIssued { node, certificate, when } =>
                EventModel::StakingCertificateIssued {
                node,
                certificate: certificate.model(),
                when,
            },
            Event::StakingConfirmed { node, tx_hash, stake_amount, when } =>
                EventModel::StakingConfirmed { node, tx_hash, stake_amount, when },
            Event::RetireRequested { node, when } => EventModel::RetireRequested { node, when },
            Event::RetireCertificateIssued { node, lock_until, when } =>
                EventModel::RetireCertificateIssued { node, lock_until, when },
            Event::SlashRequested { node, slash_amount, initiated_by, when } =>
                EventModel::SlashRequested { node, slash_amount, initiated_by, when },
            Event::SlashVoteCast { node, voter, vote, when } => EventModel::SlashVoteCast {
                node,
                voter,
                vote,
                when,
            },
            Event::SlashApproved { node, slash_amount, approve_count, deny_count, when } =>
                EventModel::SlashApproved { node, slash_amount, approve_count, deny_count, when },
            Event::SlashRejected { node, approve_count, deny_count, when } =>
                EventModel::SlashRejected { node, approve_count, deny_count, when },
            Event::WithdrawalCertificateIssued { node, certificate, when } =>
                EventModel::WithdrawalCertificateIssued {
                node,
                certificate: certificate.model(),
                when,
            },
            Event::StakingApprovalSigned { node, signer, when } =>
                EventModel::StakingApprovalSigned { node, signer, when },
            Event::WithdrawalApprovalSigned { node, signer, when } =>
                EventModel::WithdrawalApprovalSigned { node, signer, when },
            Event::WithdrawalConfirmed {
                node,
                tx_hash,
                released_amount,
                penalty_amount,
                when,
            } => EventModel::WithdrawalConfirmed {
                node,
                tx_hash,
                released_amount,
                penalty_amount,
                when,
            },
        }
    }
}

// ---------------------------------------------------------------------------------------------
// Storage

/// The storage of the pallet and the events it has deposited.
#[derive(Debug, PartialEq, Eq)]
pub struct Pallet {
    pub min_nodes_for_trusted_aggregation: Option<u32>,
    pub feed_age: Option<u16>,
    pub outliers_range: Option<u32>,
    pub divergency: Option<u32>,
    pub reward_policy_id: Option<ChannelId>,
    pub reward_asset_name: Option<BoundedVec<u8, 64>>,
    pub trade_pairs: Option<BoundedVec<TradePair, 64>>,
    pub channels_to_trade_pairs: Option<MessagesConfiguration>,
    pub authorized_oracle_nodes: SortedMap<AccountId, NodeStakingInfo>,
    /// Pending staking approval of each node. Created by the first admin signer, cleared when the
    /// threshold is met.
    pub staking_approval_info: SortedMap<AccountId, StakingTerms>,
    /// Staking approval signatures by node and signer. Cleared when the threshold is met and the
    /// certificate is emitted.
    pub staking_approval_sigs: SortedMap<(AccountId, AccountId), AdminSig>,
    /// Pending withdrawal approval: the approved amount of each node.
    pub withdrawal_approval_info: SortedMap<AccountId, u64>,
    /// Withdrawal approval signatures by node and signer.
    pub withdrawal_approval_sigs: SortedMap<(AccountId, AccountId), AdminSig>,
    /// Issued staking certificates, written when the threshold is met and cleared when the node
    /// confirms its stake.
    pub issued_staking_certs: SortedMap<AccountId, IssuedStakingCert>,
    /// Issued withdrawal certificates, written when the threshold is met and cleared when the node
    /// confirms its withdrawal.
    pub issued_withdrawal_certs: SortedMap<AccountId, IssuedWithdrawalCert>,
    /// Slash votes by the node being slashed and the voting node.
    pub slash_votes: SortedMap<(AccountId, AccountId), SlashVote>,
    /// Slash proposals by node.
    pub slash_proposals: SortedMap<AccountId, SlashProposal>,
    /// The latest price of each node and the block it was submitted in, by trade pair and node.
    pub nodes_prices: SortedMap<(TradePair, AccountId), (u64, BlockNumber)>,
    /// Prices after the consensus of the nodes.
    pub aggregation: Option<AggregationState>,
    /// Signatures by the channel and timestamp of the oracle message and the signatory.
    pub signature_storage: SortedMap<((ChannelId, u64), AccountId), [u8; 64]>,
    pub events: Vec<Event>,
}

#[verifier::ext_equal]
pub struct PalletModel {
    pub min_nodes_for_trusted_aggregation: Option<u32>,
    pub feed_age: Option<u16>,
    pub outliers_range: Option<u32>,
    pub divergency: Option<u32>,
    pub reward_policy_id: Option<Seq<u8>>,
    pub reward_asset_name: Option<Seq<u8>>,
    pub trade_pairs: Option<Seq<PairModel>>,
    pub channels_to_trade_pairs: Option<Seq<(Seq<u8>, Seq<u16>)>>,
    pub authorized_oracle_nodes: Map<AccountId, NodeModel>,
    pub staking_approval_info: Map<AccountId, TermsModel>,
    pub staking_approval_sigs: Map<(AccountId, AccountId), AdminSig>,
    pub withdrawal_approval_info: Map<AccountId, u64>,
    pub withdrawal_approval_sigs: Map<(AccountId, AccountId), AdminSig>,
    pub issued_staking_certs: Map<AccountId, StakingCertModel>,
    pub issued_withdrawal_certs: Map<AccountId, WithdrawalCertModel>,
    pub slash_votes: Map<(AccountId, AccountId), SlashVote>,
    pub slash_proposals: Map<AccountId, SlashProposal>,
    pub nodes_prices: Map<(PairModel, AccountId), (u64, BlockNumber)>,
    pub aggregation: Option<AggregationModel>,
    pub signature_storage: Map<((Seq<u8>, u64), AccountId), [u8; 64]>,
    pub events: Seq<EventModel>,
}

pub open spec fn event_models(events: Seq<Event>) -> Seq<EventModel> {
    events.map_values(|event: Event| event.model())
}

impl View for Pallet {
    type V = PalletModel;

    open spec fn view(&self) -> PalletModel {
        PalletModel {
            min_nodes_for_trusted_aggregation: self.min_nodes_for_trusted_aggregation,
            feed_age: self.feed_age,
            outliers_range: self.outliers_range,
            divergency: self.divergency,
            reward_policy_id: self.reward_policy_id.model(),
            reward_asset_name: self.reward_asset_name.model(),
            trade_pairs: self.trade_pairs.model(),
            channels_to_trade_pairs: self.channels_to_trade_pairs.model(),
            authorized_oracle_nodes: self.authorized_oracle_nodes@,
            staking_approval_info: self.staking_approval_info@,
            staking_approval_sigs: self.staking_approval_sigs@,
            withdrawal_approval_info: self.withdrawal_approval_info@,
            withdrawal_approval_sigs: self.withdrawal_approval_sigs@,
            issued_staking_certs: self.issued_staking_certs@,
            issued_withdrawal_certs: self.issued_withdrawal_certs@,
            slash_votes: self.slash_votes@,
            slash_proposals: self.slash_proposals@,
            nodes_prices: self.nodes_prices@,
            aggregation: self.aggregation.model(),
            signature_storage: self.signature_storage@,
            events: event_models(self.events@),
        }
    }
}

/// A pallet without any storage.
pub open spec fn empty_pallet() -> PalletModel {
    PalletModel {
        min_nodes_for_trusted_aggregation: None,
        feed_age: None,
        outliers_range: None,
        divergency: None,
        reward_policy_id: None,
        reward_asset_name: None,
        trade_pairs: None,
        channels_to_trade_pairs: None,
        authorized_oracle_nodes: Map::empty(),
        staking_approval_info: Map::empty(),
        staking_approval_sigs: Map::empty(),
        withdrawal_approval_info: Map::empty(),
        withdrawal_approval_sigs: Map::empty(),
        issued_staking_certs: Map::empty(),
        issued_withdrawal_certs: Map::empty(),
        slash_votes: Map::empty(),
        slash_proposals: Map::empty(),
        nodes_prices: Map::empty(),
        aggregation: None,
        signature_storage: Map::empty(),
        events: Seq::empty(),
    }
}

impl Pallet {
    pub fn new() -> (pallet: Pallet)
        ensures
            pallet@ == empty_pallet(),
    {
        let pallet = Pallet {
            min_nodes_for_trusted_aggregation: None,
            feed_age: None,
            outliers_range: None,
            divergency: None,
            reward_policy_id: None,
            reward_asset_name: None,
            trade_pairs: None,
            channels_to_trade_pairs: None,
            authorized_oracle_nodes: SortedMap::new(),
            staking_approval_info: SortedMap::new(),
            staking_approval_sigs: SortedMap::new(),
            withdrawal_approval_info: SortedMap::new(),
            withdrawal_approval_sigs: SortedMap::new(),
            issued_staking_certs: SortedMap::new(),
            issued_withdrawal_certs: SortedMap::new(),
            slash_votes: SortedMap::new(),
            slash_proposals: SortedMap::new(),
            nodes_prices: SortedMap::new(),
            aggregation: None,
            signature_storage: SortedMap::new(),
            events: Vec::new(),
        };
        assert(pallet@ =~= empty_pallet());
        pallet
    }

    pub(crate) fn deposit_event(&mut self, event: Event)
        ensures
            final(self)@ == (PalletModel {
                events: old(self)@.events.push(event.model()),
                ..old(self)@
            }),
    {
        self.events.push(event);
        assert(event_models(self.events@) =~= event_models(old(self).events@).push(event.model()));
    }
}

// ---------------------------------------------------------------------------------------------
// Genesis

/// oracle genesis config definition
#[derive(Debug, PartialEq, Eq)]
pub struct GenesisConfig {
    pub min_nodes_for_trusted_aggregation: u32,
    pub authorized_nodes: BoundedVec<AccountId, 32>,
    pub feed_age: u16,
    pub outliers_range: u32,
    pub divergency: u32,
    pub trade_pairs: BoundedVec<TradePair, 64>,
    pub channels_to_trade_pairs: MessagesConfiguration,
    pub reward_policy_id: Option<ChannelId>,
    pub reward_asset_name: Option<BoundedVec<u8, 64>>,
}

/// A node that the genesis authorizes: it has no stake and is active.
pub open spec fn founding_node() -> NodeModel {
    NodeModel {
        stake_amount: 0,
        state: OracleNodeStakingState::ActiveStake,
        stake_activated_at: 0,
        cardano_pkh_admin: Seq::empty(),
        cardano_pkh_aggregation: Seq::empty(),
    }
}

/// The nodes with the founding nodes added.
pub open spec fn with_founders(
    nodes: Map<AccountId, NodeModel>,
    founders: Seq<AccountId>,
) -> Map<AccountId, NodeModel>
    decreases founders.len(),
{
    if founders.len() == 0 {
        nodes
    } else {
        with_founders(nodes, founders.drop_last()).insert(founders.last(), founding_node())
    }
}

impl Default for GenesisConfig {
    fn default() -> (config: GenesisConfig)
        ensures
            config.min_nodes_for_trusted_aggregation == 0,
            config.authorized_nodes@.len() == 0,
            config.feed_age == 0,
            config.outliers_range == 0,
            config.divergency == 0,
            config.trade_pairs.model() == seq![ada_usd()],
            config.channels_to_trade_pairs@.len() == 0,
            config.reward_policy_id is None,
            config.reward_asset_name is None,
    {
        let mut pairs: Vec<TradePair> = Vec::new();
        pairs.push(ada_usd_pair());
        let trade_pairs: BoundedVec<TradePair, 64> = BoundedVec::truncate_from(pairs);
        assert(trade_pairs.model() =~= seq![ada_usd()]);
        GenesisConfig {
            min_nodes_for_trusted_aggregation: 0,
            authorized_nodes: BoundedVec::new(),
            feed_age: 0,
            outliers_range: 0,
            divergency: 0,
            trade_pairs,
            channels_to_trade_pairs: BoundedVec::new(),
            reward_policy_id: None,
            reward_asset_name: None,
        }
    }
}

impl GenesisConfig {
    /// The storage that the genesis leaves behind.
    pub open spec fn built(&self, s: PalletModel) -> PalletModel {
        PalletModel {
            min_nodes_for_trusted_aggregation: Some(self.min_nodes_for_trusted_aggregation),
            feed_age: Some(self.feed_age),
            outliers_range: Some(self.outliers_range),
            divergency: Some(self.divergency),
            trade_pairs: Some(self.trade_pairs.model()),
            channels_to_trade_pairs: Some(self.channels_to_trade_pairs.model()),
            reward_policy_id: if self.reward_policy_id is Some {
                self.reward_policy_id.model()
            } else {
                s.reward_policy_id
            },
            reward_asset_name: if self.reward_asset_name is Some {
                self.reward_asset_name.model()
            } else {
                s.reward_asset_name
            },
            authorized_oracle_nodes: with_founders(
                s.authorized_oracle_nodes,
                self.authorized_nodes@,
            ),
            ..s
        }
    }

    /// Writes the configuration to storage. Genesis nodes are pre-authorized and start as
    /// ActiveStake: they are the founding nodes that do not need to go through the staking flow.
    pub fn build(&self, pallet: &mut Pallet)
        ensures
            final(pallet)@ == self.built(old(pallet)@),
    {
        pallet.min_nodes_for_trusted_aggregation = Some(self.min_nodes_for_trusted_aggregation);
        pallet.feed_age = Some(self.feed_age);
        pallet.outliers_range = Some(self.outliers_range);
        pallet.divergency = Some(self.divergency);
        pallet.trade_pairs = Some(self.trade_pairs.duplicate());
        pallet.channels_to_trade_pairs = Some(self.channels_to_trade_pairs.duplicate());
        if self.reward_policy_id.is_some() {
            pallet.reward_policy_id = self.reward_policy_id.duplicate();
        }
        if self.reward_asset_name.is_some() {
            pallet.reward_asset_name = self.reward_asset_name.duplicate();
        }
        let ghost settings = pallet@;
        let ghost before = old(pallet)@.authorized_oracle_nodes;
        let n: usize = self.authorized_nodes.len();
        for i in 0..n
            invariant
                n == self.authorized_nodes@.len(),
                pallet@ == (PalletModel {
                    authorized_oracle_nodes: with_founders(
                        before,
                        self.authorized_nodes@.take(i as int),
                    ),
                    ..settings
                }),
        {
            let info = NodeStakingInfo {
                stake_amount: 0,
                state: OracleNodeStakingState::ActiveStake,
                stake_activated_at: 0,
                cardano_pkh_admin: BoundedVec::new(),
                cardano_pkh_aggregation: BoundedVec::new(),
            };
            assert(info.model() =~= founding_node());
            proof {
                let shorter = self.authorized_nodes@.take(i as int);
                let longer = self.authorized_nodes@.take(i + 1);
                assert(longer.drop_last() =~= shorter);
            }
            pallet.authorized_oracle_nodes.insert(*self.authorized_nodes.at(i), info);
        }
        assert(self.authorized_nodes@.take(self.authorized_nodes@.len() as int)
            =~= self.authorized_nodes@);
    }
}

} // verus!
