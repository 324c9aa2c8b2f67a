//! Prices, signatures and configuration.
use crate::bounded::BoundedVec;
use crate::model::Model;
use crate::pallet::messages::{OracleMessage, OracleMessageModel};
use crate::pallet::staking::refused;
use crate::pallet::laws::{applied, CallModel};
use crate::pallet::state::{Error, Event, EventModel, Pallet, PalletModel};
use crate::pallet::types::{NodeModel, NodeStakingInfo, OracleNodeStakingState};
use crate::primitives::{outcome, AccountId, BlockNumber, DispatchError, Origin, Signature};
use crate::types::config::node::{ConsensusModel, PairModel, RewardModel};
use crate::types::{ConsensusConfiguration, MessagesConfiguration, RewardConfiguration, TradePair};
use vstd::prelude::*;

verus! {

/// What becomes of the account of a node, outside of the pallet.
#[derive(Clone, Copy, Debug, PartialEq, Eq)]
pub enum ProviderChange {
    /// The account gains a provider reference: it exists, with zero balance.
    Increase(AccountId),
    /// The account loses a provider reference. Where that fails the account stays, without
    /// authorization.
    Decrease(AccountId),
}

/// Only authorized oracle nodes can submit data.
pub open spec fn submission_refusal(s: PalletModel, origin: Origin) -> Option<
    DispatchError<Error>,
> {
    match origin {
        Origin::Signed(who) => if s.authorized_oracle_nodes.contains_key(who) {
            None
        } else {
            refused(Error::UnauthorizedNode)
        },
        _ => Some(DispatchError::BadOrigin),
    }
}

pub open spec fn root_refusal(origin: Origin) -> Option<DispatchError<Error>> {
    if origin == Origin::Root {
        None
    } else {
        Some(DispatchError::BadOrigin)
    }
}

// ---------------------------------------------------------------------------------------------
// Prices

/// The prices with those of a node added; of two for one trade pair the later stays.
pub open spec fn with_prices(
    stored: Map<(PairModel, AccountId), (u64, BlockNumber)>,
    who: AccountId,
    when: BlockNumber,
    prices: Seq<(PairModel, u64)>,
) -> Map<(PairModel, AccountId), (u64, BlockNumber)>
    decreases prices.len(),
{
    if prices.len() == 0 {
        stored
    } else {
        with_prices(stored, who, when, prices.drop_last()).insert(
            (prices.last().0, who),
            (prices.last().1, when),
        )
    }
}

/// Why prices are refused.
pub open spec fn prices_refusal(s: PalletModel, origin: Origin, count: nat) -> Option<
    DispatchError<Error>,
> {
    if submission_refusal(s, origin) is Some {
        submission_refusal(s, origin)
    } else if count > u16::MAX {
        Some(DispatchError::CountOverflow)
    } else {
        None
    }
}

pub open spec fn prices_stored(
    s: PalletModel,
    who: AccountId,
    when: BlockNumber,
    prices: Seq<(PairModel, u64)>,
) -> PalletModel {
    PalletModel {
        nodes_prices: with_prices(s.nodes_prices, who, when, prices),
        events: s.events.push(EventModel::StoredPrices { count: prices.len() as u16, who, when }),
        ..s
    }
}

// ---------------------------------------------------------------------------------------------
// Signatures

/// The signature without the byte that names its scheme.
pub open spec fn signature_bytes(encoded: Seq<u8>) -> [u8; 64] {
    choose|bytes: [u8; 64]| bytes@ == encoded.skip(1)
}

/// The signatures with those of a node added; of two for one channel and timestamp the later stays.
pub open spec fn with_signatures(
    stored: Map<((Seq<u8>, u64), AccountId), [u8; 64]>,
    who: AccountId,
    signatures: Seq<(OracleMessageModel, Seq<u8>)>,
) -> Map<((Seq<u8>, u64), AccountId), [u8; 64]>
    decreases signatures.len(),
{
    if signatures.len() == 0 {
        stored
    } else {
        let (message, signature) = signatures.last();
        with_signatures(stored, who, signatures.drop_last()).insert(
            ((message.channel_id, message.timestamp), who),
            signature_bytes(signature),
        )
    }
}

pub open spec fn signatures_stored(
    s: PalletModel,
    who: AccountId,
    when: BlockNumber,
    signatures: Seq<(OracleMessageModel, Seq<u8>)>,
) -> PalletModel {
    PalletModel {
        signature_storage: with_signatures(s.signature_storage, who, signatures),
        events: s.events.push(EventModel::StoredSignatures { who, when, signatures }),
        ..s
    }
}

/// Every signature has the length of an ed25519 or sr25519 signature with its scheme byte.
pub open spec fn signatures_fit(signatures: Seq<(OracleMessage, Signature)>) -> bool {
    forall|i: int| 0 <= i < signatures.len() ==> (#[trigger] signatures[i]).1.encoded@.len() == 65
}

/// Removes the scheme byte.
pub fn strip_scheme(signature: &Signature) -> (r: [u8; 64])
    requires
        signature.encoded@.len() == 65,
    ensures
        r@ == signature.encoded@.skip(1),
        r == signature_bytes(signature.encoded@),
{
    let mut bytes: [u8; 64] = [0u8;64];
    for i in 0..64usize
        invariant
            signature.encoded@.len() == 65,
            forall|j: int| 0 <= j < i ==> bytes@[j] == signature.encoded@[j + 1],
    {
        bytes[i] = signature.encoded[i + 1];
    }
    proof {
        assert(bytes@ =~= signature.encoded@.skip(1));
        let chosen = signature_bytes(signature.encoded@);
        assert(chosen@ == bytes@);
        assert forall|j: int| 0 <= j < 64 implies chosen[j] == bytes[j] by {
            assert(chosen@[j] == bytes@[j]);
        }
        assert(chosen =~= bytes);
    }
    bytes
}

// ---------------------------------------------------------------------------------------------
// Configuration

/// The storage with a new configuration.
pub open spec fn configured(
    s: PalletModel,
    when: BlockNumber,
    consensus: ConsensusModel,
    channels: Seq<(Seq<u8>, Seq<u16>)>,
    reward: Option<RewardModel>,
) -> PalletModel {
    PalletModel {
        min_nodes_for_trusted_aggregation: Some(consensus.min_nodes_for_trusted_aggregation),
        feed_age: Some(consensus.feed_age),
        outliers_range: Some(consensus.outliers_range),
        divergency: Some(consensus.divergency),
        trade_pairs: Some(consensus.trade_pairs),
        channels_to_trade_pairs: Some(channels),
        reward_policy_id: match reward {
            Some(config) => Some(config.reward_policy_id),
            None => None,
        },
        reward_asset_name: match reward {
            Some(config) => Some(config.reward_asset_name),
            None => None,
        },
        events: s.events.push(
            EventModel::UpdatedConfig {
                consensus_config: consensus,
                channels_to_trade_pairs: channels,
                reward_config: reward,
                block: when,
            },
        ),
        ..s
    }
}

/// The configuration in storage, if every part of it is set.
pub open spec fn oracle_config(s: PalletModel) -> Option<ConsensusModel> {
    match (
        s.min_nodes_for_trusted_aggregation,
        s.feed_age,
        s.outliers_range,
        s.divergency,
        s.trade_pairs,
    ) {
        (
            Some(min_nodes_for_trusted_aggregation),
            Some(feed_age),
            Some(outliers_range),
            Some(divergency),
            Some(trade_pairs),
        ) => Some(
            ConsensusModel {
                min_nodes_for_trusted_aggregation,
                feed_age,
                outliers_range,
                divergency,
                trade_pairs,
            },
        ),
        _ => None,
    }
}

/// The reward asset in storage, if both parts of it are set.
pub open spec fn reward_config(s: PalletModel) -> Option<RewardModel> {
    match (s.reward_policy_id, s.reward_asset_name) {
        (Some(reward_policy_id), Some(reward_asset_name)) => Some(
            RewardModel { reward_policy_id, reward_asset_name },
        ),
        _ => None,
    }
}

/// A node that was registered at block `when`: it has no stake and is inactive.
pub open spec fn registered_node(when: BlockNumber) -> NodeModel {
    NodeModel {
        stake_amount: 0,
        state: OracleNodeStakingState::Inactive,
        stake_activated_at: when,
        cardano_pkh_admin: Seq::empty(),
        cardano_pkh_aggregation: Seq::empty(),
    }
}

pub open spec fn node_registered(s: PalletModel, when: BlockNumber, node: AccountId) -> PalletModel {
    PalletModel {
        authorized_oracle_nodes: s.authorized_oracle_nodes.insert(node, registered_node(when)),
        events: s.events.push(EventModel::AddedOracleNode { which: node, block: when }),
        ..s
    }
}

pub open spec fn node_deregistered(s: PalletModel, when: BlockNumber, node: AccountId) -> PalletModel {
    PalletModel {
        authorized_oracle_nodes: s.authorized_oracle_nodes.remove(node),
        events: s.events.push(EventModel::RemovedOracleNode { which: node, block: when }),
        ..s
    }
}

impl Pallet {
    /// Stores the latest prices of an oracle node.
    pub fn store_prices(
        &mut self,
        origin: Origin,
        when: BlockNumber,
        prices: Vec<(TradePair, u64)>,
    ) -> (r: Result<(), DispatchError<Error>>)
        ensures
            final(self)@ == applied(
                old(self)@,
                CallModel::StorePrices { origin, when, prices: prices.model() },
            ),
            ({
                let refusal = prices_refusal(old(self)@, origin, prices@.len());
                &&& r == outcome(refusal)
                &&& final(self)@ == if refusal is Some {
                    old(self)@
                } else {
                    prices_stored(old(self)@, origin->Signed_0, when, prices.model())
                }
            }),
    {
        let who = match origin {
            Origin::Signed(who) => who,
            _ => {
                return Err(DispatchError::BadOrigin);
            },
        };
        if !self.authorized_oracle_nodes.contains_key(&who) {
            return Err(DispatchError::Module(Error::UnauthorizedNode));
        }
        if prices.len() > u16::MAX as usize {
            return Err(DispatchError::CountOverflow);
        }
        let ghost all = prices.model();
        let ghost start = self@;
        assert(all.take(0) =~= Seq::<(PairModel, u64)>::empty());
        for i in 0..prices.len()
            invariant
                all == prices.model(),
                self@ == (PalletModel {
                    nodes_prices: with_prices(
                        start.nodes_prices,
                        who,
                        when,
                        all.take(i as int),
                    ),
                    ..start
                }),
        {
            proof {
                assert(all.take(i + 1).drop_last() =~= all.take(i as int));
                assert(all.take(i + 1).last() == prices@[i as int].model());
            }
            self.nodes_prices.insert((prices[i].0.duplicate(), who), (prices[i].1, when));
        }
        assert(all.take(all.len() as int) =~= all);
        self.deposit_event(Event::StoredPrices { count: prices.len() as u16, who, when });
        assert(self@ =~= prices_stored(start, who, when, all));
        Ok(())
    }

    /// Stores the signatures of an oracle node for oracle messages.
    pub fn store_signatures(
        &mut self,
        origin: Origin,
        when: BlockNumber,
        signatures: Vec<(OracleMessage, Signature)>,
    ) -> (r: Result<(), DispatchError<Error>>)
        requires
            submission_refusal(old(self)@, origin) is None ==> signatures_fit(signatures@),
        ensures
            final(self)@ == applied(
                old(self)@,
                CallModel::StoreSignatures { origin, when, signatures: signatures.model() },
            ),
            ({
                let refusal = submission_refusal(old(self)@, origin);
                &&& r == outcome(refusal)
                &&& final(self)@ == if refusal is Some {
                    old(self)@
                } else {
                    signatures_stored(old(self)@, origin->Signed_0, when, signatures.model())
                }
            }),
    {
        let who = match origin {
            Origin::Signed(who) => who,
            _ => {
                return Err(DispatchError::BadOrigin);
            },
        };
        if !self.authorized_oracle_nodes.contains_key(&who) {
            return Err(DispatchError::Module(Error::UnauthorizedNode));
        }
        let ghost all = signatures.model();
        let ghost start = self@;
        assert(all.take(0) =~= Seq::<(OracleMessageModel, Seq<u8>)>::empty());
        for i in 0..signatures.len()
            invariant
                all == signatures.model(),
                signatures_fit(signatures@),
                self@ == (PalletModel {
                    signature_storage: with_signatures(
                        start.signature_storage,
                        who,
                        all.take(i as int),
                    ),
                    ..start
                }),
        {
            proof {
                assert(all.take(i + 1).drop_last() =~= all.take(i as int));
                assert(all.take(i + 1).last() == signatures@[i as int].model());
            }
            let message = &signatures[i].0;
            let signature_encoded = strip_scheme(&signatures[i].1);
            self.signature_storage.insert(
                ((message.channel_id.duplicate(), message.timestamp), who),
                signature_encoded,
            );
        }
        assert(all.take(all.len() as int) =~= all);
        self.deposit_event(Event::StoredSignatures { who, when, signatures });
        assert(self@ =~= signatures_stored(start, who, when, all));
        Ok(())
    }

    /// The root sets the configuration of the oracle.
    pub fn sudo_set_config(
        &mut self,
        origin: Origin,
        when: BlockNumber,
        consensus_config: ConsensusConfiguration,
        channels_to_trade_pairs: MessagesConfiguration,
        reward_config: Option<RewardConfiguration>,
    ) -> (r: Result<(), DispatchError<Error>>)
        ensures
            final(self)@ == applied(
                old(self)@,
                CallModel::SetConfig {
                    origin,
                    when,
                    consensus: consensus_config.model(),
                    channels: channels_to_trade_pairs.model(),
                    reward: reward_config.model(),
                },
            ),
            r == outcome(root_refusal(origin)),
            final(self)@ == if root_refusal(origin) is Some {
                old(self)@
            } else {
                configured(
                    old(self)@,
                    when,
                    consensus_config.model(),
                    channels_to_trade_pairs.model(),
                    reward_config.model(),
                )
            },
    {
        match origin {
            Origin::Root => {},
            _ => {
                return Err(DispatchError::BadOrigin);
            },
        }
        self.min_nodes_for_trusted_aggregation = Some(
            consensus_config.min_nodes_for_trusted_aggregation,
        );
        self.feed_age = Some(consensus_config.feed_age);
        self.outliers_range = Some(consensus_config.outliers_range);
        self.divergency = Some(consensus_config.divergency);
        self.trade_pairs = Some(consensus_config.trade_pairs.duplicate());
        self.channels_to_trade_pairs = Some(channels_to_trade_pairs.duplicate());
        match &reward_config {
            Some(reward) => {
                self.reward_policy_id = Some(reward.reward_policy_id.duplicate());
                self.reward_asset_name = Some(reward.reward_asset_name.duplicate());
            },
            None => {
                self.reward_policy_id = None;
                self.reward_asset_name = None;
            },
        }
        let ghost consensus = consensus_config.model();
        let ghost channels = channels_to_trade_pairs.model();
        let ghost reward = reward_config.model();
        self.deposit_event(
            Event::UpdatedConfig {
                consensus_config,
                channels_to_trade_pairs,
                reward_config,
                block: when,
            },
        );
        assert(self@ =~= configured(old(self)@, when, consensus, channels, reward));
        Ok(())
    }

    /// The root registers a node. It must go through the staking flow before it becomes active.
    pub fn sudo_register_oracle_node(
        &mut self,
        origin: Origin,
        when: BlockNumber,
        oracle_account: AccountId,
    ) -> (r: Result<ProviderChange, DispatchError<Error>>)
        ensures
            final(self)@ == applied(
                old(self)@,
                CallModel::Register { origin, when, node: oracle_account },
            ),
            r == match root_refusal(origin) {
                Some(error) => Err(error),
                None => Ok(ProviderChange::Increase(oracle_account)),
            },
            final(self)@ == if root_refusal(origin) is Some {
                old(self)@
            } else {
                node_registered(old(self)@, when, oracle_account)
            },
    {
        match origin {
            Origin::Root => {},
            _ => {
                return Err(DispatchError::BadOrigin);
            },
        }
        let info = NodeStakingInfo {
            stake_amount: 0,
            state: OracleNodeStakingState::Inactive,
            stake_activated_at: when,
            cardano_pkh_admin: BoundedVec::new(),
            cardano_pkh_aggregation: BoundedVec::new(),
        };
        assert(info.model() =~= registered_node(when));
        self.authorized_oracle_nodes.insert(oracle_account, info);
        self.deposit_event(Event::AddedOracleNode { which: oracle_account, block: when });
        assert(self@ =~= node_registered(old(self)@, when, oracle_account));
        Ok(ProviderChange::Increase(oracle_account))
    }

    /// The root removes a node from the authorized nodes.
    pub fn sudo_deregister_oracle_node(
        &mut self,
        origin: Origin,
        when: BlockNumber,
        oracle_account: AccountId,
    ) -> (r: Result<ProviderChange, DispatchError<Error>>)
        ensures
            final(self)@ == applied(
                old(self)@,
                CallModel::Deregister { origin, when, node: oracle_account },
            ),
            r == match root_refusal(origin) {
                Some(error) => Err(error),
                None => Ok(ProviderChange::Decrease(oracle_account)),
            },
            final(self)@ == if root_refusal(origin) is Some {
                old(self)@
            } else {
                node_deregistered(old(self)@, when, oracle_account)
            },
    {
        match origin {
            Origin::Root => {},
            _ => {
                return Err(DispatchError::BadOrigin);
            },
        }
        self.authorized_oracle_nodes.remove(&oracle_account);
        self.deposit_event(Event::RemovedOracleNode { which: oracle_account, block: when });
        assert(self@ =~= node_deregistered(old(self)@, when, oracle_account));
        Ok(ProviderChange::Decrease(oracle_account))
    }

    /// The configuration of the consensus, if every part of it is set.
    pub fn get_oracle_config(&self) -> (r: Option<ConsensusConfiguration>)
        ensures
            r.model() == oracle_config(self@),
    {
        let min_nodes_for_trusted_aggregation: u32 = match self.min_nodes_for_trusted_aggregation {
            Some(nodes) => nodes,
            None => {
                return None;
            },
        };
        let feed_age: u16 = match self.feed_age {
            Some(age) => age,
            None => {
                return None;
            },
        };
        let outliers_range: u32 = match self.outliers_range {
            Some(range) => range,
            None => {
                return None;
            },
        };
        let divergency: u32 = match self.divergency {
            Some(divergency) => divergency,
            None => {
                return None;
            },
        };
        match &self.trade_pairs {
            Some(trade_pairs) => Some(
                ConsensusConfiguration {
                    min_nodes_for_trusted_aggregation,
                    feed_age,
                    outliers_range,
                    divergency,
                    trade_pairs: trade_pairs.duplicate(),
                },
            ),
            None => None,
        }
    }

    /// The asset that rewards are paid in, if both parts of it are set.
    pub fn get_reward_config(&self) -> (r: Option<RewardConfiguration>)
        ensures
            r.model() == reward_config(self@),
    {
        match (&self.reward_policy_id, &self.reward_asset_name) {
            (Some(reward_policy_id), Some(reward_asset_name)) => Some(
                RewardConfiguration {
                    reward_policy_id: reward_policy_id.duplicate(),
                    reward_asset_name: reward_asset_name.duplicate(),
                },
            ),
            _ => None,
        }
    }
}

} // verus!
