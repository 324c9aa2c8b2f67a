//! What submissions, the configuration and the registration of nodes promise.
use crate::pallet::calls::{
    prices_refusal, root_refusal, signature_bytes, submission_refusal, with_signatures,
};
use crate::pallet::laws::{applied, lemma_prices_read_back, CallModel};
use crate::pallet::messages::OracleMessageModel;
use crate::pallet::state::{empty_pallet, with_founders, Error, EventModel, GenesisConfig, PalletModel};
use crate::pallet::types::{NodeModel, OracleNodeStakingState};
use crate::pallet::vote_laws::others_stay;
use crate::primitives::{AccountId, BlockNumber, DispatchError, Origin};
use crate::model::Model;
use crate::types::config::node::{ConsensusModel, PairModel, RewardModel};
use vstd::prelude::*;

verus! {

// ---------------------------------------------------------------------------------------------
// Submissions

/// Only authorized nodes submit data, and at most 65535 prices at once.
pub proof fn lemma_submissions_accepted(s: PalletModel, origin: Origin, count: nat)
    ensures
        ({
            let data = submission_refusal(s, origin);
            let prices = prices_refusal(s, origin, count);
            match origin {
                Origin::Signed(who) => {
                    let known = s.authorized_oracle_nodes.contains_key(who);
                    &&& data is None <==> known
                    &&& prices is None <==> known && count <= 65535
                    &&& !known ==> data == Some(DispatchError::Module(Error::UnauthorizedNode))
                        && prices == data
                    &&& known && count > 65535 ==> prices == Some(
                        DispatchError::<Error>::CountOverflow,
                    )
                },
                _ => data == Some(DispatchError::<Error>::BadOrigin) && prices == data,
            }
        }),
{
}

/// Of the submitted prices the last one for each trade pair is stored for the submitting node, with
/// the block. The prices of other pairs and nodes, and all else, stay.
pub proof fn lemma_submitted_prices_stored(
    s: PalletModel,
    who: AccountId,
    when: BlockNumber,
    prices: Seq<(PairModel, u64)>,
    pair: PairModel,
    node: AccountId,
)
    requires
        s.authorized_oracle_nodes.contains_key(who),
        prices.len() <= 65535,
    ensures
        ({
            let t = applied(
                s,
                CallModel::StorePrices { origin: Origin::Signed(who), when, prices },
            );
            let key = (pair, node);
            &&& t == (PalletModel { nodes_prices: t.nodes_prices, events: t.events, ..s })
            &&& t.events == s.events.push(
                EventModel::StoredPrices { count: prices.len() as u16, who, when },
            )
            &&& forall|i: int|
                node == who && 0 <= i < prices.len() && (#[trigger] prices[i]).0 == pair && (forall|
                    j: int,
                |
                    i < j < prices.len() ==> (#[trigger] prices[j]).0 != pair)
                    ==> t.nodes_prices.contains_key(key) && t.nodes_prices[key] == (
                prices[i].1,
                when)
            &&& (node != who || forall|i: int|
                0 <= i < prices.len() ==> (#[trigger] prices[i]).0 != pair) ==> (
            t.nodes_prices.contains_key(key) == s.nodes_prices.contains_key(key)
                && t.nodes_prices[key] == s.nodes_prices[key])
        }),
{
    lemma_prices_read_back(s.nodes_prices, who, when, prices, pair, node);
}

/// The signature that is stored is the one whose bytes follow the byte of its scheme.
pub proof fn lemma_scheme_stripped(encoded: Seq<u8>, bytes: [u8; 64])
    requires
        encoded.len() == 65,
        forall|k: int| 0 <= k < 64 ==> #[trigger] bytes[k] == encoded[k + 1],
    ensures
        signature_bytes(encoded) == bytes,
{
    assert forall|k: int| 0 <= k < 64 implies bytes@[k] == encoded.skip(1)[k] by {
        assert(bytes[k] == encoded[k + 1]);
    }
    assert(bytes@ =~= encoded.skip(1));
    let chosen = signature_bytes(encoded);
    assert(chosen@ == bytes@);
    assert forall|k: int| 0 <= k < 64 implies chosen[k] == bytes[k] by {
        assert(chosen@[k] == bytes@[k]);
    }
    assert(chosen =~= bytes);
}

proof fn lemma_signatures_kept(
    stored: Map<((Seq<u8>, u64), AccountId), [u8; 64]>,
    who: AccountId,
    signatures: Seq<(OracleMessageModel, Seq<u8>)>,
    key: ((Seq<u8>, u64), AccountId),
)
    ensures
        ({
            let after = with_signatures(stored, who, signatures);
            &&& forall|i: int|
                key.1 == who && 0 <= i < signatures.len() && (#[trigger] signatures[i]).0.channel_id
                    == key.0.0 && signatures[i].0.timestamp == key.0.1 && (forall|j: int|
                    i < j < signatures.len() ==> ((#[trigger] signatures[j]).0.channel_id != key.0.0
                        || signatures[j].0.timestamp != key.0.1)) ==> after.contains_key(key)
                    && after[key] == signature_bytes(signatures[i].1)
            &&& (key.1 != who || forall|i: int|
                0 <= i < signatures.len() ==> ((#[trigger] signatures[i]).0.channel_id != key.0.0
                    || signatures[i].0.timestamp != key.0.1)) ==> (after.contains_key(key)
                == stored.contains_key(key) && after[key] == stored[key])
        }),
    decreases signatures.len(),
{
    if signatures.len() > 0 {
        let rest = signatures.drop_last();
        let after = with_signatures(stored, who, signatures);
        lemma_signatures_kept(stored, who, rest, key);
        let last = signatures.len() - 1;
        assert(signatures[last] == signatures.last());
        assert forall|i: int|
            key.1 == who && 0 <= i < signatures.len() && (#[trigger] signatures[i]).0.channel_id
                == key.0.0 && signatures[i].0.timestamp == key.0.1 && (forall|j: int|
                i < j < signatures.len() ==> ((#[trigger] signatures[j]).0.channel_id != key.0.0
                    || signatures[j].0.timestamp != key.0.1)) implies after.contains_key(key)
            && after[key] == signature_bytes(signatures[i].1) by {
            if i < last {
                assert(signatures[last].0.channel_id != key.0.0 || signatures[last].0.timestamp
                    != key.0.1);
                assert(rest[i] == signatures[i]);
                assert forall|j: int| i < j < rest.len() implies ((#[trigger] rest[j]).0.channel_id
                    != key.0.0 || rest[j].0.timestamp != key.0.1) by {
                    assert(rest[j] == signatures[j]);
                }
            }
        }
        if key.1 != who || forall|i: int|
            0 <= i < signatures.len() ==> ((#[trigger] signatures[i]).0.channel_id != key.0.0
                || signatures[i].0.timestamp != key.0.1) {
            if key.1 == who {
                assert(signatures[last].0.channel_id != key.0.0 || signatures[last].0.timestamp
                    != key.0.1);
                assert forall|i: int| 0 <= i < rest.len() implies ((#[trigger] rest[i]).0.channel_id
                    != key.0.0 || rest[i].0.timestamp != key.0.1) by {
                    assert(rest[i] == signatures[i]);
                }
            }
        }
    }
}

/// Of the submitted signatures the last one for each channel and timestamp is stored for the
/// submitting node. All other signatures, and all else, stay.
pub proof fn lemma_submitted_signatures_stored(
    s: PalletModel,
    who: AccountId,
    when: BlockNumber,
    signatures: Seq<(OracleMessageModel, Seq<u8>)>,
    channel: Seq<u8>,
    timestamp: u64,
    node: AccountId,
)
    requires
        s.authorized_oracle_nodes.contains_key(who),
    ensures
        ({
            let t = applied(
                s,
                CallModel::StoreSignatures { origin: Origin::Signed(who), when, signatures },
            );
            let key = ((channel, timestamp), node);
            &&& t == (PalletModel { signature_storage: t.signature_storage, events: t.events, ..s })
            &&& t.events == s.events.push(EventModel::StoredSignatures { who, when, signatures })
            &&& forall|i: int|
                node == who && 0 <= i < signatures.len() && (#[trigger] signatures[i]).0.channel_id
                    == channel && signatures[i].0.timestamp == timestamp && (forall|j: int|
                    i < j < signatures.len() ==> ((#[trigger] signatures[j]).0.channel_id != channel
                        || signatures[j].0.timestamp != timestamp))
                    ==> t.signature_storage.contains_key(key) && t.signature_storage[key]
                    == signature_bytes(signatures[i].1)
            &&& (node != who || forall|i: int|
                0 <= i < signatures.len() ==> ((#[trigger] signatures[i]).0.channel_id != channel
                    || signatures[i].0.timestamp != timestamp)) ==> (
            t.signature_storage.contains_key(key) == s.signature_storage.contains_key(key)
                && t.signature_storage[key] == s.signature_storage[key])
        }),
{
    lemma_signatures_kept(s.signature_storage, who, signatures, ((channel, timestamp), node));
}

// ---------------------------------------------------------------------------------------------
// Configuration and nodes

/// The root, and no one else, sets the configuration. All of it is replaced, and all else stays.
pub proof fn lemma_configuration_set(
    s: PalletModel,
    origin: Origin,
    when: BlockNumber,
    consensus: ConsensusModel,
    channels: Seq<(Seq<u8>, Seq<u16>)>,
    reward: Option<RewardModel>,
)
    ensures
        ({
            let t = applied(
                s,
                CallModel::SetConfig { origin, when, consensus, channels, reward },
            );
            &&& root_refusal(origin) is None <==> origin == Origin::Root
            &&& origin != Origin::Root ==> root_refusal(origin) == Some(
                DispatchError::<Error>::BadOrigin,
            ) && t == s
            &&& origin == Origin::Root ==> {
                &&& t == (PalletModel {
                    min_nodes_for_trusted_aggregation: t.min_nodes_for_trusted_aggregation,
                    feed_age: t.feed_age,
                    outliers_range: t.outliers_range,
                    divergency: t.divergency,
                    reward_policy_id: t.reward_policy_id,
                    reward_asset_name: t.reward_asset_name,
                    trade_pairs: t.trade_pairs,
                    channels_to_trade_pairs: t.channels_to_trade_pairs,
                    events: t.events,
                    ..s
                })
                &&& t.min_nodes_for_trusted_aggregation == Some(
                    consensus.min_nodes_for_trusted_aggregation,
                )
                &&& t.feed_age == Some(consensus.feed_age)
                &&& t.outliers_range == Some(consensus.outliers_range)
                &&& t.divergency == Some(consensus.divergency)
                &&& t.trade_pairs == Some(consensus.trade_pairs)
                &&& t.channels_to_trade_pairs == Some(channels)
                &&& reward matches Some(asset) ==> t.reward_policy_id == Some(
                    asset.reward_policy_id,
                ) && t.reward_asset_name == Some(asset.reward_asset_name)
                &&& reward is None ==> t.reward_policy_id is None && t.reward_asset_name is None
                &&& t.events == s.events.push(
                    EventModel::UpdatedConfig {
                        consensus_config: consensus,
                        channels_to_trade_pairs: channels,
                        reward_config: reward,
                        block: when,
                    },
                )
            }
        }),
{
}

/// The root, and no one else, registers and removes nodes. A registered node starts inactive, without
/// a stake and without keys. All else stays.
pub proof fn lemma_nodes_registered(
    s: PalletModel,
    origin: Origin,
    when: BlockNumber,
    node: AccountId,
)
    ensures
        ({
            let added = applied(s, CallModel::Register { origin, when, node });
            let removed = applied(s, CallModel::Deregister { origin, when, node });
            &&& origin != Origin::Root ==> added == s && removed == s
            &&& origin == Origin::Root ==> {
                &&& added == (PalletModel {
                    authorized_oracle_nodes: added.authorized_oracle_nodes,
                    events: added.events,
                    ..s
                })
                &&& removed == (PalletModel {
                    authorized_oracle_nodes: removed.authorized_oracle_nodes,
                    events: removed.events,
                    ..s
                })
                &&& others_stay(s.authorized_oracle_nodes, added.authorized_oracle_nodes, node)
                &&& others_stay(s.authorized_oracle_nodes, removed.authorized_oracle_nodes, node)
                &&& !removed.authorized_oracle_nodes.contains_key(node)
                &&& added.authorized_oracle_nodes.contains_key(node)
                &&& added.authorized_oracle_nodes[node].state == OracleNodeStakingState::Inactive
                &&& added.authorized_oracle_nodes[node].stake_amount == 0
                &&& added.authorized_oracle_nodes[node].stake_activated_at == when
                &&& added.authorized_oracle_nodes[node].cardano_pkh_admin.len() == 0
                &&& added.authorized_oracle_nodes[node].cardano_pkh_aggregation.len() == 0
                &&& added.events == s.events.push(
                    EventModel::AddedOracleNode { which: node, block: when },
                )
                &&& removed.events == s.events.push(
                    EventModel::RemovedOracleNode { which: node, block: when },
                )
            }
        }),
{
}

/// A new pallet stores nothing.
pub proof fn lemma_nothing_stored()
    ensures
        ({
            let s = empty_pallet();
            &&& s.min_nodes_for_trusted_aggregation is None && s.feed_age is None
                && s.outliers_range is None && s.divergency is None
            &&& s.trade_pairs is None && s.channels_to_trade_pairs is None
                && s.reward_policy_id is None && s.reward_asset_name is None
            &&& s.authorized_oracle_nodes.dom().len() == 0
            &&& s.staking_approval_info.dom().len() == 0 && s.staking_approval_sigs.dom().len() == 0
            &&& s.withdrawal_approval_info.dom().len() == 0
                && s.withdrawal_approval_sigs.dom().len() == 0
            &&& s.issued_staking_certs.dom().len() == 0
                && s.issued_withdrawal_certs.dom().len() == 0
            &&& s.slash_votes.dom().len() == 0 && s.slash_proposals.dom().len() == 0
            &&& s.nodes_prices.dom().len() == 0 && s.signature_storage.dom().len() == 0
            &&& s.aggregation is None && s.events.len() == 0
        }),
{
}

proof fn lemma_founder(nodes: Map<AccountId, NodeModel>, founders: Seq<AccountId>, node: AccountId)
    ensures
        ({
            let after = with_founders(nodes, founders);
            &&& founders.contains(node) ==> after.contains_key(node) && after[node].state
                == OracleNodeStakingState::ActiveStake && after[node].stake_amount == 0
                && after[node].stake_activated_at == 0 && after[node].cardano_pkh_admin.len() == 0
                && after[node].cardano_pkh_aggregation.len() == 0
            &&& !founders.contains(node) ==> after.contains_key(node) == nodes.contains_key(node)
                && after[node] == nodes[node]
        }),
    decreases founders.len(),
{
    if founders.len() > 0 {
        let rest = founders.drop_last();
        lemma_founder(nodes, rest, node);
        assert(founders[founders.len() - 1] == founders.last());
        if rest.contains(node) {
            let i = choose|i: int| 0 <= i < rest.len() && rest[i] == node;
            assert(founders[i] == node);
        } else if founders.contains(node) {
            let i = choose|i: int| 0 <= i < founders.len() && founders[i] == node;
            if i < rest.len() {
                assert(rest[i] == node);
            }
        }
    }
}

/// The genesis stores its configuration, with a reward asset only where it names one, and authorizes
/// its nodes as active ones without a stake. All else stays.
pub proof fn lemma_genesis_stored(config: GenesisConfig, s: PalletModel, node: AccountId)
    ensures
        ({
            let t = config.built(s);
            let nodes = t.authorized_oracle_nodes;
            &&& t == (PalletModel {
                min_nodes_for_trusted_aggregation: Some(config.min_nodes_for_trusted_aggregation),
                feed_age: Some(config.feed_age),
                outliers_range: Some(config.outliers_range),
                divergency: Some(config.divergency),
                trade_pairs: Some(config.trade_pairs.model()),
                channels_to_trade_pairs: Some(config.channels_to_trade_pairs.model()),
                reward_policy_id: t.reward_policy_id,
                reward_asset_name: t.reward_asset_name,
                authorized_oracle_nodes: nodes,
                ..s
            })
            &&& config.reward_policy_id matches Some(id) ==> t.reward_policy_id == Some(id.model())
            &&& config.reward_policy_id is None ==> t.reward_policy_id == s.reward_policy_id
            &&& config.reward_asset_name matches Some(name) ==> t.reward_asset_name == Some(
                name.model(),
            )
            &&& config.reward_asset_name is None ==> t.reward_asset_name == s.reward_asset_name
            &&& config.authorized_nodes@.contains(node) ==> nodes.contains_key(node)
                && nodes[node].state == OracleNodeStakingState::ActiveStake
                && nodes[node].stake_amount == 0 && nodes[node].stake_activated_at == 0
                && nodes[node].cardano_pkh_admin.len() == 0
                && nodes[node].cardano_pkh_aggregation.len() == 0
            &&& !config.authorized_nodes@.contains(node) ==> nodes.contains_key(node)
                == s.authorized_oracle_nodes.contains_key(node) && nodes[node]
                == s.authorized_oracle_nodes[node]
        }),
{
    lemma_founder(s.authorized_oracle_nodes, config.authorized_nodes@, node);
}

} // verus!
