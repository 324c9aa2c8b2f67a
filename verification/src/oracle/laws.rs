//! What the calls of the oracle pallet for nodes without stakes promise.
use crate::model::Model;
use crate::oracle::pallet::{
    configured, prices_refusal, prices_stored, root_refusal, signatures_stored, submission_refusal,
    with_founders, with_signatures, Error, EventModel, GenesisConfig, OracleMessageModel, PalletModel,
};
use crate::pallet::calls::signature_bytes;
use crate::pallet::laws::lemma_prices_read_back;
use crate::primitives::{AccountId, BlockNumber, DispatchError, Origin};
use crate::types::config::node::{ConsensusModel, PairModel};
use vstd::prelude::*;

verus! {

/// Only authorized nodes submit data, at most 65535 prices at once, and only the root configures.
pub proof fn lemma_calls_accepted(s: PalletModel, origin: Origin, count: nat)
    ensures
        ({
            let data = submission_refusal(s, origin);
            let prices = prices_refusal(s, origin, count);
            &&& root_refusal(origin) is None <==> origin == Origin::Root
            &&& origin != Origin::Root ==> root_refusal(origin) == Some(
                DispatchError::<Error>::BadOrigin,
            )
            &&& match origin {
                Origin::Signed(who) => {
                    let known = s.authorized_oracle_nodes.contains_key(who);
                    &&& data is None <==> known
                    &&& prices is None <==> known && count <= 65535
                    &&& !known ==> data == Some(DispatchError::Module(Error::UnauthorizedNode))
                        && prices == data
                    &&& known && count > 65535 ==> prices == Some(
                        DispatchError::<Error>::CountOverflow,
                    )
                },
                _ => data == Some(DispatchError::<Error>::BadOrigin) && prices == data,
            }
        }),
{
}

/// Of the submitted prices the last one for each trade pair is stored for the submitting node, with
/// the block. The prices of other pairs and nodes, and all else, stay.
pub proof fn lemma_submitted_prices_stored(
    s: PalletModel,
    who: AccountId,
    when: BlockNumber,
    prices: Seq<(PairModel, u64)>,
    pair: PairModel,
    node: AccountId,
)
    requires
        prices.len() <= 65535,
    ensures
        ({
            let t = prices_stored(s, who, when, prices);
            let key = (pair, node);
            &&& t == (PalletModel { nodes_prices: t.nodes_prices, events: t.events, ..s })
            &&& t.events == s.events.push(
                EventModel::StoredPrices { count: prices.len() as u16, who, when },
            )
            &&& forall|i: int|
                node == who && 0 <= i < prices.len() && (#[trigger] prices[i]).0 == pair && (forall|
                    j: int,
                |
                    i < j < prices.len() ==> (#[trigger] prices[j]).0 != pair)
                    ==> t.nodes_prices.contains_key(key) && t.nodes_prices[key] == (
                prices[i].1,
                when)
            &&& (node != who || forall|i: int|
                0 <= i < prices.len() ==> (#[trigger] prices[i]).0 != pair) ==> (
            t.nodes_prices.contains_key(key) == s.nodes_prices.contains_key(key)
                && t.nodes_prices[key] == s.nodes_prices[key])
        }),
{
    lemma_prices_read_back(s.nodes_prices, who, when, prices, pair, node);
}

proof fn lemma_signatures_kept(
    stored: Map<((Seq<u8>, u64), AccountId), [u8; 64]>,
    who: AccountId,
    signatures: Seq<(OracleMessageModel, Seq<u8>)>,
    key: ((Seq<u8>, u64), AccountId),
)
    ensures
        ({
            let after = with_signatures(stored, who, signatures);
            &&& forall|i: int|
                key.1 == who && 0 <= i < signatures.len() && (#[trigger] signatures[i]).0.channel_id
                    == key.0.0 && signatures[i].0.timestamp == key.0.1 && (forall|j: int|
                    i < j < signatures.len() ==> ((#[trigger] signatures[j]).0.channel_id != key.0.0
                        || signatures[j].0.timestamp != key.0.1)) ==> after.contains_key(key)
                    && after[key] == signature_bytes(signatures[i].1)
            &&& (key.1 != who || forall|i: int|
                0 <= i < signatures.len() ==> ((#[trigger] signatures[i]).0.channel_id != key.0.0
                    || signatures[i].0.timestamp != key.0.1)) ==> (after.contains_key(key)
                == stored.contains_key(key) && after[key] == stored[key])
        }),
    decreases signatures.len(),
{
    if signatures.len() > 0 {
        let rest = signatures.drop_last();
        let after = with_signatures(stored, who, signatures);
        lemma_signatures_kept(stored, who, rest, key);
        let last = signatures.len() - 1;
        assert(signatures[last] == signatures.last());
        assert forall|i: int|
            key.1 == who && 0 <= i < signatures.len() && (#[trigger] signatures[i]).0.channel_id
                == key.0.0 && signatures[i].0.timestamp == key.0.1 && (forall|j: int|
                i < j < signatures.len() ==> ((#[trigger] signatures[j]).0.channel_id != key.0.0
                    || signatures[j].0.timestamp != key.0.1)) implies after.contains_key(key)
            && after[key] == signature_bytes(signatures[i].1) by {
            if i < last {
                assert(signatures[last].0.channel_id != key.0.0 || signatures[last].0.timestamp
                    != key.0.1);
                assert(rest[i] == signatures[i]);
                assert forall|j: int| i < j < rest.len() implies ((#[trigger] rest[j]).0.channel_id
                    != key.0.0 || rest[j].0.timestamp != key.0.1) by {
                    assert(rest[j] == signatures[j]);
                }
            }
        }
        if key.1 != who || forall|i: int|
            0 <= i < signatures.len() ==> ((#[trigger] signatures[i]).0.channel_id != key.0.0
                || signatures[i].0.timestamp != key.0.1) {
            if key.1 == who {
                assert(signatures[last].0.channel_id != key.0.0 || signatures[last].0.timestamp
                    != key.0.1);
                assert forall|i: int| 0 <= i < rest.len() implies ((#[trigger] rest[i]).0.channel_id
                    != key.0.0 || rest[i].0.timestamp != key.0.1) by {
                    assert(rest[i] == signatures[i]);
                }
            }
        }
    }
}

/// Of the submitted signatures the last one for each channel and timestamp is stored for the
/// submitting node. All other signatures, and all else, stay.
pub proof fn lemma_submitted_signatures_stored(
    s: PalletModel,
    who: AccountId,
    when: BlockNumber,
    signatures: Seq<(OracleMessageModel, Seq<u8>)>,
    channel: Seq<u8>,
    timestamp: u64,
    node: AccountId,
)
    ensures
        ({
            let t = signatures_stored(s, who, when, signatures);
            let key = ((channel, timestamp), node);
            &&& t == (PalletModel { signature_storage: t.signature_storage, events: t.events, ..s })
            &&& t.events == s.events.push(EventModel::StoredSignatures { who, when, signatures })
            &&& forall|i: int|
                node == who && 0 <= i < signatures.len() && (#[trigger] signatures[i]).0.channel_id
                    == channel && signatures[i].0.timestamp == timestamp && (forall|j: int|
                    i < j < signatures.len() ==> ((#[trigger] signatures[j]).0.channel_id != channel
                        || signatures[j].0.timestamp != timestamp))
                    ==> t.signature_storage.contains_key(key) && t.signature_storage[key]
                    == signature_bytes(signatures[i].1)
            &&& (node != who || forall|i: int|
                0 <= i < signatures.len() ==> ((#[trigger] signatures[i]).0.channel_id != channel
                    || signatures[i].0.timestamp != timestamp)) ==> (
            t.signature_storage.contains_key(key) == s.signature_storage.contains_key(key)
                && t.signature_storage[key] == s.signature_storage[key])
        }),
{
    lemma_signatures_kept(s.signature_storage, who, signatures, ((channel, timestamp), node));
}

/// A configuration replaces the one that is stored, and all else stays.
pub proof fn lemma_configuration_set(
    s: PalletModel,
    when: BlockNumber,
    consensus: ConsensusModel,
    channels: Seq<(Seq<u8>, Seq<u16>)>,
)
    ensures
        configured(s, when, consensus, channels) == (PalletModel {
            min_nodes_for_trusted_aggregation: Some(consensus.min_nodes_for_trusted_aggregation),
            feed_age: Some(consensus.feed_age),
            outliers_range: Some(consensus.outliers_range),
            divergency: Some(consensus.divergency),
            trade_pairs: Some(consensus.trade_pairs),
            channels_to_trade_pairs: Some(channels),
            authorized_oracle_nodes: s.authorized_oracle_nodes,
            nodes_prices: s.nodes_prices,
            aggregation: s.aggregation,
            signature_storage: s.signature_storage,
            events: s.events.push(
                EventModel::UpdatedConfig {
                    consensus_config: consensus,
                    channels_to_trade_pairs: channels,
                    block: when,
                },
            ),
        }),
{
}

proof fn lemma_founder(nodes: Map<AccountId, ()>, founders: Seq<AccountId>, node: AccountId)
    ensures
        with_founders(nodes, founders).contains_key(node) <==> nodes.contains_key(node)
            || founders.contains(node),
    decreases founders.len(),
{
    if founders.len() > 0 {
        let rest = founders.drop_last();
        lemma_founder(nodes, rest, node);
        assert(founders[founders.len() - 1] == founders.last());
        if rest.contains(node) {
            let i = choose|i: int| 0 <= i < rest.len() && rest[i] == node;
            assert(founders[i] == node);
        } else if founders.contains(node) {
            let i = choose|i: int| 0 <= i < founders.len() && founders[i] == node;
            if i < rest.len() {
                assert(rest[i] == node);
            }
        }
    }
}

/// The genesis stores its configuration and adds its nodes to the authorized ones. All else stays.
pub proof fn lemma_genesis_stored(config: GenesisConfig, s: PalletModel, node: AccountId)
    ensures
        ({
            let t = config.built(s);
            &&& t == (PalletModel {
                min_nodes_for_trusted_aggregation: Some(config.min_nodes_for_trusted_aggregation),
                feed_age: Some(config.feed_age),
                outliers_range: Some(config.outliers_range),
                divergency: Some(config.divergency),
                trade_pairs: Some(config.trade_pairs.model()),
                channels_to_trade_pairs: Some(config.channels_to_trade_pairs.model()),
                authorized_oracle_nodes: t.authorized_oracle_nodes,
                ..s
            })
            &&& t.authorized_oracle_nodes.contains_key(node) <==> s.authorized_oracle_nodes.contains_key(
                node,
            ) || config.authorized_nodes@.contains(node)
        }),
{
    lemma_founder(s.authorized_oracle_nodes, config.authorized_nodes@, node);
}

} // verus!
