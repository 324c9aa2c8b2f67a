//! What consensus and messages promise.
use crate::aggregation::median::{lemma_median_bounded, median_of};
use crate::aggregation::statistics::is_kept;
use crate::bounded::truncated;
use crate::pallet::calls::{signature_bytes, with_signatures};
use crate::pallet::consensus::{aggregated, by_price, lemma_by_price, prices_of, rewarded};
use crate::pallet::finalize::{
    fresh_entries, fresh_entry, pair_entry, previous_median, stored_prices,
};
use crate::pallet::messages::OracleMessageModel;
use crate::pallet::offchain::{channel_message, credited, price_of, reward_counts};
use crate::pallet::state::PalletModel;
use crate::pallet::types::AggregationModel;
use crate::primitives::{AccountId, BlockNumber};
use crate::sorted_map::{keys_ascend, lemma_listed, lemma_map_entry, listing};
use crate::types::config::node::{ConsensusModel, PairModel};
use vstd::prelude::*;
use vstd::seq_lib::group_to_multiset_ensures;

verus! {

/// The entry of a trade pair is new and of age zero, or it is the previous price, one block older and
/// without rewards.
pub proof fn lemma_entry_new_or_aged(
    s: PalletModel,
    config: ConsensusModel,
    n: BlockNumber,
    index: int,
)
    ensures
        pair_entry(s, config, n, index) matches Some((price, age, rewards)) ==> {
            ||| fresh_entry(s, config, n, config.trade_pairs[index]) == Some((price, age, rewards))
                && age == 0
            ||| previous_median(s, index) == Some((price, age)) && rewards.len() == 0
        },
{
}

/// A new price lies between any bounds on the fresh prices.
pub proof fn lemma_new_price_bounded(
    s: PalletModel,
    config: ConsensusModel,
    n: BlockNumber,
    pair: PairModel,
    low: u64,
    high: u64,
)
    requires
        ({
            let fresh = fresh_entries(stored_prices(s, pair), n, config.feed_age);
            forall|i: int| 0 <= i < fresh.len() ==> low <= (#[trigger] fresh[i]).1 <= high
        }),
    ensures
        fresh_entry(s, config, n, pair) matches Some((price, _, _)) ==> low <= price <= high,
{
    let fresh = fresh_entries(stored_prices(s, pair), n, config.feed_age);
    let taken = truncated(fresh, 32);
    let prices = prices_of(taken);
    if fresh_entry(s, config, n, pair) is Some {
        assert(median_of(prices) is Some);
        assert forall|i: int| 0 <= i < prices.len() implies low <= #[trigger] prices[i]
            <= high by {
            assert(taken[i] == fresh[i]);
        }
        lemma_median_bounded(prices, low, high);
    }
}

proof fn lemma_rewarded_entry(
    entries: Seq<(AccountId, u64)>,
    prices: Seq<u64>,
    median: u64,
    outliers_range: u32,
    divergency: u32,
    i: int,
)
    requires
        0 <= i < rewarded(entries, prices, median, outliers_range, divergency).len(),
    ensures
        exists|entry: (AccountId, u64)| #[trigger]
            entries.contains(entry) && entry.0 == rewarded(
                entries,
                prices,
                median,
                outliers_range,
                divergency,
            )[i] && is_kept(prices, median, outliers_range, divergency, entry.1),
{
    let keep = |entry: (AccountId, u64)|
        is_kept(prices, median, outliers_range, divergency, entry.1);
    let kept = entries.filter(keep);
    broadcast use vstd::seq_lib::group_filter_ensures;

    let entry = kept[i];
    assert(keep(entry));
    assert(kept.contains(entry));
    entries.lemma_filter_contains_rev(keep, entry);
}

/// Every rewarded node submitted one of the prices, and it is no outlier.
pub proof fn lemma_rewards_are_earned(
    entries: Seq<(AccountId, u64)>,
    outliers_range: u32,
    divergency: u32,
    i: int,
)
    requires
        aggregated(entries, outliers_range, divergency) matches Some((_, rewards)) && 0 <= i
            < rewards.len(),
    ensures
        aggregated(entries, outliers_range, divergency) matches Some((median, rewards)) && exists|
            entry: (AccountId, u64),
        | #[trigger]
            entries.contains(entry) && entry.0 == rewards[i] && is_kept(
                prices_of(truncated(entries, 32)),
                median,
                outliers_range,
                divergency,
                entry.1,
            ),
{
    let taken = truncated(entries, 32);
    let (median, rewards) = aggregated(entries, outliers_range, divergency)->0;
    let prices = prices_of(taken);
    lemma_rewarded_entry(by_price(taken), prices, median, outliers_range, divergency, i);
    let entry = choose|entry: (AccountId, u64)| #[trigger]
        by_price(taken).contains(entry) && entry.0 == rewards[i] && is_kept(
            prices,
            median,
            outliers_range,
            divergency,
            entry.1,
        );
    lemma_by_price(taken, 0);
    broadcast use group_to_multiset_ensures;

    assert(by_price(taken).to_multiset().count(entry) > 0);
    assert(taken.contains(entry));
    let j = choose|j: int| 0 <= j < taken.len() && taken[j] == entry;
    assert(entries[j] == entry);
    assert(entries.contains(entry));
}

proof fn lemma_counts_finite(nodes: Seq<[u8; 32]>)
    ensures
        reward_counts(nodes).dom().finite(),
{
    assert(reward_counts(nodes).dom() =~= nodes.to_set());
    vstd::seq_lib::seq_to_set_is_finite(nodes);
}

/// The rewards of a message are in the order of the nodes, name no node twice, and give each node the
/// number of times it is credited.
pub proof fn lemma_message_rewards(
    state: AggregationModel,
    pairs: Seq<PairModel>,
    channel_id: Seq<u8>,
    channel_pairs: Seq<PairModel>,
    asset: Option<(Seq<u8>, Seq<u8>)>,
)
    ensures
        ({
            let rewards = channel_message(
                state,
                pairs,
                channel_id,
                channel_pairs,
                asset,
            ).rewards;
            let nodes = credited(pairs, state.prices_age_and_rewards, channel_pairs);
            &&& keys_ascend::<AccountId, u16>(rewards)
            &&& forall|i: int|
                0 <= i < rewards.len() ==> nodes.contains((#[trigger] rewards[i]).0)
                    && rewards[i].1 == nodes.to_multiset().count(rewards[i].0) as u16
        }),
{
    let nodes = credited(pairs, state.prices_age_and_rewards, channel_pairs);
    let counts = reward_counts(nodes);
    lemma_counts_finite(nodes);
    lemma_listed::<AccountId, u16>(counts);
    let listed = listing::<AccountId, u16>(counts);
    let rewards = truncated(listed, 64);
    assert forall|i: int, j: int|
        #![trigger rewards[i], rewards[j]]
        0 <= i < j < rewards.len() implies <AccountId as crate::model::Key>::precedes(
        rewards[i].0,
        rewards[j].0,
    ) by {
        assert(rewards[i] == listed[i] && rewards[j] == listed[j]);
    }
    assert forall|i: int| 0 <= i < rewards.len() implies nodes.contains((#[trigger] rewards[i]).0)
        && rewards[i].1 == nodes.to_multiset().count(rewards[i].0) as u16 by {
        assert(rewards[i] == listed[i]);
        lemma_map_entry::<AccountId, u16>(listed, i);
    }
}

/// A message has an entry for each trade pair of its channel, in their order, up to 64.
pub proof fn lemma_message_prices(
    state: AggregationModel,
    pairs: Seq<PairModel>,
    channel_id: Seq<u8>,
    channel_pairs: Seq<PairModel>,
    asset: Option<(Seq<u8>, Seq<u8>)>,
    i: int,
)
    requires
        channel_pairs.len() <= 64,
        0 <= i < channel_pairs.len(),
    ensures
        ({
            let prices = channel_message(
                state,
                pairs,
                channel_id,
                channel_pairs,
                asset,
            ).prices_and_age;
            &&& prices.len() == channel_pairs.len()
            &&& prices[i] == price_of(pairs, state.prices_age_and_rewards, channel_pairs[i])
        }),
{
}

/// The latest of the submitted signatures for a channel and timestamp is stored.
pub proof fn lemma_signature_read_back(
    stored: Map<((Seq<u8>, u64), AccountId), [u8; 64]>,
    who: AccountId,
    signatures: Seq<(OracleMessageModel, Seq<u8>)>,
    i: int,
)
    requires
        0 <= i < signatures.len(),
        forall|j: int|
            i < j < signatures.len() ==> ((#[trigger] signatures[j]).0.channel_id
                != signatures[i].0.channel_id || signatures[j].0.timestamp
                != signatures[i].0.timestamp),
    ensures
        ({
            let after = with_signatures(stored, who, signatures);
            let key = ((signatures[i].0.channel_id, signatures[i].0.timestamp), who);
            after.contains_key(key) && after[key] == signature_bytes(signatures[i].1)
        }),
    decreases signatures.len(),
{
    let rest = signatures.drop_last();
    if i < rest.len() {
        assert(rest[i] == signatures[i]);
        assert forall|j: int| i < j < rest.len() implies ((#[trigger] rest[j]).0.channel_id
            != rest[i].0.channel_id || rest[j].0.timestamp != rest[i].0.timestamp) by {
            assert(rest[j] == signatures[j]);
        }
        lemma_signature_read_back(stored, who, rest, i);
        assert(signatures[signatures.len() - 1] == signatures.last());
    }
}

} // verus!
