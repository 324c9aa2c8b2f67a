//! The aggregation of all trade pairs at the end of a block.
use crate::aggregation::statistics::{accepts_outliers_range, fence_fits};
use crate::bounded::{truncated, BoundedVec};
use crate::model::{lemma_models_push, models, Model};
use crate::pallet::calls::oracle_config;
use crate::pallet::consensus::{aggregate, aggregated, prices_of};
use crate::pallet::laws::{applied, CallModel};
use crate::pallet::state::{Event, EventModel, Pallet, PalletModel};
use crate::pallet::types::{AggregationModel, AggregationState, PriceEntry, PriceEntryModel};
use crate::primitives::{AccountId, BlockNumber};
use crate::sorted_map::{group, listing};
use crate::types::config::node::{ConsensusModel, PairModel};
use crate::types::{ConsensusConfiguration, TradePair};
use vstd::prelude::*;

verus! {

/// A price of a node and the block it was submitted in.
pub type StoredPrice = (AccountId, (u64, BlockNumber));

/// The prices of all nodes for a trade pair, in the order of the nodes.
pub open spec fn stored_prices(s: PalletModel, pair: PairModel) -> Seq<StoredPrice> {
    listing::<AccountId, (u64, BlockNumber)>(group(s.nodes_prices, pair))
}

/// The prices that are at most `feed_age` blocks old at block `n`.
pub open spec fn fresh_entries(stored: Seq<StoredPrice>, n: BlockNumber, feed_age: u16) -> Seq<
    (AccountId, u64),
> {
    stored.filter(|entry: StoredPrice| n - entry.1.1 <= feed_age).map_values(
        |entry: StoredPrice| (entry.0, entry.1.0),
    )
}

/// What the previous aggregation leaves for a trade pair: its price, one block older.
pub open spec fn previous_median(s: PalletModel, index: int) -> Option<(u64, u16)> {
    match s.aggregation {
        Some(state) => if 0 <= index < state.prices_age_and_rewards.len() {
            match state.prices_age_and_rewards[index] {
                Some((price, age, _)) => Some((price, (age + 1) as u16)),
                None => None,
            }
        } else {
            None
        },
        None => None,
    }
}

/// The consensus on the prices of a trade pair, if enough nodes submitted a fresh one.
pub open spec fn fresh_entry(
    s: PalletModel,
    config: ConsensusModel,
    n: BlockNumber,
    pair: PairModel,
) -> Option<PriceEntryModel> {
    let fresh = fresh_entries(stored_prices(s, pair), n, config.feed_age);
    if config.min_nodes_for_trusted_aggregation <= fresh.len() {
        match aggregated(fresh, config.outliers_range, config.divergency) {
            Some((price, rewards)) => Some((price, 0u16, rewards)),
            None => None,
        }
    } else {
        None
    }
}

/// The entry of a trade pair: the consensus on fresh prices, or the previous one without rewards.
pub open spec fn pair_entry(
    s: PalletModel,
    config: ConsensusModel,
    n: BlockNumber,
    index: int,
) -> Option<PriceEntryModel> {
    match fresh_entry(s, config, n, config.trade_pairs[index]) {
        Some(entry) => Some(entry),
        None => match previous_median(s, index) {
            Some((price, age)) => Some((price, age, Seq::empty())),
            None => None,
        },
    }
}

/// The entries of all trade pairs.
pub open spec fn finalized_state(
    s: PalletModel,
    config: ConsensusModel,
    n: BlockNumber,
    timestamp_ms: u64,
) -> AggregationModel {
    AggregationModel {
        prices_age_and_rewards: Seq::new(
            config.trade_pairs.len(),
            |index: int| pair_entry(s, config, n, index),
        ),
        timestamp: (timestamp_ms / 1000 * 1000) as u64,
    }
}

/// The storage after block `n`.
pub open spec fn finalized(s: PalletModel, n: BlockNumber, timestamp_ms: u64) -> PalletModel {
    match oracle_config(s) {
        Some(config) => {
            let state = finalized_state(s, config, n, timestamp_ms);
            PalletModel {
                aggregation: Some(state),
                events: s.events.push(EventModel::Status { current_state: state, block: n }),
                ..s
            }
        },
        None => s,
    }
}

/// No price is from a later block than `n`.
pub open spec fn none_later(stored: Seq<StoredPrice>, n: BlockNumber) -> bool {
    forall|i: int| 0 <= i < stored.len() ==> (#[trigger] stored[i]).1.1 <= n
}

/// The previous entry of a trade pair can become a block older.
pub open spec fn can_age(s: PalletModel, index: int) -> bool {
    s.aggregation matches Some(state) ==> 0 <= index < state.prices_age_and_rewards.len() ==> (
    state.prices_age_and_rewards[index] matches Some(entry) ==> entry.1 < u16::MAX)
}

/// The aggregation of a trade pair does not leave the range of its numbers: prices are not from
/// later blocks, the nodes can be counted, the lower bound of the fences is not negative, and a
/// previous entry that is used again can become a block older.
pub open spec fn pair_computable(
    s: PalletModel,
    config: ConsensusModel,
    n: BlockNumber,
    index: int,
) -> bool {
    let stored = stored_prices(s, config.trade_pairs[index]);
    let fresh = fresh_entries(stored, n, config.feed_age);
    &&& none_later(stored, n)
    &&& fresh.len() <= u32::MAX
    &&& config.min_nodes_for_trusted_aggregation <= fresh.len() ==> fence_fits(
        prices_of(truncated(fresh, 32)),
        config.outliers_range,
    )
    &&& fresh_entry(s, config, n, config.trade_pairs[index]) is None ==> can_age(s, index)
}

pub open spec fn all_computable(s: PalletModel, config: ConsensusModel, n: BlockNumber) -> bool {
    forall|index: int|
        0 <= index < config.trade_pairs.len() ==> #[trigger] pair_computable(s, config, n, index)
}

/// The aggregation of every configured trade pair stays in the range of its numbers.
pub open spec fn finalizable(s: PalletModel, n: BlockNumber) -> bool {
    match oracle_config(s) {
        Some(config) => all_computable(s, config, n),
        None => true,
    }
}

pub proof fn lemma_fresh_entries(stored: Seq<StoredPrice>, n: BlockNumber, feed_age: u16)
    ensures
        fresh_entries(stored, n, feed_age) == if stored.len() == 0 {
            Seq::empty()
        } else if n - stored.last().1.1 <= feed_age {
            fresh_entries(stored.drop_last(), n, feed_age).push(
                (stored.last().0, stored.last().1.0),
            )
        } else {
            fresh_entries(stored.drop_last(), n, feed_age)
        },
{
    reveal(Seq::filter);
    let fresh = |entry: StoredPrice| n - entry.1.1 <= feed_age;
    let pick = |entry: StoredPrice| (entry.0, entry.1.0);
    if stored.len() > 0 {
        let rest = stored.drop_last();
        assert(rest.filter(fresh).push(stored.last()).map_values(pick) =~= rest.filter(
            fresh,
        ).map_values(pick).push(pick(stored.last())));
    } else {
        assert(stored.filter(fresh).map_values(pick) =~= Seq::<(AccountId, u64)>::empty());
    }
}

/// The fresh ones of the prices.
fn collect_fresh(stored: &Vec<(AccountId, (u64, BlockNumber))>, n: BlockNumber, feed_age: u16) -> (r:
    Vec<(AccountId, u64)>)
    requires
        none_later(stored.model(), n),
    ensures
        r@ == fresh_entries(stored.model(), n, feed_age),
{
    let ghost all = stored.model();
    let mut fresh: Vec<(AccountId, u64)> = Vec::new();
    proof {
        lemma_fresh_entries(all.take(0), n, feed_age);
    }
    for i in 0..stored.len()
        invariant
            all == stored.model(),
            none_later(all, n),
            fresh@ == fresh_entries(all.take(i as int), n, feed_age),
    {
        let entry = &stored[i];
        proof {
            lemma_fresh_entries(all.take(i + 1), n, feed_age);
            assert(all.take(i + 1).drop_last() =~= all.take(i as int));
            assert(all.take(i + 1).last() == stored@[i as int].model());
            assert(all[i as int] == stored@[i as int].model());
        }
        if n - entry.1.1 <= feed_age as u64 {
            fresh.push((entry.0, entry.1.0));
        }
    }
    assert(all.take(all.len() as int) =~= all);
    fresh
}

fn all_stored_by(stored: &Vec<(AccountId, (u64, BlockNumber))>, n: BlockNumber) -> (r: bool)
    ensures
        r == none_later(stored.model(), n),
{
    let ghost all = stored.model();
    for i in 0..stored.len()
        invariant
            all == stored.model(),
            forall|j: int| 0 <= j < i ==> (#[trigger] all[j]).1.1 <= n,
    {
        assert(all[i as int] == stored@[i as int].model());
        if stored[i].1.1 > n {
            return false;
        }
    }
    true
}

impl Pallet {
    /// What the previous aggregation leaves for a trade pair.
    pub fn get_previous_median(&self, trade_pair_index: usize) -> (r: Option<(u64, u16)>)
        requires
            can_age(self@, trade_pair_index as int),
        ensures
            r == previous_median(self@, trade_pair_index as int),
    {
        match &self.aggregation {
            Some(state) => {
                match state.prices_age_and_rewards.get(trade_pair_index) {
                    Some(entry) => {
                        assert(self@.aggregation->0.prices_age_and_rewards[trade_pair_index as int]
                            == entry.model());
                        match entry {
                            Some((price, age, _rewards)) => Some((*price, *age + 1)),
                            None => None,
                        }
                    },
                    None => None,
                }
            },
            None => None,
        }
    }

    /// Whether the previous entry of a trade pair can become a block older.
    fn previous_can_age(&self, trade_pair_index: usize) -> (r: bool)
        ensures
            r == can_age(self@, trade_pair_index as int),
    {
        match &self.aggregation {
            Some(state) => {
                match state.prices_age_and_rewards.get(trade_pair_index) {
                    Some(entry) => {
                        assert(self@.aggregation->0.prices_age_and_rewards[trade_pair_index as int]
                            == entry.model());
                        match entry {
                            Some((_price, age, _rewards)) => *age < u16::MAX,
                            None => true,
                        }
                    },
                    None => true,
                }
            },
            None => true,
        }
    }

    /// The consensus on the fresh prices of a trade pair.
    fn aggregate_fresh(
        &self,
        n: BlockNumber,
        trade_pair: &TradePair,
        config: &ConsensusConfiguration,
    ) -> (r: Option<PriceEntry>)
        requires
            none_later(stored_prices(self@, trade_pair.model()), n),
            ({
                let fresh = fresh_entries(
                    stored_prices(self@, trade_pair.model()),
                    n,
                    config.feed_age,
                );
                &&& fresh.len() <= u32::MAX
                &&& config.min_nodes_for_trusted_aggregation <= fresh.len() ==> fence_fits(
                    prices_of(truncated(fresh, 32)),
                    config.outliers_range,
                )
            }),
        ensures
            r.model() == fresh_entry(self@, config.model(), n, trade_pair.model()),
    {
        let stored = self.nodes_prices.iter_prefix(trade_pair);
        let fresh = collect_fresh(&stored, n, config.feed_age);
        let participating_nodes: u32 = fresh.len() as u32;
        if config.min_nodes_for_trusted_aggregation <= participating_nodes {
            match aggregate(fresh, config.outliers_range, config.divergency) {
                Some((price, rewards)) => Some((price, 0u16, rewards)),
                None => None,
            }
        } else {
            None
        }
    }

    /// Whether `on_finalize` accepts the storage at block `n`.
    pub fn is_finalizable(&self, n: BlockNumber) -> (r: bool)
        ensures
            r == finalizable(self@, n),
    {
        let config = match self.get_oracle_config() {
            Some(config) => config,
            None => {
                return true;
            },
        };
        let ghost model = config.model();
        let count: usize = config.trade_pairs.len();
        assert(model.trade_pairs.len() == count);
        for index in 0..count
            invariant
                model == config.model(),
                oracle_config(self@) == Some(model),
                count == config.trade_pairs@.len(),
                count == model.trade_pairs.len(),
                forall|j: int| 0 <= j < index ==> #[trigger] pair_computable(self@, model, n, j),
        {
            let trade_pair = config.trade_pairs.at(index);
            assert(model.trade_pairs[index as int] == trade_pair.model());
            let stored = self.nodes_prices.iter_prefix(trade_pair);
            if !all_stored_by(&stored, n) {
                assert(!pair_computable(self@, model, n, index as int));
                return false;
            }
            let fresh = collect_fresh(&stored, n, config.feed_age);
            if fresh.len() > u32::MAX as usize {
                assert(!pair_computable(self@, model, n, index as int));
                return false;
            }
            let min_nodes: u32 = config.min_nodes_for_trusted_aggregation;
            if min_nodes <= fresh.len() as u32 {
                let bounded: BoundedVec<(AccountId, u64), 32> = BoundedVec::truncate_from(fresh);
                let taken = bounded.into_inner();
                let mut prices: Vec<u64> = Vec::new();
                for i in 0..taken.len()
                    invariant
                        prices@ == prices_of(taken@.take(i as int)),
                {
                    prices.push(taken[i].1);
                    assert(prices_of(taken@.take(i + 1)) =~= prices_of(taken@.take(i as int)).push(
                        taken@[i as int].1,
                    ));
                }
                assert(taken@.take(taken@.len() as int) =~= taken@);
                if !accepts_outliers_range(&prices, config.outliers_range) {
                    assert(!pair_computable(self@, model, n, index as int));
                    return false;
                }
            }
            let entry = self.aggregate_fresh(n, trade_pair, &config);
            if entry.is_none() && !self.previous_can_age(index) {
                assert(!pair_computable(self@, model, n, index as int));
                return false;
            }
            assert(pair_computable(self@, model, n, index as int));
        }
        true
    }

    /// Aggregates the prices of all trade pairs at the end of block `n`.
    pub fn on_finalize(&mut self, n: BlockNumber, timestamp_ms: u64)
        requires
            finalizable(old(self)@, n),
        ensures
            final(self)@ == applied(
                old(self)@,
                CallModel::Finalize { block: n, timestamp_ms },
            ),
            final(self)@ == finalized(old(self)@, n, timestamp_ms),
    {
        let config = match self.get_oracle_config() {
            Some(config) => config,
            None => {
                return ;
            },
        };
        let ghost start = self@;
        let ghost model = config.model();
        let timestamp: u64 = (timestamp_ms / 1000) * 1000;
        let count: usize = config.trade_pairs.len();
        let mut entries: Vec<Option<PriceEntry>> = Vec::new();
        let ghost expected = finalized_state(
            start,
            model,
            n,
            timestamp_ms,
        ).prices_age_and_rewards;
        assert(all_computable(start, model, n));
        assert(model.trade_pairs.len() == count);
        for index in 0..count
            invariant
                self@ == start,
                model == config.model(),
                oracle_config(start) == Some(model),
                all_computable(start, model, n),
                count == config.trade_pairs@.len(),
                count == model.trade_pairs.len(),
                expected == finalized_state(start, model, n, timestamp_ms).prices_age_and_rewards,
                models(entries@) == expected.take(index as int),
        {
            let trade_pair = config.trade_pairs.at(index);
            assert(model.trade_pairs[index as int] == trade_pair.model());
            assert(pair_computable(start, model, n, index as int));
            let fresh = self.aggregate_fresh(n, trade_pair, &config);
            let entry: Option<PriceEntry> = match fresh {
                Some(entry) => Some(entry),
                None => {
                    match self.get_previous_median(index) {
                        Some((price, age)) => {
                            let rewards: BoundedVec<[u8; 32], 64> = BoundedVec::new();
                            assert(rewards.model() =~= Seq::<[u8; 32]>::empty());
                            Some((price, age, rewards))
                        },
                        None => None,
                    }
                },
            };
            proof {
                assert(entry.model() == pair_entry(start, model, n, index as int));
                lemma_models_push(entries@, entry);
                assert(expected.take(index + 1) =~= expected.take(index as int).push(
                    expected[index as int],
                ));
            }
            entries.push(entry);
        }
        assert(expected.take(count as int) =~= expected);
        assert(models(entries@).len() == entries@.len());
        let new_state = AggregationState {
            prices_age_and_rewards: BoundedVec::truncate_from(entries),
            timestamp,
        };
        assert(new_state.model() =~= finalized_state(start, model, n, timestamp_ms));
        self.aggregation = Some(new_state.duplicate());
        self.deposit_event(Event::Status { current_state: new_state, block: n });
        assert(self@ =~= finalized(start, n, timestamp_ms));
    }
}

} // verus!
