//! What the end of a block promises: which prices count, what they agree on, and who is rewarded.
use crate::aggregation::median::median_of;
use crate::aggregation::statistics::{fence_fits, is_kept};
use crate::model::{bytes_precede, lemma_bytes_irreflexive, Key};
use crate::pallet::calls::{oracle_config, reward_config};
use crate::pallet::consensus::{aggregated, at_price, by_price, lemma_by_price, prices_of};
use crate::pallet::finalize::{
    finalizable, finalized, fresh_entries, lemma_fresh_entries, pair_computable, previous_median,
    stored_prices, StoredPrice,
};
use crate::pallet::state::{EventModel, PalletModel};
use crate::primitives::{AccountId, BlockNumber};
use crate::sorted_map::{group, keys_ascend, lemma_ascend_at, lemma_listed, lemma_map_entry, map_of};
use crate::types::config::node::PairModel;
use vstd::prelude::*;
use vstd::seq_lib::group_to_multiset_ensures;

verus! {

// ---------------------------------------------------------------------------------------------
// The consensus on prices

/// The entries in the order of their prices, where entries with one price keep their order.
pub open spec fn stable_order(sorted: Seq<(AccountId, u64)>, entries: Seq<(AccountId, u64)>) -> bool {
    &&& sorted.to_multiset() == entries.to_multiset()
    &&& forall|i: int, j: int|
        #![trigger sorted[i], sorted[j]]
        0 <= i <= j < sorted.len() ==> sorted[i].1 <= sorted[j].1
    &&& forall|price: u64|
        at_price(sorted, price) == #[trigger] at_price(entries, price)
}

/// The entries that take part: the first 32.
pub open spec fn first_entries(entries: Seq<(AccountId, u64)>) -> Seq<(AccountId, u64)> {
    if entries.len() <= 32 {
        entries
    } else {
        entries.take(32)
    }
}

/// The consensus on prices is their median; there is none on no prices. Exactly the nodes whose price
/// is no outlier are rewarded, in the order of their prices. Only the first 32 entries take part.
pub proof fn lemma_consensus(entries: Seq<(AccountId, u64)>, outliers_range: u32, divergency: u32)
    ensures
        aggregated(entries, outliers_range, divergency) is None <==> entries.len() == 0,
        aggregated(entries, outliers_range, divergency) matches Some((median, rewards)) ==> {
            let taken = first_entries(entries);
            let prices = Seq::new(taken.len(), |i: int| taken[i].1);
            &&& median_of(prices) == Some(median)
            &&& exists|sorted: Seq<(AccountId, u64)>| #[trigger]
                stable_order(sorted, taken) && rewards == sorted.filter(
                    |entry: (AccountId, u64)|
                        is_kept(prices, median, outliers_range, divergency, entry.1),
                ).map_values(|entry: (AccountId, u64)| entry.0)
            &&& forall|node: AccountId| #[trigger]
                rewards.contains(node) <==> exists|i: int|
                    0 <= i < taken.len() && (#[trigger] taken[i]).0 == node && is_kept(
                        prices,
                        median,
                        outliers_range,
                        divergency,
                        taken[i].1,
                    )
        },
{
    if entries.len() > 0 {
        let taken = first_entries(entries);
        assert(crate::bounded::truncated(entries, 32) =~= taken);
        let prices = Seq::new(taken.len(), |i: int| taken[i].1);
        assert(prices_of(taken) =~= prices);
        let (median, rewards) = aggregated(entries, outliers_range, divergency)->0;
        let sorted = by_price(taken);
        let keep = |entry: (AccountId, u64)|
            is_kept(prices, median, outliers_range, divergency, entry.1);
        assert(stable_order(sorted, taken)) by {
            lemma_by_price(taken, 0);
            assert forall|price: u64|
                at_price(sorted, price) == #[trigger] at_price(taken, price) by {
                lemma_by_price(taken, price);
            }
        }
        let kept = sorted.filter(keep);
        assert(rewards == kept.map_values(|entry: (AccountId, u64)| entry.0));
        broadcast use group_to_multiset_ensures;
        broadcast use vstd::seq_lib::group_filter_ensures;

        assert forall|node: AccountId| #[trigger]
            rewards.contains(node) <==> exists|i: int|
                0 <= i < taken.len() && (#[trigger] taken[i]).0 == node && is_kept(
                    prices,
                    median,
                    outliers_range,
                    divergency,
                    taken[i].1,
                ) by {
            if rewards.contains(node) {
                let k = choose|k: int| 0 <= k < rewards.len() && rewards[k] == node;
                let entry = kept[k];
                assert(kept.contains(entry));
                assert(keep(entry));
                sorted.lemma_filter_contains_rev(keep, entry);
                assert(sorted.to_multiset().count(entry) > 0);
                assert(taken.contains(entry));
                let i = choose|i: int| 0 <= i < taken.len() && taken[i] == entry;
                assert(taken[i].0 == node);
            }
            if exists|i: int|
                0 <= i < taken.len() && (#[trigger] taken[i]).0 == node && is_kept(
                    prices,
                    median,
                    outliers_range,
                    divergency,
                    taken[i].1,
                ) {
                let i = choose|i: int|
                    0 <= i < taken.len() && (#[trigger] taken[i]).0 == node && is_kept(
                        prices,
                        median,
                        outliers_range,
                        divergency,
                        taken[i].1,
                    );
                let entry = taken[i];
                assert(taken.to_multiset().count(entry) > 0);
                assert(sorted.contains(entry));
                let j = choose|j: int| 0 <= j < sorted.len() && sorted[j] == entry;
                assert(keep(sorted[j]));
                assert(kept.contains(entry));
                let k = choose|k: int| 0 <= k < kept.len() && kept[k] == entry;
                assert(rewards[k] == node);
            }
        }
    }
}

// ---------------------------------------------------------------------------------------------
// Fresh prices

/// The node has a price for the pair that is at most `feed_age` blocks old at block `n`.
pub open spec fn is_fresh(
    s: PalletModel,
    pair: PairModel,
    n: BlockNumber,
    feed_age: u16,
    node: AccountId,
) -> bool {
    s.nodes_prices.contains_key((pair, node)) && n <= s.nodes_prices[(pair, node)].1 + feed_age
}

/// The nodes with a fresh price for the pair.
pub open spec fn fresh_nodes(s: PalletModel, pair: PairModel, n: BlockNumber, feed_age: u16) -> Set<
    AccountId,
> {
    Set::new(|node: AccountId| is_fresh(s, pair, n, feed_age, node))
}

/// The nodes with a fresh price for the pair and their prices, in the order of the nodes.
pub open spec fn lists_fresh(
    list: Seq<(AccountId, u64)>,
    s: PalletModel,
    pair: PairModel,
    n: BlockNumber,
    feed_age: u16,
) -> bool {
    &&& forall|i: int, j: int|
        #![trigger list[i], list[j]]
        0 <= i < j < list.len() ==> bytes_precede(list[i].0@, list[j].0@)
    &&& forall|i: int|
        0 <= i < list.len() ==> is_fresh(s, pair, n, feed_age, (#[trigger] list[i]).0) && list[i].1
            == s.nodes_prices[(pair, list[i].0)].0
    &&& forall|node: AccountId| #[trigger]
        is_fresh(s, pair, n, feed_age, node) ==> list.contains(
            (node, s.nodes_prices[(pair, node)].0),
        )
}

/// The entry is a fresh one of the stored prices.
spec fn stored_fresh(
    stored: Seq<StoredPrice>,
    n: BlockNumber,
    feed_age: u16,
    entry: (AccountId, u64),
) -> bool {
    exists|k: int|
        0 <= k < stored.len() && (#[trigger] stored[k]).0 == entry.0 && stored[k].1.0 == entry.1 && n
            - stored[k].1.1 <= feed_age
}

spec fn nodes_ascend(list: Seq<(AccountId, u64)>) -> bool {
    forall|i: int, j: int|
        #![trigger list[i], list[j]]
        0 <= i < j < list.len() ==> bytes_precede(list[i].0@, list[j].0@)
}

proof fn lemma_fresh_of_stored(stored: Seq<StoredPrice>, n: BlockNumber, feed_age: u16)
    requires
        keys_ascend::<AccountId, (u64, BlockNumber)>(stored),
    ensures
        nodes_ascend(fresh_entries(stored, n, feed_age)),
        forall|entry: (AccountId, u64)|
            #![trigger stored_fresh(stored, n, feed_age, entry)]
            #![trigger fresh_entries(stored, n, feed_age).contains(entry)]
            fresh_entries(stored, n, feed_age).contains(entry) <==> stored_fresh(
                stored,
                n,
                feed_age,
                entry,
            ),
    decreases stored.len(),
{
    lemma_fresh_entries(stored, n, feed_age);
    let list = fresh_entries(stored, n, feed_age);
    if stored.len() > 0 {
        let rest = stored.drop_last();
        let last = stored.last();
        let shorter = fresh_entries(rest, n, feed_age);
        assert(keys_ascend::<AccountId, (u64, BlockNumber)>(rest)) by {
            assert forall|i: int, j: int|
                #![trigger rest[i], rest[j]]
                0 <= i < j < rest.len() implies <AccountId as Key>::precedes(
                rest[i].0,
                rest[j].0,
            ) by {
                lemma_ascend_at::<AccountId, (u64, BlockNumber)>(stored, i, j);
            }
        }
        lemma_fresh_of_stored(rest, n, feed_age);
        let taken = n - last.1.1 <= feed_age;
        assert(stored[stored.len() - 1] == last);
        assert forall|entry: (AccountId, u64)| list.contains(entry) <==> #[trigger] stored_fresh(
            stored,
            n,
            feed_age,
            entry,
        ) by {
            if list.contains(entry) {
                let i = choose|i: int| 0 <= i < list.len() && list[i] == entry;
                if i < shorter.len() {
                    assert(shorter[i] == entry);
                    assert(stored_fresh(rest, n, feed_age, entry));
                    let k = choose|k: int|
                        0 <= k < rest.len() && (#[trigger] rest[k]).0 == entry.0 && rest[k].1.0
                            == entry.1 && n - rest[k].1.1 <= feed_age;
                    assert(stored[k] == rest[k]);
                }
            }
            if stored_fresh(stored, n, feed_age, entry) {
                let k = choose|k: int|
                    0 <= k < stored.len() && (#[trigger] stored[k]).0 == entry.0 && stored[k].1.0
                        == entry.1 && n - stored[k].1.1 <= feed_age;
                if k < rest.len() {
                    assert(rest[k] == stored[k]);
                    assert(stored_fresh(rest, n, feed_age, entry));
                    let i = choose|i: int| 0 <= i < shorter.len() && shorter[i] == entry;
                    assert(list[i] == entry);
                } else {
                    assert(list[list.len() - 1] == entry);
                }
            }
        }
        assert forall|i: int, j: int|
            #![trigger list[i], list[j]]
            0 <= i < j < list.len() implies bytes_precede(list[i].0@, list[j].0@) by {
            assert(list[i] == shorter[i]);
            if j < shorter.len() {
                assert(list[j] == shorter[j]);
            } else {
                assert(shorter.contains(shorter[i]));
                assert(stored_fresh(rest, n, feed_age, shorter[i]));
                let k = choose|k: int|
                    0 <= k < rest.len() && (#[trigger] rest[k]).0 == shorter[i].0 && rest[k].1.0
                        == shorter[i].1 && n - rest[k].1.1 <= feed_age;
                assert(stored[k] == rest[k]);
                lemma_ascend_at::<AccountId, (u64, BlockNumber)>(stored, k, stored.len() - 1);
            }
        }
    }
}

/// The prices that are counted for a pair at the end of a block are those of the nodes with a fresh
/// one, each once.
pub proof fn lemma_fresh_prices(s: PalletModel, pair: PairModel, n: BlockNumber, feed_age: u16)
    requires
        group(s.nodes_prices, pair).dom().finite(),
    ensures
        lists_fresh(fresh_entries(stored_prices(s, pair), n, feed_age), s, pair, n, feed_age),
        fresh_nodes(s, pair, n, feed_age).finite(),
        fresh_entries(stored_prices(s, pair), n, feed_age).len() == fresh_nodes(
            s,
            pair,
            n,
            feed_age,
        ).len(),
{
    let m = group(s.nodes_prices, pair);
    let stored = stored_prices(s, pair);
    lemma_listed::<AccountId, (u64, BlockNumber)>(m);
    lemma_fresh_of_stored(stored, n, feed_age);
    let list = fresh_entries(stored, n, feed_age);
    assert forall|i: int| 0 <= i < list.len() implies is_fresh(
        s,
        pair,
        n,
        feed_age,
        (#[trigger] list[i]).0,
    ) && list[i].1 == s.nodes_prices[(pair, list[i].0)].0 by {
        assert(list.contains(list[i]));
        assert(stored_fresh(stored, n, feed_age, list[i]));
        let k = choose|k: int|
            0 <= k < stored.len() && (#[trigger] stored[k]).0 == list[i].0 && stored[k].1.0
                == list[i].1 && n - stored[k].1.1 <= feed_age;
        lemma_map_entry::<AccountId, (u64, BlockNumber)>(stored, k);
    }
    assert forall|node: AccountId| #[trigger]
        is_fresh(s, pair, n, feed_age, node) implies list.contains(
        (node, s.nodes_prices[(pair, node)].0),
    ) by {
        assert(map_of(stored).contains_key(node));
        let k = choose|k: int| 0 <= k < stored.len() && (#[trigger] stored[k]).0 == node;
        lemma_map_entry::<AccountId, (u64, BlockNumber)>(stored, k);
        assert(stored_fresh(stored, n, feed_age, (node, s.nodes_prices[(pair, node)].0)));
    }
    let nodes = Seq::new(list.len(), |i: int| list[i].0);
    assert(nodes.no_duplicates()) by {
        assert forall|i: int, j: int|
            0 <= i < nodes.len() && 0 <= j < nodes.len() && i != j implies nodes[i] != nodes[j] by {
            if i < j {
                assert(bytes_precede(list[i].0@, list[j].0@));
            } else {
                assert(bytes_precede(list[j].0@, list[i].0@));
            }
            lemma_bytes_irreflexive(nodes[i]@);
        }
    }
    nodes.unique_seq_to_set();
    assert(nodes.to_set() =~= fresh_nodes(s, pair, n, feed_age)) by {
        assert forall|node: AccountId| is_fresh(s, pair, n, feed_age, node) implies nodes.contains(
            node,
        ) by {
            let i = choose|i: int|
                0 <= i < list.len() && list[i] == (node, s.nodes_prices[(pair, node)].0);
            assert(nodes[i] == node);
        }
        assert forall|node: AccountId| nodes.contains(node) implies is_fresh(
            s,
            pair,
            n,
            feed_age,
            node,
        ) by {
            let i = choose|i: int| 0 <= i < nodes.len() && nodes[i] == node;
            assert(list[i].0 == node);
        }
    }
}

// ---------------------------------------------------------------------------------------------
// The end of a block

/// What a previous price becomes: it is one block older. Without a previous price there is none.
pub proof fn lemma_previous_price_ages(s: PalletModel, index: int)
    ensures
        s.aggregation is None ==> previous_median(s, index) is None,
        s.aggregation matches Some(state) ==> {
            let entries = state.prices_age_and_rewards;
            &&& index < 0 || entries.len() <= index ==> previous_median(s, index) is None
            &&& 0 <= index < entries.len() ==> match entries[index] {
                Some((price, age, _)) => age < u16::MAX ==> (previous_median(s, index) matches Some(
                    (again, older),
                ) && again == price && older == age + 1),
                None => previous_median(s, index) is None,
            }
        },
{
}

/// At the end of a block, a trade pair with too few fresh prices, or with none, keeps the price that
/// is stored at its index, one block older and without rewards; with nothing stored there it has no
/// price.
pub proof fn lemma_stale_price_reused(
    s: PalletModel,
    n: BlockNumber,
    timestamp_ms: u64,
    index: int,
    pairs: Seq<PairModel>,
    min_nodes: u32,
    feed_age: u16,
)
    requires
        s.trade_pairs == Some(pairs),
        s.min_nodes_for_trusted_aggregation == Some(min_nodes),
        s.feed_age == Some(feed_age),
        s.outliers_range is Some,
        s.divergency is Some,
        0 <= index < pairs.len(),
        group(s.nodes_prices, pairs[index]).dom().finite(),
        ({
            let count = fresh_nodes(s, pairs[index], n, feed_age).len();
            count < min_nodes || count == 0
        }),
    ensures
        finalized(s, n, timestamp_ms).aggregation matches Some(after) && {
            let entry = after.prices_age_and_rewards[index];
            let kept = match s.aggregation {
                Some(before) => if index < before.prices_age_and_rewards.len() {
                    before.prices_age_and_rewards[index]
                } else {
                    None
                },
                None => None,
            };
            &&& kept is None ==> entry is None
            &&& kept matches Some((price, age, _)) ==> age < u16::MAX ==> (entry matches Some(
                (again, older, rewards),
            ) && again == price && older == age + 1 && rewards.len() == 0)
        },
{
    lemma_fresh_prices(s, pairs[index], n, feed_age);
    let fresh = fresh_entries(stored_prices(s, pairs[index]), n, feed_age);
    lemma_consensus(fresh, s.outliers_range->0, s.divergency->0);
}

/// At the end of a block, a trade pair with enough fresh prices gets the consensus on them, with an
/// age of zero.
pub proof fn lemma_fresh_price_agreed(
    s: PalletModel,
    n: BlockNumber,
    timestamp_ms: u64,
    index: int,
    pairs: Seq<PairModel>,
    min_nodes: u32,
    feed_age: u16,
    outliers_range: u32,
    divergency: u32,
)
    requires
        s.trade_pairs == Some(pairs),
        s.min_nodes_for_trusted_aggregation == Some(min_nodes),
        s.feed_age == Some(feed_age),
        s.outliers_range == Some(outliers_range),
        s.divergency == Some(divergency),
        0 <= index < pairs.len(),
        group(s.nodes_prices, pairs[index]).dom().finite(),
        fresh_nodes(s, pairs[index], n, feed_age).len() >= min_nodes,
        fresh_nodes(s, pairs[index], n, feed_age).len() > 0,
    ensures
        finalized(s, n, timestamp_ms).aggregation matches Some(after)
            && after.prices_age_and_rewards[index] matches Some((price, age, rewards)) && age == 0
            && exists|list: Seq<(AccountId, u64)>| #[trigger]
            lists_fresh(list, s, pairs[index], n, feed_age) && aggregated(
                list,
                outliers_range,
                divergency,
            ) == Some((price, rewards)),
{
    lemma_fresh_prices(s, pairs[index], n, feed_age);
    let fresh = fresh_entries(stored_prices(s, pairs[index]), n, feed_age);
    lemma_consensus(fresh, outliers_range, divergency);
    assert(lists_fresh(fresh, s, pairs[index], n, feed_age));
}

/// The end of a block writes one entry for each configured trade pair, under the time of the block
/// without the fraction of a second, and reports them. All else stays, and without a complete
/// configuration everything does.
pub proof fn lemma_block_end(s: PalletModel, n: BlockNumber, timestamp_ms: u64)
    ensures
        ({
            let t = finalized(s, n, timestamp_ms);
            let configured = s.trade_pairs is Some && s.min_nodes_for_trusted_aggregation is Some
                && s.feed_age is Some && s.outliers_range is Some && s.divergency is Some;
            &&& !configured ==> t == s
            &&& configured ==> {
                &&& t == (PalletModel { aggregation: t.aggregation, events: t.events, ..s })
                &&& t.aggregation matches Some(state) && {
                    &&& state.prices_age_and_rewards.len() == s.trade_pairs->0.len()
                    &&& state.timestamp <= timestamp_ms < state.timestamp + 1000
                    &&& state.timestamp % 1000 == 0
                    &&& t.events == s.events.push(
                        EventModel::Status { current_state: state, block: n },
                    )
                }
            }
        }),
{
}

/// The configuration is there exactly if every part of it is stored, and it is those parts.
pub proof fn lemma_configuration_read(s: PalletModel)
    ensures
        oracle_config(s) is Some <==> s.trade_pairs is Some
            && s.min_nodes_for_trusted_aggregation is Some && s.feed_age is Some
            && s.outliers_range is Some && s.divergency is Some,
        oracle_config(s) matches Some(config) ==> {
            &&& s.trade_pairs == Some(config.trade_pairs)
            &&& s.min_nodes_for_trusted_aggregation == Some(
                config.min_nodes_for_trusted_aggregation,
            )
            &&& s.feed_age == Some(config.feed_age)
            &&& s.outliers_range == Some(config.outliers_range)
            &&& s.divergency == Some(config.divergency)
        },
        reward_config(s) is Some <==> s.reward_policy_id is Some && s.reward_asset_name is Some,
        reward_config(s) matches Some(config) ==> s.reward_policy_id == Some(
            config.reward_policy_id,
        ) && s.reward_asset_name == Some(config.reward_asset_name),
{
}

/// A block can be ended if no price is from a later block, the fresh prices of each trade pair can be
/// counted and do not put the lower bound of the outlier test below zero, and no stored price has the
/// greatest age.
pub proof fn lemma_block_can_end(s: PalletModel, n: BlockNumber)
    requires
        s.trade_pairs matches Some(pairs) ==> forall|k: int|
            0 <= k < pairs.len() ==> pair_in_order(s, n, #[trigger] pairs[k]),
        s.aggregation matches Some(state) ==> forall|k: int|
            0 <= k < state.prices_age_and_rewards.len() ==> ((
            #[trigger] state.prices_age_and_rewards[k]) matches Some(entry) ==> entry.1 < u16::MAX),
    ensures
        finalizable(s, n),
{
    if oracle_config(s) is Some {
        let config = oracle_config(s)->0;
        assert forall|k: int| 0 <= k < config.trade_pairs.len() implies #[trigger] pair_computable(
            s,
            config,
            n,
            k,
        ) by {
            let pair = config.trade_pairs[k];
            assert(pair_in_order(s, n, pair));
            let m = group(s.nodes_prices, pair);
            let stored = stored_prices(s, pair);
            lemma_listed::<AccountId, (u64, BlockNumber)>(m);
            lemma_fresh_prices(s, pair, n, config.feed_age);
            let fresh = fresh_entries(stored, n, config.feed_age);
            assert forall|i: int| 0 <= i < stored.len() implies (#[trigger] stored[i]).1.1 <= n by {
                lemma_map_entry::<AccountId, (u64, BlockNumber)>(stored, i);
                assert(s.nodes_prices.contains_key((pair, stored[i].0)));
            }
            let taken = first_entries(fresh);
            assert(crate::bounded::truncated(fresh, 32) =~= taken);
            assert(prices_of(taken) =~= Seq::new(taken.len(), |i: int| taken[i].1));
        }
    }
}

/// The stored prices of a trade pair are from blocks up to `n`, and its fresh ones can be counted and
/// tested for outliers.
pub open spec fn pair_in_order(s: PalletModel, n: BlockNumber, pair: PairModel) -> bool {
    &&& group(s.nodes_prices, pair).dom().finite()
    &&& forall|node: AccountId| #[trigger]
        s.nodes_prices.contains_key((pair, node)) ==> s.nodes_prices[(pair, node)].1 <= n
    &&& s.feed_age matches Some(feed_age) ==> fresh_nodes(s, pair, n, feed_age).len() <= u32::MAX
    &&& s.feed_age matches Some(feed_age) ==> s.outliers_range matches Some(range) ==> forall|
        list: Seq<(AccountId, u64)>,
    | #[trigger]
        lists_fresh(list, s, pair, n, feed_age) ==> fence_fits(
            Seq::new(first_entries(list).len(), |i: int| first_entries(list)[i].1),
            range,
        )
}

} // verus!
