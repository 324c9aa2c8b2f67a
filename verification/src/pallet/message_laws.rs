//! What the offchain worker promises: when it runs, and what the messages say.
use crate::model::bytes_precede;
use crate::pallet::messages::OracleMessageModel;
use crate::pallet::offchain::{
    channel_message, credited, entry_of, offchain_plan, oracle_messages, price_of,
    reward_counts, rewards_of, selected, signed_messages, OffchainPlanModel,
};
use crate::pallet::state::PalletModel;
use crate::pallet::types::{AggregationModel, PriceEntryModel};
use crate::primitives::AccountId;
use crate::sorted_map::{lemma_ascend_at, lemma_listed, lemma_map_entry, listing, map_of};
use crate::types::config::node::PairModel;
use vstd::prelude::*;

verus! {

// ---------------------------------------------------------------------------------------------
// The entries of an aggregation

/// `i` is the last place of the pair that has an entry.
pub open spec fn last_place(
    pairs: Seq<PairModel>,
    entries: Seq<Option<PriceEntryModel>>,
    pair: PairModel,
    i: int,
) -> bool {
    &&& 0 <= i < pairs.len()
    &&& i < entries.len()
    &&& pairs[i] == pair
    &&& forall|j: int|
        i < j < pairs.len() && j < entries.len() ==> #[trigger] pairs[j] != pair
}

proof fn lemma_entry(
    pairs: Seq<PairModel>,
    entries: Seq<Option<PriceEntryModel>>,
    pair: PairModel,
)
    ensures
        forall|i: int| #[trigger]
            last_place(pairs, entries, pair, i) ==> entry_of(pairs, entries, pair) == entries[i],
        (forall|i: int| 0 <= i < pairs.len() && i < entries.len() ==> #[trigger] pairs[i] != pair)
            ==> entry_of(pairs, entries, pair) is None,
    decreases pairs.len(),
{
    if pairs.len() > 0 {
        let rest = pairs.drop_last();
        let last = pairs.len() - 1;
        lemma_entry(rest, entries, pair);
        assert forall|i: int| #[trigger] last_place(pairs, entries, pair, i) implies entry_of(
            pairs,
            entries,
            pair,
        ) == entries[i] by {
            if pairs.len() <= entries.len() && pairs.last() == pair {
                assert(pairs[last] == pair);
            } else {
                assert(i < last);
                assert forall|j: int| i < j < rest.len() && j < entries.len() implies #[trigger]
                    rest[j] != pair by {
                    assert(pairs[j] != pair);
                }
                assert(rest[i] == pairs[i]);
                assert(last_place(rest, entries, pair, i));
            }
        }
        if forall|i: int| 0 <= i < pairs.len() && i < entries.len() ==> #[trigger] pairs[i] != pair {
            if last < entries.len() {
                assert(pairs[last] != pair);
            }
            assert forall|i: int| 0 <= i < rest.len() && i < entries.len() implies #[trigger] rest[i]
                != pair by {
                assert(pairs[i] != pair);
            }
        }
    }
}

/// The price and the rewards of a trade pair are those of the entry at its last place; without one it
/// has neither.
pub proof fn lemma_entry_of_pair(
    pairs: Seq<PairModel>,
    entries: Seq<Option<PriceEntryModel>>,
    pair: PairModel,
    i: int,
)
    ensures
        last_place(pairs, entries, pair, i) ==> match entries[i] {
            Some((price, age, rewards)) => price_of(pairs, entries, pair) == Some((price, age))
                && rewards_of(pairs, entries, pair) == rewards,
            None => price_of(pairs, entries, pair) is None && rewards_of(pairs, entries, pair).len()
                == 0,
        },
        (forall|k: int| 0 <= k < pairs.len() && k < entries.len() ==> #[trigger] pairs[k] != pair)
            ==> price_of(pairs, entries, pair) is None && rewards_of(pairs, entries, pair).len()
            == 0,
{
    lemma_entry(pairs, entries, pair);
}

/// The nodes that are credited for two lists of trade pairs are those for the first and those for the
/// second; for one pair they are its rewarded nodes.
pub proof fn lemma_credits_join(
    pairs: Seq<PairModel>,
    entries: Seq<Option<PriceEntryModel>>,
    a: Seq<PairModel>,
    b: Seq<PairModel>,
)
    ensures
        credited(pairs, entries, Seq::empty()).len() == 0,
        forall|pair: PairModel| #[trigger]
            credited(pairs, entries, seq![pair]) == rewards_of(pairs, entries, pair),
        credited(pairs, entries, a + b) == credited(pairs, entries, a) + credited(
            pairs,
            entries,
            b,
        ),
    decreases b.len(),
{
    assert forall|pair: PairModel| #[trigger]
        credited(pairs, entries, seq![pair]) == rewards_of(pairs, entries, pair) by {
        reveal_with_fuel(credited, 2);
        assert(seq![pair].drop_last() =~= Seq::<PairModel>::empty());
        assert(credited(pairs, entries, seq![pair]) =~= rewards_of(pairs, entries, pair));
    }
    if b.len() == 0 {
        assert(a + b =~= a);
        assert(credited(pairs, entries, a) + credited(pairs, entries, b) =~= credited(
            pairs,
            entries,
            a,
        ));
    } else {
        lemma_credits_join(pairs, entries, a, b.drop_last());
        assert((a + b).drop_last() =~= a + b.drop_last());
        assert(credited(pairs, entries, a + b) =~= credited(pairs, entries, a) + credited(
            pairs,
            entries,
            b,
        ));
    }
}

// ---------------------------------------------------------------------------------------------
// Messages

/// Every credited node once, in the order of the nodes, with the number of times it is credited.
pub open spec fn counts_nodes(counts: Seq<(AccountId, u16)>, nodes: Seq<AccountId>) -> bool {
    &&& forall|i: int, j: int|
        #![trigger counts[i], counts[j]]
        0 <= i < j < counts.len() ==> bytes_precede(counts[i].0@, counts[j].0@)
    &&& forall|i: int|
        0 <= i < counts.len() ==> nodes.contains((#[trigger] counts[i]).0) && counts[i].1
            == nodes.to_multiset().count(counts[i].0) as u16
    &&& forall|node: AccountId| #[trigger]
        nodes.contains(node) ==> exists|i: int|
            0 <= i < counts.len() && (#[trigger] counts[i]).0 == node
}

/// The message of a channel says the channel, the time of the aggregation and the reward asset, the
/// price of each of its trade pairs in their order, and how often each node is credited for them. At
/// most 64 prices and 64 nodes are said.
pub proof fn lemma_message_says(
    state: AggregationModel,
    pairs: Seq<PairModel>,
    channel_id: Seq<u8>,
    channel_pairs: Seq<PairModel>,
    asset: Option<(Seq<u8>, Seq<u8>)>,
)
    ensures
        ({
            let m = channel_message(state, pairs, channel_id, channel_pairs, asset);
            let nodes = credited(pairs, state.prices_age_and_rewards, channel_pairs);
            &&& m.channel_id == channel_id
            &&& m.timestamp == state.timestamp
            &&& m.reward_asset == asset
            &&& m.prices_and_age.len() == if channel_pairs.len() <= 64 {
                channel_pairs.len()
            } else {
                64
            }
            &&& forall|i: int|
                0 <= i < m.prices_and_age.len() ==> #[trigger] m.prices_and_age[i] == price_of(
                    pairs,
                    state.prices_age_and_rewards,
                    channel_pairs[i],
                )
            &&& exists|counts: Seq<(AccountId, u16)>| #[trigger]
                counts_nodes(counts, nodes) && (counts.len() <= 64 ==> m.rewards == counts) && (
                counts.len() > 64 ==> m.rewards == counts.take(64))
        }),
{
    let nodes = credited(pairs, state.prices_age_and_rewards, channel_pairs);
    let m = reward_counts(nodes);
    assert(m.dom() =~= nodes.to_set());
    vstd::seq_lib::seq_to_set_is_finite(nodes);
    lemma_listed::<AccountId, u16>(m);
    let counts = listing::<AccountId, u16>(m);
    assert forall|i: int, j: int|
        #![trigger counts[i], counts[j]]
        0 <= i < j < counts.len() implies bytes_precede(counts[i].0@, counts[j].0@) by {
        lemma_ascend_at::<AccountId, u16>(counts, i, j);
    }
    assert forall|i: int| 0 <= i < counts.len() implies nodes.contains((#[trigger] counts[i]).0)
        && counts[i].1 == nodes.to_multiset().count(counts[i].0) as u16 by {
        lemma_map_entry::<AccountId, u16>(counts, i);
    }
    assert forall|node: AccountId| #[trigger] nodes.contains(node) implies exists|i: int|
        0 <= i < counts.len() && (#[trigger] counts[i]).0 == node by {
        assert(map_of(counts).contains_key(node));
    }
    assert(counts_nodes(counts, nodes));
}

/// The indices of a channel choose their trade pairs in order; an index behind the list chooses none.
pub proof fn lemma_channel_pairs(pairs: Seq<PairModel>, a: Seq<u16>, b: Seq<u16>, index: u16)
    ensures
        selected(pairs, Seq::empty()).len() == 0,
        index < pairs.len() ==> selected(pairs, seq![index]) == seq![pairs[index as int]],
        index >= pairs.len() ==> selected(pairs, seq![index]).len() == 0,
        selected(pairs, a + b) == selected(pairs, a) + selected(pairs, b),
{
    let known = |index: u16| index < pairs.len();
    let pick = |index: u16| pairs[index as int];
    reveal_with_fuel(Seq::filter, 2);
    assert(seq![index].drop_last() =~= Seq::<u16>::empty());
    assert(index < pairs.len() ==> selected(pairs, seq![index]) =~= seq![pairs[index as int]]);
    Seq::filter_distributes_over_add(a, b, known);
    assert(selected(pairs, a + b) =~= selected(pairs, a) + selected(pairs, b));
}

/// A node signs one message for each channel, in their order, once there are trade pairs, channels and
/// an aggregation. The reward asset is said if both parts of it are set.
pub proof fn lemma_messages_prepared(s: PalletModel, asset: Option<(Seq<u8>, Seq<u8>)>)
    requires
        asset is None ==> s.reward_policy_id is None || s.reward_asset_name is None,
        asset matches Some((policy, name)) ==> s.reward_policy_id == Some(policy)
            && s.reward_asset_name == Some(name),
    ensures
        oracle_messages(s) is Some <==> s.trade_pairs is Some && s.channels_to_trade_pairs is Some
            && s.aggregation is Some,
        oracle_messages(s) matches Some(messages) ==> {
            let pairs = s.trade_pairs->0;
            let channels = s.channels_to_trade_pairs->0;
            &&& messages.len() == channels.len()
            &&& forall|i: int|
                0 <= i < messages.len() ==> #[trigger] messages[i] == channel_message(
                    s.aggregation->0,
                    pairs,
                    channels[i].0,
                    selected(pairs, channels[i].1),
                    asset,
                )
        },
{
    assert(crate::pallet::offchain::reward_asset(s) == asset);
}

/// Every message that was signed is joined with its own signature, in the order of the messages.
pub proof fn lemma_signatures_attached(
    messages: Seq<OracleMessageModel>,
    signatures: Seq<Option<Seq<u8>>>,
)
    requires
        messages.len() == signatures.len(),
    ensures
        signed_messages(messages, signatures) == Seq::new(
            messages.len(),
            |i: int| (messages[i], signatures[i]),
        ).filter(|entry: (OracleMessageModel, Option<Seq<u8>>)| entry.1 is Some).map_values(
            |entry: (OracleMessageModel, Option<Seq<u8>>)| (entry.0, entry.1->0),
        ),
    decreases messages.len(),
{
    reveal(Seq::filter);
    let all = Seq::new(messages.len(), |i: int| (messages[i], signatures[i]));
    let some = |entry: (OracleMessageModel, Option<Seq<u8>>)| entry.1 is Some;
    let pick = |entry: (OracleMessageModel, Option<Seq<u8>>)| (entry.0, entry.1->0);
    if messages.len() > 0 {
        let fewer = messages.drop_last();
        let given = signatures.drop_last();
        lemma_signatures_attached(fewer, given);
        let rest = Seq::new(fewer.len(), |i: int| (fewer[i], given[i]));
        assert(all.drop_last() =~= rest);
        assert(rest.filter(some).push(all.last()).map_values(pick) =~= rest.filter(
            some,
        ).map_values(pick).push(pick(all.last())));
    } else {
        assert(all.filter(some).map_values(pick) =~= Seq::<(OracleMessageModel, Seq<u8>)>::empty());
    }
}

/// The worker runs exactly for a single account that is an authorized node, while trade pairs are
/// configured, and then with that account and those pairs.
pub proof fn lemma_worker_runs(s: PalletModel, accounts: Seq<AccountId>)
    ensures
        match offchain_plan(s, accounts) {
            OffchainPlanModel::NoAccount => accounts.len() == 0,
            OffchainPlanModel::TooManyAccounts => accounts.len() >= 2,
            OffchainPlanModel::Unauthorized => accounts.len() == 1
                && !s.authorized_oracle_nodes.contains_key(accounts[0]),
            OffchainPlanModel::MissingTradePairs => accounts.len() == 1
                && s.authorized_oracle_nodes.contains_key(accounts[0]) && s.trade_pairs is None,
            OffchainPlanModel::Run { account, trade_pairs } => accounts == seq![account]
                && s.authorized_oracle_nodes.contains_key(account) && s.trade_pairs == Some(
                trade_pairs,
            ),
        },
{
    if accounts.len() == 1 {
        assert(accounts =~= seq![accounts[0]]);
    }
}

} // verus!
