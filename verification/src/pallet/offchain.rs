//! What the offchain worker of an oracle node does: the messages it signs, and whether it runs.
use crate::bounded::{truncated, BoundedVec};
use crate::model::{lemma_models_push, models, Key, Model, Rank};
use crate::pallet::messages::{lemma_reward_models, OracleMessage, OracleMessageModel};
use crate::pallet::state::{Pallet, PalletModel};
use crate::pallet::types::{AggregationModel, AggregationState, PriceEntry, PriceEntryModel};
use crate::price_providers::PriceProvider;
use crate::primitives::{AccountId, Signature};
use crate::sorted_map::{listing, SortedMap};
use crate::types::config::node::PairModel;
use crate::types::{ChannelId, TradePair};
use vstd::prelude::*;
use vstd::seq_lib::{group_to_multiset_ensures, lemma_multiset_commutative};

verus! {

// ---------------------------------------------------------------------------------------------
// Messages

/// The entry of a trade pair in an aggregation. Where a pair is listed more than once, its last
/// entry counts.
pub open spec fn entry_of(
    pairs: Seq<PairModel>,
    entries: Seq<Option<PriceEntryModel>>,
    pair: PairModel,
) -> Option<PriceEntryModel>
    decreases pairs.len(),
{
    if pairs.len() == 0 {
        None
    } else if pairs.len() <= entries.len() && pairs.last() == pair {
        entries[pairs.len() - 1]
    } else {
        entry_of(pairs.drop_last(), entries, pair)
    }
}

/// The price and age of a trade pair.
pub open spec fn price_of(
    pairs: Seq<PairModel>,
    entries: Seq<Option<PriceEntryModel>>,
    pair: PairModel,
) -> Option<(u64, u16)> {
    match entry_of(pairs, entries, pair) {
        Some((price, age, _)) => Some((price, age)),
        None => None,
    }
}

/// The nodes that are rewarded for a trade pair.
pub open spec fn rewards_of(
    pairs: Seq<PairModel>,
    entries: Seq<Option<PriceEntryModel>>,
    pair: PairModel,
) -> Seq<[u8; 32]> {
    match entry_of(pairs, entries, pair) {
        Some((_, _, rewards)) => rewards,
        None => Seq::empty(),
    }
}

/// The nodes that are rewarded for the trade pairs of a channel, once for each of them.
pub open spec fn credited(
    pairs: Seq<PairModel>,
    entries: Seq<Option<PriceEntryModel>>,
    channel_pairs: Seq<PairModel>,
) -> Seq<[u8; 32]>
    decreases channel_pairs.len(),
{
    if channel_pairs.len() == 0 {
        Seq::empty()
    } else {
        credited(pairs, entries, channel_pairs.drop_last()) + rewards_of(
            pairs,
            entries,
            channel_pairs.last(),
        )
    }
}

/// How often each node is credited.
pub open spec fn reward_counts(nodes: Seq<[u8; 32]>) -> Map<[u8; 32], u16> {
    Map::new(
        |node: [u8; 32]| nodes.contains(node),
        |node: [u8; 32]| nodes.to_multiset().count(node) as u16,
    )
}

/// No node is credited more often than a multiplier can hold.
pub open spec fn countable(nodes: Seq<[u8; 32]>) -> bool {
    forall|node: [u8; 32]| #[trigger] nodes.to_multiset().count(node) <= u16::MAX
}

/// The message of a channel: the prices of its trade pairs, and the nodes that are rewarded for
/// them with their multipliers, in the order of the nodes.
pub open spec fn channel_message(
    state: AggregationModel,
    pairs: Seq<PairModel>,
    channel_id: Seq<u8>,
    channel_pairs: Seq<PairModel>,
    reward_asset: Option<(Seq<u8>, Seq<u8>)>,
) -> OracleMessageModel {
    let entries = state.prices_age_and_rewards;
    OracleMessageModel {
        channel_id,
        prices_and_age: truncated(
            channel_pairs.map_values(|pair: PairModel| price_of(pairs, entries, pair)),
            64,
        ),
        timestamp: state.timestamp,
        rewards: truncated(
            listing::<AccountId, u16>(reward_counts(credited(pairs, entries, channel_pairs))),
            64,
        ),
        reward_asset,
    }
}

proof fn lemma_count_push(nodes: Seq<[u8; 32]>, node: [u8; 32])
    requires
        nodes.push(node).to_multiset().count(node) <= u16::MAX,
    ensures
        reward_counts(nodes.push(node)) == reward_counts(nodes).insert(
            node,
            (if nodes.contains(node) {
                reward_counts(nodes)[node] + 1
            } else {
                1
            }) as u16,
        ),
        nodes.contains(node) ==> reward_counts(nodes)[node] < u16::MAX,
{
    broadcast use group_to_multiset_ensures;

    let more = nodes.push(node);
    assert(more.to_multiset() == nodes.to_multiset().insert(node));
    assert(!nodes.contains(node) ==> nodes.to_multiset().count(node) == 0);
    assert forall|other: [u8; 32]| more.contains(other) <==> nodes.contains(other) || other
        == node by {
        if nodes.contains(other) {
            let i = choose|i: int| 0 <= i < nodes.len() && nodes[i] == other;
            assert(more[i] == other);
        }
        assert(more[nodes.len() as int] == node);
    }
    assert(reward_counts(more) =~= reward_counts(nodes).insert(
        node,
        (if nodes.contains(node) {
            reward_counts(nodes)[node] + 1
        } else {
            1
        }) as u16,
    ));
}

proof fn lemma_prefix_count(a: Seq<[u8; 32]>, b: Seq<[u8; 32]>, node: [u8; 32])
    ensures
        a.to_multiset().count(node) <= (a + b).to_multiset().count(node),
{
    lemma_multiset_commutative(a, b);
}

proof fn lemma_credited_prefix(
    pairs: Seq<PairModel>,
    entries: Seq<Option<PriceEntryModel>>,
    channel_pairs: Seq<PairModel>,
    i: int,
)
    requires
        0 <= i <= channel_pairs.len(),
    ensures
        exists|rest: Seq<[u8; 32]>|
            credited(pairs, entries, channel_pairs) == #[trigger] (credited(
                pairs,
                entries,
                channel_pairs.take(i),
            ) + rest),
    decreases channel_pairs.len() - i,
{
    let whole = credited(pairs, entries, channel_pairs);
    if i == channel_pairs.len() {
        assert(channel_pairs.take(i) =~= channel_pairs);
        assert(whole =~= whole + Seq::<[u8; 32]>::empty());
    } else {
        lemma_credited_prefix(pairs, entries, channel_pairs, i + 1);
        let longer = channel_pairs.take(i + 1);
        assert(longer.drop_last() =~= channel_pairs.take(i));
        let rest = choose|rest: Seq<[u8; 32]>|
            whole == #[trigger] (credited(pairs, entries, longer) + rest);
        let first = rewards_of(pairs, entries, longer.last());
        assert(whole =~= credited(pairs, entries, channel_pairs.take(i)) + (first + rest));
    }
}

/// The last entry that is listed for a trade pair.
fn find_entry<'a>(
    pairs: &Vec<TradePair>,
    state: &'a AggregationState,
    pair: &TradePair,
) -> (r: Option<&'a PriceEntry>)
    ensures
        (match r {
            Some(entry) => Some(entry.model()),
            None => None,
        }) == entry_of(pairs.model(), state.model().prices_age_and_rewards, pair.model()),
{
    let ghost all = pairs.model();
    let ghost entries = state.model().prices_age_and_rewards;
    let mut i: usize = pairs.len();
    assert(all.take(i as int) =~= all);
    while i > 0
        invariant
            i <= pairs.len(),
            all == pairs.model(),
            entries == state.model().prices_age_and_rewards,
            entry_of(all, entries, pair.model()) == entry_of(
                all.take(i as int),
                entries,
                pair.model(),
            ),
        decreases i,
    {
        let rank = pairs[i - 1].rank(pair);
        proof {
            assert(all.take(i as int).last() == pairs@[i - 1].model());
            assert(all.take(i as int).drop_last() =~= all.take(i - 1));
            TradePair::lemma_irreflexive(pair.model());
        }
        match rank {
            Rank::Same => {
                match state.prices_age_and_rewards.get(i - 1) {
                    Some(entry) => {
                        assert(entries[i - 1] == entry.model());
                        return match entry {
                            Some(found) => Some(found),
                            None => None,
                        };
                    },
                    None => {},
                }
            },
            _ => {},
        }
        i -= 1;
    }
    None
}

/// Credits the nodes of a trade pair.
fn credit(
    counts: &mut SortedMap<[u8; 32], u16>,
    rewards: &BoundedVec<[u8; 32], 64>,
    Ghost(before): Ghost<Seq<[u8; 32]>>,
)
    requires
        old(counts)@ == reward_counts(before),
        countable(before + rewards@),
    ensures
        final(counts)@ == reward_counts(before + rewards@),
{
    let n: usize = rewards.len();
    assert(before + rewards@.take(0) =~= before);
    for i in 0..n
        invariant
            n == rewards@.len(),
            countable(before + rewards@),
            counts@ == reward_counts(before + rewards@.take(i as int)),
    {
        let account: [u8; 32] = *rewards.at(i);
        let ghost so_far = before + rewards@.take(i as int);
        proof {
            assert(so_far.push(account) =~= before + rewards@.take(i + 1));
            assert(before + rewards@ =~= so_far.push(account) + rewards@.skip(i + 1));
            lemma_prefix_count(so_far.push(account), rewards@.skip(i + 1), account);
            assert((before + rewards@).to_multiset().count(account) <= u16::MAX);
            lemma_count_push(so_far, account);
        }
        let count: u16 = match counts.get(&account) {
            Some(count) => count + 1,
            None => 1,
        };
        counts.insert(account, count);
    }
    assert(rewards@.take(n as int) =~= rewards@);
}

/// The message of a channel.
pub fn convert_aggregation_state_to_oracle_message(
    aggregation_state: &AggregationState,
    all_trade_pairs: &Vec<TradePair>,
    channel_id: ChannelId,
    this_trade_pairs: Vec<TradePair>,
    reward_asset: Option<(ChannelId, BoundedVec<u8, 64>)>,
) -> (r: OracleMessage)
    requires
        countable(
            credited(
                all_trade_pairs.model(),
                aggregation_state.model().prices_age_and_rewards,
                this_trade_pairs.model(),
            ),
        ),
    ensures
        r.model() == channel_message(
            aggregation_state.model(),
            all_trade_pairs.model(),
            channel_id.model(),
            this_trade_pairs.model(),
            reward_asset.model(),
        ),
{
    let ghost pairs = all_trade_pairs.model();
    let ghost entries = aggregation_state.model().prices_age_and_rewards;
    let ghost chosen = this_trade_pairs.model();
    let ghost price = |pair: PairModel| price_of(pairs, entries, pair);
    let mut this_rewards: SortedMap<[u8; 32], u16> = SortedMap::new();
    let mut prices_and_age: Vec<Option<(u64, u16)>> = Vec::new();
    proof {
        assert(chosen.take(0) =~= Seq::<PairModel>::empty());
        assert(reward_counts(credited(pairs, entries, chosen.take(0))) =~= Map::<
            [u8; 32],
            u16,
        >::empty());
    }
    for i in 0..this_trade_pairs.len()
        invariant
            pairs == all_trade_pairs.model(),
            entries == aggregation_state.model().prices_age_and_rewards,
            chosen == this_trade_pairs.model(),
            price == (|pair: PairModel| price_of(pairs, entries, pair)),
            countable(credited(pairs, entries, chosen)),
            prices_and_age@ == chosen.take(i as int).map_values(price),
            this_rewards@ == reward_counts(credited(pairs, entries, chosen.take(i as int))),
    {
        let trade_pair = &this_trade_pairs[i];
        let ghost before = credited(pairs, entries, chosen.take(i as int));
        let ghost after = credited(pairs, entries, chosen.take(i + 1));
        proof {
            assert(chosen[i as int] == trade_pair.model());
            assert(chosen.take(i + 1).drop_last() =~= chosen.take(i as int));
            assert(after == before + rewards_of(pairs, entries, trade_pair.model()));
            assert(countable(after)) by {
                lemma_credited_prefix(pairs, entries, chosen, i + 1);
                let rest = choose|rest: Seq<[u8; 32]>|
                    credited(pairs, entries, chosen) == #[trigger] (after + rest);
                assert forall|node: [u8; 32]| #[trigger]
                    after.to_multiset().count(node) <= u16::MAX by {
                    lemma_prefix_count(after, rest, node);
                    assert((after + rest).to_multiset().count(node) <= u16::MAX);
                }
            }
            assert(chosen.take(i + 1).map_values(price) =~= chosen.take(i as int).map_values(
                price,
            ).push(price(trade_pair.model())));
        }
        match find_entry(all_trade_pairs, aggregation_state, trade_pair) {
            Some(entry) => {
                proof {
                    assert(entry.2.model() =~= entry.2@);
                    assert(rewards_of(pairs, entries, trade_pair.model()) == entry.2@);
                }
                credit(&mut this_rewards, &entry.2, Ghost(before));
                prices_and_age.push(Some((entry.0, entry.1)));
            },
            None => {
                assert(after =~= before);
                prices_and_age.push(None);
            },
        }
    }
    proof {
        assert(chosen.take(chosen.len() as int) =~= chosen);
    }
    let listed = this_rewards.iter();
    proof {
        lemma_reward_models(listed@);
    }
    OracleMessage {
        channel_id,
        prices_and_age: BoundedVec::truncate_from(prices_and_age),
        timestamp: aggregation_state.timestamp,
        rewards: BoundedVec::truncate_from(listed),
        reward_asset,
    }
}

// ---------------------------------------------------------------------------------------------
// Messages of all channels

/// The trade pairs with the given indices; indices behind the list are left out.
pub open spec fn selected(pairs: Seq<PairModel>, indices: Seq<u16>) -> Seq<PairModel> {
    indices.filter(|index: u16| index < pairs.len()).map_values(|index: u16| pairs[index as int])
}

/// The asset that rewards are paid in, if both parts of it are set.
pub open spec fn reward_asset(s: PalletModel) -> Option<(Seq<u8>, Seq<u8>)> {
    match (s.reward_policy_id, s.reward_asset_name) {
        (Some(policy_id), Some(asset_name)) => Some((policy_id, asset_name)),
        _ => None,
    }
}

/// The messages of the channels, for an aggregation.
pub open spec fn channel_messages(
    state: AggregationModel,
    pairs: Seq<PairModel>,
    channels: Seq<(Seq<u8>, Seq<u16>)>,
    asset: Option<(Seq<u8>, Seq<u8>)>,
) -> Seq<OracleMessageModel> {
    channels.map_values(
        |channel: (Seq<u8>, Seq<u16>)|
            channel_message(state, pairs, channel.0, selected(pairs, channel.1), asset),
    )
}

/// The messages that a node signs, if there is a configuration and an aggregation.
pub open spec fn oracle_messages(s: PalletModel) -> Option<Seq<OracleMessageModel>> {
    match (s.trade_pairs, s.channels_to_trade_pairs, s.aggregation) {
        (Some(pairs), Some(channels), Some(state)) => Some(
            channel_messages(state, pairs, channels, reward_asset(s)),
        ),
        _ => None,
    }
}

proof fn lemma_selected(pairs: Seq<PairModel>, indices: Seq<u16>)
    ensures
        selected(pairs, indices) == if indices.len() == 0 {
            Seq::empty()
        } else if indices.last() < pairs.len() {
            selected(pairs, indices.drop_last()).push(pairs[indices.last() as int])
        } else {
            selected(pairs, indices.drop_last())
        },
{
    reveal(Seq::filter);
    let known = |index: u16| index < pairs.len();
    let pick = |index: u16| pairs[index as int];
    if indices.len() > 0 {
        let rest = indices.drop_last();
        assert(rest.filter(known).push(indices.last()).map_values(pick) =~= rest.filter(
            known,
        ).map_values(pick).push(pick(indices.last())));
    } else {
        assert(indices.filter(known).map_values(pick) =~= Seq::<PairModel>::empty());
    }
}

fn select_pairs(pairs: &BoundedVec<TradePair, 64>, indices: &BoundedVec<u16, 64>) -> (r: Vec<
    TradePair,
>)
    ensures
        r.model() == selected(pairs.model(), indices.model()),
        r@.len() <= 64,
{
    let ghost all = pairs.model();
    let ghost chosen = indices.model();
    let n: usize = indices.len();
    let mut found: Vec<TradePair> = Vec::new();
    proof {
        lemma_selected(all, chosen.take(0));
        assert(models(found@) =~= Seq::<PairModel>::empty());
    }
    for i in 0..n
        invariant
            n == indices@.len(),
            n <= 64,
            all == pairs.model(),
            chosen == indices.model(),
            models(found@) == selected(all, chosen.take(i as int)),
            found@.len() <= i,
    {
        let index: u16 = *indices.at(i);
        proof {
            lemma_selected(all, chosen.take(i + 1));
            assert(chosen.take(i + 1).drop_last() =~= chosen.take(i as int));
            assert(chosen.take(i + 1).last() == indices@[i as int].model());
        }
        match pairs.get(index as usize) {
            Some(pair) => {
                let pair = pair.duplicate();
                proof {
                    assert(all[index as int] == pair.model());
                    lemma_models_push(found@, pair);
                }
                found.push(pair);
            },
            None => {},
        }
    }
    assert(chosen.take(n as int) =~= chosen);
    found
}

/// Every entry rewards at most 64 nodes.
pub open spec fn rewards_bounded(entries: Seq<Option<PriceEntryModel>>) -> bool {
    forall|i: int| 0 <= i < entries.len() ==> #[trigger] reward_len(entries[i]) <= 64
}

pub open spec fn reward_len(entry: Option<PriceEntryModel>) -> nat {
    match entry {
        Some((_, _, rewards)) => rewards.len(),
        None => 0,
    }
}

/// An aggregation rewards at most 64 nodes for each entry.
fn observe_bounds(state: &AggregationState)
    ensures
        rewards_bounded(state.model().prices_age_and_rewards),
{
    let ghost entries = state.model().prices_age_and_rewards;
    let n: usize = state.prices_age_and_rewards.len();
    for i in 0..n
        invariant
            n == state.prices_age_and_rewards@.len(),
            entries == state.model().prices_age_and_rewards,
            forall|j: int| 0 <= j < i ==> #[trigger] reward_len(entries[j]) <= 64,
    {
        let entry = state.prices_age_and_rewards.at(i);
        assert(entries[i as int] == entry.model());
        match entry {
            Some((_price, _age, rewards)) => {
                let len: usize = rewards.len();
                assert(reward_len(entries[i as int]) == len);
            },
            None => {},
        }
    }
}

proof fn lemma_rewards_bounded(
    pairs: Seq<PairModel>,
    entries: Seq<Option<PriceEntryModel>>,
    pair: PairModel,
)
    requires
        rewards_bounded(entries),
    ensures
        rewards_of(pairs, entries, pair).len() <= 64,
    decreases pairs.len(),
{
    if pairs.len() > 0 {
        if pairs.len() <= entries.len() && pairs.last() == pair {
            assert(reward_len(entries[pairs.len() - 1]) <= 64);
        } else {
            lemma_rewards_bounded(pairs.drop_last(), entries, pair);
        }
    }
}

proof fn lemma_credited_bounded(
    pairs: Seq<PairModel>,
    entries: Seq<Option<PriceEntryModel>>,
    channel_pairs: Seq<PairModel>,
)
    requires
        rewards_bounded(entries),
    ensures
        credited(pairs, entries, channel_pairs).len() <= 64 * channel_pairs.len(),
    decreases channel_pairs.len(),
{
    if channel_pairs.len() > 0 {
        lemma_credited_bounded(pairs, entries, channel_pairs.drop_last());
        lemma_rewards_bounded(pairs, entries, channel_pairs.last());
    }
}

/// The rewards of a channel with at most 64 trade pairs can be counted.
pub proof fn lemma_channel_countable(
    pairs: Seq<PairModel>,
    entries: Seq<Option<PriceEntryModel>>,
    channel_pairs: Seq<PairModel>,
)
    requires
        rewards_bounded(entries),
        channel_pairs.len() <= 64,
    ensures
        countable(credited(pairs, entries, channel_pairs)),
{
    broadcast use group_to_multiset_ensures;

    lemma_credited_bounded(pairs, entries, channel_pairs);
    let nodes = credited(pairs, entries, channel_pairs);
    assert forall|node: [u8; 32]| #[trigger] nodes.to_multiset().count(node) <= u16::MAX by {
        assert(nodes.to_multiset().count(node) <= nodes.to_multiset().len());
        assert(nodes.to_multiset().len() == nodes.len());
    }
}

/// The message of each channel with the signature on it, without the messages that were not signed.
pub open spec fn signed_messages(
    messages: Seq<OracleMessageModel>,
    signatures: Seq<Option<Seq<u8>>>,
) -> Seq<(OracleMessageModel, Seq<u8>)>
    decreases messages.len(),
{
    if messages.len() == 0 {
        Seq::empty()
    } else {
        let rest = signed_messages(messages.drop_last(), signatures.drop_last());
        match signatures.last() {
            Some(signature) => rest.push((messages.last(), signature)),
            None => rest,
        }
    }
}

/// Whether the offchain worker runs.
#[derive(Debug, PartialEq, Eq)]
pub enum OffchainPlan {
    /// The keystore holds no account.
    NoAccount,
    /// The keystore holds more than one account.
    TooManyAccounts,
    /// The account belongs to no authorized node.
    Unauthorized,
    /// No trade pairs are configured.
    MissingTradePairs,
    /// The prices of the trade pairs are fetched and the messages signed for the account.
    Run { account: AccountId, trade_pairs: Vec<TradePair> },
}

#[verifier::ext_equal]
pub enum OffchainPlanModel {
    NoAccount,
    TooManyAccounts,
    Unauthorized,
    MissingTradePairs,
    Run { account: AccountId, trade_pairs: Seq<PairModel> },
}

impl OffchainPlan {
    pub open spec fn model(&self) -> OffchainPlanModel {
        match self {
            OffchainPlan::NoAccount => OffchainPlanModel::NoAccount,
            OffchainPlan::TooManyAccounts => OffchainPlanModel::TooManyAccounts,
            OffchainPlan::Unauthorized => OffchainPlanModel::Unauthorized,
            OffchainPlan::MissingTradePairs => OffchainPlanModel::MissingTradePairs,
            OffchainPlan::Run { account, trade_pairs } => OffchainPlanModel::Run {
                account: *account,
                trade_pairs: trade_pairs.model(),
            },
        }
    }
}

/// The worker runs for the only account in the keystore, if its node is authorized and trade pairs
/// are configured.
pub open spec fn offchain_plan(s: PalletModel, accounts: Seq<AccountId>) -> OffchainPlanModel {
    if accounts.len() == 0 {
        OffchainPlanModel::NoAccount
    } else if accounts.len() > 1 {
        OffchainPlanModel::TooManyAccounts
    } else if !s.authorized_oracle_nodes.contains_key(accounts[0]) {
        OffchainPlanModel::Unauthorized
    } else {
        match s.trade_pairs {
            Some(trade_pairs) => OffchainPlanModel::Run { account: accounts[0], trade_pairs },
            None => OffchainPlanModel::MissingTradePairs,
        }
    }
}

/// Joins messages with the signatures on them.
pub fn attach_signatures(messages: Vec<OracleMessage>, signatures: Vec<Option<Signature>>) -> (r:
    Vec<(OracleMessage, Signature)>)
    requires
        messages@.len() == signatures@.len(),
    ensures
        r.model() == signed_messages(messages.model(), signatures.model()),
{
    let ghost all = messages.model();
    let ghost given = signatures.model();
    let mut signed: Vec<(OracleMessage, Signature)> = Vec::new();
    assert(models(signed@) =~= signed_messages(all.take(0), given.take(0)));
    for i in 0..messages.len()
        invariant
            messages@.len() == signatures@.len(),
            all == messages.model(),
            given == signatures.model(),
            models(signed@) == signed_messages(all.take(i as int), given.take(i as int)),
    {
        proof {
            assert(all.take(i + 1).drop_last() =~= all.take(i as int));
            assert(given.take(i + 1).drop_last() =~= given.take(i as int));
            assert(all.take(i + 1).last() == messages@[i as int].model());
            assert(given.take(i + 1).last() == signatures@[i as int].model());
        }
        match &signatures[i] {
            Some(signature) => {
                let entry = (messages[i].duplicate(), signature.duplicate());
                proof {
                    lemma_models_push(signed@, entry);
                }
                signed.push(entry);
            },
            None => {},
        }
    }
    assert(all.take(all.len() as int) =~= all);
    assert(given.take(given.len() as int) =~= given);
    signed
}

impl Pallet {
    /// The prices that a provider fetches for the trade pairs.
    pub fn fetch_prices<P: PriceProvider>(tickers: Vec<TradePair>) -> (r: Vec<(TradePair, u64)>)
        ensures
            call_ensures(P::fetch_prices, (tickers,), r),
    {
        P::fetch_prices(tickers)
    }

    /// The fetched prices that the offchain worker submits: all of them, and nothing where no price
    /// was fetched.
    pub fn prices_to_submit(prices: Vec<(TradePair, u64)>) -> (r: Option<Vec<(TradePair, u64)>>)
        ensures
            r == if prices@.len() == 0 {
                None
            } else {
                Some(prices)
            },
    {
        if prices.len() == 0 {
            None
        } else {
            Some(prices)
        }
    }

    /// The signed messages that the offchain worker submits: all of them, and nothing where there
    /// were no messages or none was signed.
    pub fn signatures_to_submit(signatures: Option<Vec<(OracleMessage, Signature)>>) -> (r: Option<
        Vec<(OracleMessage, Signature)>,
    >)
        ensures
            r == match signatures {
                Some(signed) => if signed@.len() == 0 {
                    None
                } else {
                    Some(signed)
                },
                None => None,
            },
    {
        match signatures {
            Some(signed) => if signed.len() == 0 {
                None
            } else {
                Some(signed)
            },
            None => None,
        }
    }

    /// The messages that a node signs: one for each channel.
    pub fn prepare_oracle_messages(&self) -> (r: Option<Vec<OracleMessage>>)
        ensures
            r.model() == oracle_messages(self@),
    {
        let all_trade_pairs = match &self.trade_pairs {
            Some(trade_pairs) => trade_pairs,
            None => {
                return None;
            },
        };
        let channels = match &self.channels_to_trade_pairs {
            Some(channels) => channels,
            None => {
                return None;
            },
        };
        let current_state = match &self.aggregation {
            Some(state) => state,
            None => {
                return None;
            },
        };
        let asset = match (&self.reward_policy_id, &self.reward_asset_name) {
            (Some(policy_id), Some(asset_name)) => Some(
                (policy_id.duplicate(), asset_name.duplicate()),
            ),
            _ => None,
        };
        observe_bounds(current_state);
        let ghost pairs = all_trade_pairs.model();
        let ghost state = current_state.model();
        let ghost expected = channel_messages(state, pairs, channels.model(), asset.model());
        let n: usize = channels.len();
        let mut messages: Vec<OracleMessage> = Vec::new();
        assert(models(messages@) =~= expected.take(0));
        for i in 0..n
            invariant
                n == channels@.len(),
                pairs == all_trade_pairs.model(),
                state == current_state.model(),
                rewards_bounded(state.prices_age_and_rewards),
                expected == channel_messages(state, pairs, channels.model(), asset.model()),
                models(messages@) == expected.take(i as int),
        {
            let channel = channels.at(i);
            assert(channels.model()[i as int] == channel.model());
            let chosen = select_pairs(all_trade_pairs, &channel.1);
            proof {
                assert(chosen.model().len() == chosen@.len());
                lemma_channel_countable(pairs, state.prices_age_and_rewards, chosen.model());
            }
            let message = convert_aggregation_state_to_oracle_message(
                current_state,
                all_trade_pairs.as_vec(),
                channel.0.duplicate(),
                chosen,
                asset.duplicate(),
            );
            proof {
                lemma_models_push(messages@, message);
                assert(expected.take(i + 1) =~= expected.take(i as int).push(expected[i as int]));
            }
            messages.push(message);
        }
        assert(expected.take(n as int) =~= expected);
        Some(messages)
    }

    /// Whether the offchain worker runs for the accounts in the keystore.
    pub fn plan_offchain_worker(&self, accounts: &Vec<AccountId>) -> (r: OffchainPlan)
        ensures
            r.model() == offchain_plan(self@, accounts@),
    {
        if accounts.len() == 0 {
            return OffchainPlan::NoAccount;
        }
        if accounts.len() > 1 {
            return OffchainPlan::TooManyAccounts;
        }
        let account: AccountId = accounts[0];
        if !self.authorized_oracle_nodes.contains_key(&account) {
            return OffchainPlan::Unauthorized;
        }
        match &self.trade_pairs {
            Some(trade_pairs) => {
                let listed = trade_pairs.as_vec().duplicate();
                OffchainPlan::Run { account, trade_pairs: listed }
            },
            None => OffchainPlan::MissingTradePairs,
        }
    }
}

} // verus!
