use charli3_oracle_core::bounded::BoundedVec;
use charli3_oracle_core::model::Model;
use charli3_oracle_core::pallet::consensus::{aggregate, sort_by_price};
use charli3_oracle_core::pallet::offchain::{
    attach_signatures, convert_aggregation_state_to_oracle_message,
};
use charli3_oracle_core::pallet::{
    AggregationState, Event, GenesisConfig, OffchainPlan, OracleMessage, Pallet,
};
use charli3_oracle_core::primitives::{Origin, Signature};
use charli3_oracle_core::types::{ConsensusConfiguration, RewardConfiguration};
use charli3_oracle_core::{MessagesConfiguration, PriceProvider, TradePair};

fn account(byte: u8) -> [u8; 32] {
    [byte; 32]
}

fn pair(ticker: &str) -> TradePair {
    TradePair::from_ticker(ticker).unwrap()
}

fn entries(prices: &[(u8, u64)]) -> Vec<([u8; 32], u64)> {
    prices.iter().map(|(node, price)| (account(*node), *price)).collect()
}

fn rewards(nodes: &[u8]) -> BoundedVec<[u8; 32], 64> {
    BoundedVec::truncate_from(nodes.iter().map(|node| account(*node)).collect())
}

fn channels(list: &[(u8, &[u16])]) -> MessagesConfiguration {
    BoundedVec::truncate_from(
        list.iter()
            .map(|(channel, indices)| {
                (
                    BoundedVec::truncate_from(vec![*channel]),
                    BoundedVec::truncate_from(indices.to_vec()),
                )
            })
            .collect(),
    )
}

/// A pallet with the nodes 1, 2 and 3 for two trade pairs.
fn configured() -> Pallet {
    let mut pallet = Pallet::new();
    let mut genesis = GenesisConfig::default();
    genesis.authorized_nodes = rewards_to_accounts(&[1, 2, 3]);
    genesis.build(&mut pallet);
    let consensus = ConsensusConfiguration {
        min_nodes_for_trusted_aggregation: 3,
        feed_age: 10,
        outliers_range: 150,
        divergency: 20,
        trade_pairs: BoundedVec::truncate_from(vec![pair("ADA-USD"), pair("BTC-USD")]),
    };
    pallet
        .sudo_set_config(Origin::Root, 1, consensus, channels(&[(9, &[0, 1, 7])]), None)
        .unwrap();
    pallet
}

fn rewards_to_accounts(nodes: &[u8]) -> BoundedVec<[u8; 32], 32> {
    BoundedVec::truncate_from(nodes.iter().map(|node| account(*node)).collect())
}

fn submit(pallet: &mut Pallet, when: u64, prices: &[(u8, u64)]) {
    for (node, price) in prices {
        let origin = Origin::Signed(account(*node));
        pallet.store_prices(origin, when, vec![(pair("ADA-USD"), *price)]).unwrap();
    }
}

fn aggregation(pallet: &Pallet) -> Vec<Option<(u64, u16, BoundedVec<[u8; 32], 64>)>> {
    let state = pallet.aggregation.as_ref().unwrap().duplicate();
    state.prices_age_and_rewards.into_inner()
}

#[test]
fn equal_prices_keep_their_order() {
    assert_eq!(
        sort_by_price(entries(&[(3, 5), (1, 5), (2, 4), (9, 5)])),
        entries(&[(2, 4), (3, 5), (1, 5), (9, 5)])
    );
}

#[test]
fn outliers_are_not_rewarded() {
    let prices = entries(&[(1, 100), (2, 102), (3, 101), (4, 103), (5, 1000)]);
    assert_eq!(aggregate(prices, 150, 20), Some((102, rewards(&[1, 3, 2, 4]))));
}

#[test]
fn few_prices_are_compared_with_the_median() {
    let prices = entries(&[(1, 100), (2, 101), (3, 200)]);
    assert_eq!(aggregate(prices, 150, 20), Some((101, rewards(&[1, 2]))));
}

#[test]
fn no_prices_have_no_consensus() {
    assert_eq!(aggregate(vec![], 150, 20), None);
}

#[test]
fn at_most_32_nodes_take_part() {
    let prices: Vec<([u8; 32], u64)> = (1..=33u8).map(|node| (account(node), node as u64)).collect();
    let (median, rewarded) = aggregate(prices, 10, 20).unwrap();
    assert_eq!(median, 17);
    assert_eq!(rewarded.len(), 20);
    assert_eq!(rewarded.get(0), Some(&account(7)));
    assert_eq!(rewarded.get(19), Some(&account(26)));
}

#[test]
fn a_block_aggregates_fresh_prices() {
    let mut pallet = configured();
    submit(&mut pallet, 5, &[(1, 100), (2, 101), (3, 200)]);
    assert!(pallet.is_finalizable(6));
    pallet.on_finalize(6, 1_700_000_000_999);
    assert_eq!(aggregation(&pallet), vec![Some((101, 0, rewards(&[1, 2]))), None]);
    let state = pallet.aggregation.as_ref().unwrap().duplicate();
    assert_eq!(state.timestamp, 1_700_000_000_000);
    assert_eq!(
        pallet.events[pallet.events.len() - 1],
        Event::Status { current_state: state, block: 6 }
    );
}

#[test]
fn stale_prices_age_the_previous_entry() {
    let mut pallet = configured();
    submit(&mut pallet, 5, &[(1, 100), (2, 101), (3, 200)]);
    pallet.on_finalize(15, 0);
    assert_eq!(aggregation(&pallet)[0], Some((101, 0, rewards(&[1, 2]))));
    assert_eq!(pallet.get_previous_median(0), Some((101, 1)));
    assert_eq!(pallet.get_previous_median(1), None);
    assert_eq!(pallet.get_previous_median(2), None);
    pallet.on_finalize(16, 0);
    assert_eq!(aggregation(&pallet)[0], Some((101, 1, BoundedVec::new())));
    pallet.on_finalize(17, 0);
    assert_eq!(aggregation(&pallet)[0], Some((101, 2, BoundedVec::new())));
}

#[test]
fn too_few_nodes_give_no_price() {
    let mut pallet = configured();
    submit(&mut pallet, 5, &[(1, 100), (2, 101)]);
    pallet.on_finalize(6, 0);
    assert_eq!(aggregation(&pallet), vec![None, None]);
}

#[test]
fn without_configuration_a_block_changes_nothing() {
    let mut pallet = Pallet::new();
    assert!(pallet.is_finalizable(3));
    pallet.on_finalize(3, 5000);
    assert_eq!(pallet, Pallet::new());
}

#[test]
fn some_storage_is_not_finalizable() {
    let mut late = configured();
    submit(&mut late, 9, &[(1, 100)]);
    assert!(!late.is_finalizable(8));
    assert!(late.is_finalizable(9));

    let mut wide = configured();
    wide.authorized_oracle_nodes = {
        let mut four = configured().authorized_oracle_nodes;
        let info = four.get(&account(1)).unwrap();
        four.insert(account(4), info);
        four
    };
    submit(&mut wide, 5, &[(1, 0), (2, 0), (3, 1000), (4, 1000)]);
    assert!(!wide.is_finalizable(6));

    let mut old = configured();
    old.aggregation = Some(AggregationState {
        prices_age_and_rewards: BoundedVec::truncate_from(vec![Some((
            7,
            u16::MAX,
            BoundedVec::new(),
        ))]),
        timestamp: 0,
    });
    assert!(!old.is_finalizable(6));
}

#[test]
fn each_channel_has_a_message() {
    let mut pallet = configured();
    assert_eq!(pallet.prepare_oracle_messages(), None);
    submit(&mut pallet, 5, &[(1, 100), (2, 101), (3, 200)]);
    pallet.on_finalize(6, 4_500);
    let messages = pallet.prepare_oracle_messages().unwrap();
    assert_eq!(
        messages,
        vec![OracleMessage {
            channel_id: BoundedVec::truncate_from(vec![9]),
            prices_and_age: BoundedVec::truncate_from(vec![Some((101, 0)), None]),
            timestamp: 4000,
            rewards: BoundedVec::truncate_from(vec![(account(1), 1), (account(2), 1)]),
            reward_asset: None,
        }]
    );
}

#[test]
fn messages_carry_the_reward_asset() {
    let mut pallet = configured();
    let reward = RewardConfiguration {
        reward_policy_id: BoundedVec::truncate_from(vec![1]),
        reward_asset_name: BoundedVec::truncate_from(vec![2]),
    };
    let consensus = pallet.get_oracle_config().unwrap();
    pallet
        .sudo_set_config(Origin::Root, 2, consensus, channels(&[(4, &[]), (5, &[1])]), Some(reward))
        .unwrap();
    pallet.on_finalize(6, 0);
    let messages = pallet.prepare_oracle_messages().unwrap();
    assert_eq!(messages.len(), 2);
    assert_eq!(messages[0].prices_and_age, BoundedVec::new());
    assert_eq!(messages[1].prices_and_age, BoundedVec::truncate_from(vec![None]));
    let asset = (BoundedVec::truncate_from(vec![1]), BoundedVec::truncate_from(vec![2]));
    assert_eq!(messages[1].reward_asset, Some(asset));
}

#[test]
fn rewards_are_counted_over_the_pairs_of_a_channel() {
    let state = AggregationState {
        prices_age_and_rewards: BoundedVec::truncate_from(vec![
            Some((10, 0, rewards(&[3, 1]))),
            Some((20, 4, rewards(&[1]))),
        ]),
        timestamp: 77,
    };
    let all = vec![pair("A-B"), pair("C-D"), pair("E-F")];
    let chosen = vec![pair("C-D"), pair("A-B"), pair("E-F"), pair("X-Y")];
    let message = convert_aggregation_state_to_oracle_message(
        &state,
        &all,
        BoundedVec::new(),
        chosen,
        None,
    );
    assert_eq!(
        message.prices_and_age,
        BoundedVec::truncate_from(vec![Some((20, 4)), Some((10, 0)), None, None])
    );
    assert_eq!(
        message.rewards,
        BoundedVec::truncate_from(vec![(account(1), 2), (account(3), 1)])
    );
    assert_eq!(message.timestamp, 77);
}

#[test]
fn the_last_entry_of_a_repeated_pair_counts() {
    let state = AggregationState {
        prices_age_and_rewards: BoundedVec::truncate_from(vec![
            Some((10, 0, rewards(&[3]))),
            None,
        ]),
        timestamp: 0,
    };
    let all = vec![pair("A-B"), pair("A-B")];
    let message = convert_aggregation_state_to_oracle_message(
        &state,
        &all,
        BoundedVec::new(),
        vec![pair("A-B")],
        None,
    );
    assert_eq!(message.prices_and_age, BoundedVec::truncate_from(vec![None]));
    assert_eq!(message.rewards, BoundedVec::new());
}

#[test]
fn unsigned_messages_are_left_out() {
    let message = |channel: u8| OracleMessage {
        channel_id: BoundedVec::truncate_from(vec![channel]),
        prices_and_age: BoundedVec::new(),
        timestamp: 0,
        rewards: BoundedVec::new(),
        reward_asset: None,
    };
    let signature = |byte: u8| Signature { encoded: vec![byte; 65] };
    let signed = attach_signatures(
        vec![message(1), message(2), message(3)],
        vec![Some(signature(1)), None, Some(signature(3))],
    );
    assert_eq!(signed, vec![(message(1), signature(1)), (message(3), signature(3))]);
}

#[test]
fn the_worker_runs_for_one_authorized_account() {
    let mut pallet = configured();
    assert_eq!(pallet.plan_offchain_worker(&vec![]), OffchainPlan::NoAccount);
    assert_eq!(
        pallet.plan_offchain_worker(&vec![account(1), account(2)]),
        OffchainPlan::TooManyAccounts
    );
    assert_eq!(pallet.plan_offchain_worker(&vec![account(8)]), OffchainPlan::Unauthorized);
    assert_eq!(
        pallet.plan_offchain_worker(&vec![account(1)]),
        OffchainPlan::Run {
            account: account(1),
            trade_pairs: vec![pair("ADA-USD"), pair("BTC-USD")]
        }
    );
    pallet.trade_pairs = None;
    assert_eq!(pallet.plan_offchain_worker(&vec![account(1)]), OffchainPlan::MissingTradePairs);
}

#[test]
fn nothing_is_submitted_without_prices_or_signatures() {
    assert_eq!(Pallet::prices_to_submit(vec![]), None);
    let prices = || vec![(pair("ADA-USD"), 12), (pair("BTC-USD"), 0)];
    assert_eq!(Pallet::prices_to_submit(prices()), Some(prices()));
    assert_eq!(Pallet::signatures_to_submit(None), None);
    assert_eq!(Pallet::signatures_to_submit(Some(vec![])), None);
    let signed = || {
        let message = OracleMessage {
            channel_id: BoundedVec::truncate_from(vec![1]),
            prices_and_age: BoundedVec::new(),
            timestamp: 0,
            rewards: BoundedVec::new(),
            reward_asset: None,
        };
        vec![(message, Signature { encoded: vec![7; 65] })]
    };
    assert_eq!(Pallet::signatures_to_submit(Some(signed())), Some(signed()));
}

struct Fixed;

impl PriceProvider for Fixed {
    fn fetch_prices(trade_pairs: Vec<TradePair>) -> Vec<(TradePair, u64)> {
        trade_pairs.into_iter().map(|pair| (pair, 12)).collect()
    }
}

#[test]
fn prices_are_fetched_from_the_provider() {
    assert_eq!(
        Pallet::fetch_prices::<Fixed>(vec![pair("A-B"), pair("C-D")]),
        vec![(pair("A-B"), 12), (pair("C-D"), 12)]
    );
}
