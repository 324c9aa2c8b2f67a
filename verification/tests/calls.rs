use charli3_oracle_core::bounded::BoundedVec;
use charli3_oracle_core::model::Model;
use charli3_oracle_core::pallet::{
    Error, Event, GenesisConfig, NodeStakingInfo, OracleMessage, OracleNodeStakingState, Pallet,
    ProviderChange,
};
use charli3_oracle_core::primitives::{DispatchError, Origin, Signature};
use charli3_oracle_core::types::{ConsensusConfiguration, RewardConfiguration};
use charli3_oracle_core::TradePair;

fn account(byte: u8) -> [u8; 32] {
    [byte; 32]
}

fn signed(byte: u8) -> Origin {
    Origin::Signed(account(byte))
}

fn pair(ticker: &str) -> TradePair {
    TradePair::from_ticker(ticker).unwrap()
}

fn with_nodes(nodes: &[u8]) -> Pallet {
    let mut pallet = Pallet::new();
    let mut genesis = GenesisConfig::default();
    genesis.authorized_nodes = BoundedVec::truncate_from(nodes.iter().map(|n| account(*n)).collect());
    genesis.build(&mut pallet);
    pallet
}

fn consensus() -> ConsensusConfiguration {
    ConsensusConfiguration {
        min_nodes_for_trusted_aggregation: 3,
        feed_age: 10,
        outliers_range: 150,
        divergency: 20,
        trade_pairs: BoundedVec::truncate_from(vec![pair("ADA-USD"), pair("BTC-USD")]),
    }
}

fn message(channel: u8, timestamp: u64) -> OracleMessage {
    OracleMessage {
        channel_id: BoundedVec::truncate_from(vec![channel]),
        prices_and_age: BoundedVec::new(),
        timestamp,
        rewards: BoundedVec::new(),
        reward_asset: None,
    }
}

fn signature(byte: u8) -> Signature {
    let mut encoded = vec![0u8];
    encoded.extend(vec![byte; 64]);
    Signature { encoded }
}

#[test]
fn genesis_authorizes_active_nodes() {
    let pallet = with_nodes(&[1, 2]);
    assert_eq!(pallet.authorized_oracle_nodes.len(), 2);
    assert_eq!(
        pallet.authorized_oracle_nodes.get(&account(1)),
        Some(NodeStakingInfo {
            stake_amount: 0,
            state: OracleNodeStakingState::ActiveStake,
            stake_activated_at: 0,
            cardano_pkh_admin: BoundedVec::new(),
            cardano_pkh_aggregation: BoundedVec::new(),
        })
    );
    assert_eq!(pallet.min_nodes_for_trusted_aggregation, Some(0));
    assert_eq!(pallet.feed_age, Some(0));
    assert_eq!(pallet.trade_pairs, Some(BoundedVec::truncate_from(vec![pair("ADA-USD")])));
    assert_eq!(pallet.channels_to_trade_pairs, Some(BoundedVec::new()));
    assert_eq!(pallet.reward_policy_id, None);
    assert_eq!(pallet.events, vec![]);
}

#[test]
fn genesis_sets_the_reward_asset() {
    let mut pallet = Pallet::new();
    let mut genesis = GenesisConfig::default();
    genesis.reward_policy_id = Some(BoundedVec::truncate_from(vec![1]));
    genesis.build(&mut pallet);
    assert_eq!(pallet.reward_policy_id, Some(BoundedVec::truncate_from(vec![1])));
    assert_eq!(pallet.reward_asset_name, None);
    assert_eq!(pallet.get_reward_config(), None);
}

#[test]
fn authorized_nodes_store_prices() {
    let mut pallet = with_nodes(&[1]);
    let prices = vec![(pair("ADA-USD"), 5), (pair("BTC-USD"), 7), (pair("ADA-USD"), 6)];
    assert_eq!(pallet.store_prices(signed(1), 4, prices), Ok(()));
    assert_eq!(pallet.nodes_prices.len(), 2);
    assert_eq!(pallet.nodes_prices.get(&(pair("ADA-USD"), account(1))), Some((6, 4)));
    assert_eq!(pallet.nodes_prices.get(&(pair("BTC-USD"), account(1))), Some((7, 4)));
    assert_eq!(
        pallet.events,
        vec![Event::StoredPrices { count: 3, who: account(1), when: 4 }]
    );
}

#[test]
fn later_prices_replace_earlier_ones() {
    let mut pallet = with_nodes(&[1]);
    pallet.store_prices(signed(1), 4, vec![(pair("ADA-USD"), 5)]).unwrap();
    pallet.store_prices(signed(1), 9, vec![(pair("ADA-USD"), 8)]).unwrap();
    assert_eq!(pallet.nodes_prices.iter_prefix(&pair("ADA-USD")), vec![(account(1), (8, 9))]);
}

#[test]
fn other_accounts_store_no_prices() {
    let mut pallet = with_nodes(&[1]);
    let prices = || vec![(pair("ADA-USD"), 5)];
    assert_eq!(
        pallet.store_prices(signed(2), 4, prices()),
        Err(DispatchError::Module(Error::UnauthorizedNode))
    );
    assert_eq!(pallet.store_prices(Origin::Root, 4, prices()), Err(DispatchError::BadOrigin));
    assert_eq!(pallet.store_prices(Origin::Unsigned, 4, prices()), Err(DispatchError::BadOrigin));
    assert_eq!(pallet, with_nodes(&[1]));
}

#[test]
fn too_many_prices_are_refused() {
    let mut pallet = with_nodes(&[1]);
    let many: Vec<(TradePair, u64)> = (0..65536u64).map(|price| (pair("A-B"), price)).collect();
    assert_eq!(pallet.store_prices(signed(1), 1, many), Err(DispatchError::CountOverflow));
    assert_eq!(pallet, with_nodes(&[1]));
    let most: Vec<(TradePair, u64)> = (0..65535u64).map(|price| (pair("A-B"), price)).collect();
    assert_eq!(pallet.store_prices(signed(1), 1, most), Ok(()));
    assert_eq!(pallet.nodes_prices.get(&(pair("A-B"), account(1))), Some((65534, 1)));
}

#[test]
fn signatures_are_stored_without_their_scheme() {
    let mut pallet = with_nodes(&[1]);
    let signatures = vec![(message(9, 1000), signature(7)), (message(8, 1000), signature(6))];
    let event = signatures.duplicate();
    assert_eq!(pallet.store_signatures(signed(1), 3, signatures), Ok(()));
    let key = |channel: u8| ((BoundedVec::truncate_from(vec![channel]), 1000), account(1));
    assert_eq!(pallet.signature_storage.get(&key(9)), Some([7; 64]));
    assert_eq!(pallet.signature_storage.get(&key(8)), Some([6; 64]));
    assert_eq!(
        pallet.events,
        vec![Event::StoredSignatures { who: account(1), when: 3, signatures: event }]
    );
}

#[test]
fn other_accounts_store_no_signatures() {
    let mut pallet = with_nodes(&[1]);
    let signatures = || vec![(message(9, 1000), signature(7))];
    assert_eq!(
        pallet.store_signatures(signed(2), 3, signatures()),
        Err(DispatchError::Module(Error::UnauthorizedNode))
    );
    assert_eq!(
        pallet.store_signatures(Origin::Unsigned, 3, signatures()),
        Err(DispatchError::BadOrigin)
    );
    assert_eq!(pallet, with_nodes(&[1]));
}

#[test]
fn the_root_sets_the_configuration() {
    let mut pallet = Pallet::new();
    assert_eq!(pallet.get_oracle_config(), None);
    let reward = RewardConfiguration {
        reward_policy_id: BoundedVec::truncate_from(vec![1]),
        reward_asset_name: BoundedVec::truncate_from(vec![2]),
    };
    let channels = BoundedVec::truncate_from(vec![(
        BoundedVec::truncate_from(vec![9]),
        BoundedVec::truncate_from(vec![0, 1]),
    )]);
    let set = pallet.sudo_set_config(
        Origin::Root,
        6,
        consensus(),
        channels.duplicate(),
        Some(reward.duplicate()),
    );
    assert_eq!(set, Ok(()));
    assert_eq!(pallet.get_oracle_config(), Some(consensus()));
    assert_eq!(pallet.get_reward_config(), Some(reward.duplicate()));
    assert_eq!(
        pallet.events,
        vec![Event::UpdatedConfig {
            consensus_config: consensus(),
            channels_to_trade_pairs: channels.duplicate(),
            reward_config: Some(reward),
            block: 6,
        }]
    );
    pallet.sudo_set_config(Origin::Root, 7, consensus(), channels, None).unwrap();
    assert_eq!(pallet.get_reward_config(), None);
    assert_eq!(pallet.reward_policy_id, None);
    assert_eq!(pallet.reward_asset_name, None);
}

#[test]
fn a_missing_setting_leaves_no_configuration() {
    let mut pallet = Pallet::new();
    pallet.sudo_set_config(Origin::Root, 7, consensus(), BoundedVec::new(), None).unwrap();
    pallet.divergency = None;
    assert_eq!(pallet.get_oracle_config(), None);
}

#[test]
fn only_the_root_administers() {
    let mut pallet = with_nodes(&[1]);
    assert_eq!(
        pallet.sudo_set_config(signed(1), 6, consensus(), BoundedVec::new(), None),
        Err(DispatchError::BadOrigin)
    );
    assert_eq!(
        pallet.sudo_register_oracle_node(signed(1), 6, account(2)),
        Err(DispatchError::BadOrigin)
    );
    assert_eq!(
        pallet.sudo_deregister_oracle_node(Origin::Unsigned, 6, account(1)),
        Err(DispatchError::BadOrigin)
    );
    assert_eq!(pallet, with_nodes(&[1]));
}

#[test]
fn the_root_registers_and_deregisters_nodes() {
    let mut pallet = Pallet::new();
    assert_eq!(
        pallet.sudo_register_oracle_node(Origin::Root, 6, account(2)),
        Ok(ProviderChange::Increase(account(2)))
    );
    let info = pallet.authorized_oracle_nodes.get(&account(2)).unwrap();
    assert_eq!(info.state, OracleNodeStakingState::Inactive);
    assert_eq!(info.stake_amount, 0);
    assert_eq!(info.stake_activated_at, 6);
    assert_eq!(
        pallet.sudo_deregister_oracle_node(Origin::Root, 8, account(2)),
        Ok(ProviderChange::Decrease(account(2)))
    );
    assert!(!pallet.authorized_oracle_nodes.contains_key(&account(2)));
    assert_eq!(
        pallet.events,
        vec![
            Event::AddedOracleNode { which: account(2), block: 6 },
            Event::RemovedOracleNode { which: account(2), block: 8 },
        ]
    );
}
