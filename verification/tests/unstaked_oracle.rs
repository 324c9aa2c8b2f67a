use charli3_oracle_core::bounded::BoundedVec;
use charli3_oracle_core::model::Model;
use charli3_oracle_core::oracle::pallet::{Error, Event, GenesisConfig, OracleMessage, Pallet};
use charli3_oracle_core::primitives::{DispatchError, Origin, Signature};
use charli3_oracle_core::types::ConsensusConfiguration;
use charli3_oracle_core::TradePair;

fn account(byte: u8) -> [u8; 32] {
    [byte; 32]
}

fn pair(ticker: &str) -> TradePair {
    TradePair::from_ticker(ticker).unwrap()
}

fn with_node(node: u8) -> Pallet {
    let mut pallet = Pallet::new();
    let mut genesis = GenesisConfig::default();
    genesis.authorized_nodes = BoundedVec::truncate_from(vec![account(node)]);
    genesis.build(&mut pallet);
    pallet
}

#[test]
fn unstaked_genesis_authorizes_nodes() {
    let pallet = with_node(1);
    assert!(pallet.authorized_oracle_nodes.contains_key(&account(1)));
    assert_eq!(pallet.feed_age, Some(0));
    assert_eq!(pallet.trade_pairs, Some(BoundedVec::truncate_from(vec![pair("ADA-USD")])));
}

#[test]
fn unstaked_nodes_store_prices() {
    let mut pallet = with_node(1);
    let origin = Origin::Signed(account(1));
    assert_eq!(pallet.store_prices(origin, 4, vec![(pair("A-B"), 5)]), Ok(()));
    assert_eq!(pallet.nodes_prices.get(&(pair("A-B"), account(1))), Some((5, 4)));
    assert_eq!(
        pallet.events,
        vec![Event::StoredPrices { count: 1, who: account(1), when: 4 }]
    );
    assert_eq!(
        pallet.store_prices(Origin::Signed(account(2)), 4, vec![]),
        Err(DispatchError::Module(Error::UnauthorizedNode))
    );
    assert_eq!(pallet.store_prices(Origin::Root, 4, vec![]), Err(DispatchError::BadOrigin));
    let many: Vec<(TradePair, u64)> = (0..65536u64).map(|price| (pair("A-B"), price)).collect();
    assert_eq!(pallet.store_prices(origin, 4, many), Err(DispatchError::CountOverflow));
    assert_eq!(pallet.events.len(), 1);
}

#[test]
fn unstaked_nodes_store_signatures() {
    let mut pallet = with_node(1);
    let message = OracleMessage {
        channel_id: BoundedVec::truncate_from(vec![9]),
        prices_and_age: BoundedVec::new(),
        timestamp: 1000,
        rewards: BoundedVec::new(),
    };
    let mut encoded = vec![1u8];
    encoded.extend(vec![7u8; 64]);
    let signatures = vec![(message, Signature { encoded })];
    let event = signatures.duplicate();
    let refused = pallet.store_signatures(Origin::Signed(account(2)), 3, signatures.duplicate());
    assert_eq!(refused, Err(DispatchError::Module(Error::UnauthorizedNode)));
    assert_eq!(pallet.store_signatures(Origin::Signed(account(1)), 3, signatures), Ok(()));
    let key = ((BoundedVec::truncate_from(vec![9]), 1000), account(1));
    assert_eq!(pallet.signature_storage.get(&key), Some([7; 64]));
    assert_eq!(
        pallet.events,
        vec![Event::StoredSignatures { who: account(1), when: 3, signatures: event }]
    );
}

#[test]
fn unstaked_configuration_is_set_by_the_root() {
    let mut pallet = Pallet::new();
    let consensus = || ConsensusConfiguration {
        min_nodes_for_trusted_aggregation: 3,
        feed_age: 10,
        outliers_range: 150,
        divergency: 20,
        trade_pairs: BoundedVec::new(),
    };
    assert_eq!(
        pallet.sudo_set_config(Origin::Signed(account(1)), 6, consensus(), BoundedVec::new()),
        Err(DispatchError::BadOrigin)
    );
    assert_eq!(
        pallet.sudo_set_config(Origin::Root, 6, consensus(), BoundedVec::new()),
        Ok(())
    );
    assert_eq!(pallet.outliers_range, Some(150));
    assert_eq!(pallet.trade_pairs, Some(BoundedVec::new()));
    assert_eq!(
        pallet.events,
        vec![Event::UpdatedConfig {
            consensus_config: consensus(),
            channels_to_trade_pairs: BoundedVec::new(),
            block: 6,
        }]
    );
}
