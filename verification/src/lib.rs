//! Price oracle logic: aggregation of prices, staking of oracle nodes and messages for Cardano.
pub mod aggregation;
pub mod bounded;
pub mod config;
pub mod encoding;
pub mod model;
pub mod oracle;
pub mod pallet;
pub mod price_providers;
pub mod primitives;
pub mod scale;
pub mod sorted_map;
pub mod staking_participation;
pub mod types;

pub use aggregation::{calculate_median, filter_outliers};
pub use encoding::{CardanoCbor, CborHashable};
pub use pallet::{
    AggregationState, Error, Event, GenesisConfig, NodeStakingInfo, OracleMessage,
    OracleNodeStakingState, Pallet, SlashVote, StakingMessage, WithdrawalMessage,
};
pub use price_providers::{GenericApiProvider, PriceProvider};
pub use types::{ChannelId, ConsensusConfiguration, MessagesConfiguration, TradePair};
