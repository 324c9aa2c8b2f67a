//! Configuration types.
pub mod config;

pub use crate::types::config::node::{
    ChannelId, ConsensusConfiguration, MessagesConfiguration, RewardConfiguration, TradePair,
};
