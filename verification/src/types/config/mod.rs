//! Configuration of a node and of the consensus.
pub mod node;

pub use crate::types::config::node::{
    DataSource, JsonPathElement, PriceProviderConfig, DEFAULT_PRICE_CACHE_TTL_MS,
};
