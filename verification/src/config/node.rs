//! The price sources and timeouts of a node.
use crate::sorted_map::SortedMap;
use vstd::prelude::*;

pub use crate::types::config::node::{
    default_http_request_timeout_millis, default_http_response_wait_millis, default_sources,
    DataSource, DataSourceModel, JsonPathElement, PairModel, TradePair,
};

verus! {

#[derive(Debug, PartialEq, Eq)]
pub struct NodeConfig {
    pub sources: SortedMap<TradePair, Vec<DataSource>>,
    pub http_request_timeout_millis: u64,
    pub http_response_wait_millis: u64,
}

impl Default for NodeConfig {
    fn default() -> (config: NodeConfig)
        ensures
            config.sources@ == Map::<PairModel, Seq<DataSourceModel>>::empty(),
            config.http_request_timeout_millis == 0,
            config.http_response_wait_millis == 0,
    {
        NodeConfig {
            sources: SortedMap::new(),
            http_request_timeout_millis: 0,
            http_response_wait_millis: 0,
        }
    }
}

} // verus!
