//! Where prices come from.
pub mod generic;
pub mod json;
pub mod laws;

pub use crate::price_providers::generic::GenericApiProvider;

use crate::types::TradePair;
use vstd::prelude::*;

verus! {

/// A source of prices for trade pairs.
pub trait PriceProvider {
    fn fetch_prices(trade_pairs: Vec<TradePair>) -> Vec<(TradePair, u64)>;
}

} // verus!
