//! Configuration of a node that fetches prices without a cache.
pub mod node;
