//! The oracle pallet for nodes without stakes.
pub mod laws;
pub mod pallet;
