//! Statistics over price lists.
pub mod laws;
pub mod median;
pub mod rational;
pub mod statistics;

pub use crate::aggregation::median::calculate_median;
pub use crate::aggregation::statistics::{filter_outliers, SCALING_FACTOR};
