//! Client-side model for cluster writes against a sharded time-series store:
//! per-target write outcomes, a closed failure taxonomy, and the aggregation
//! of many per-target results into one combined verdict.

pub mod errors;
pub mod write;
