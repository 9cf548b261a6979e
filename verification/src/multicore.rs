//! Worker pools.

pub mod subscription_stats;
pub mod worker_budget;
