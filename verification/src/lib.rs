//! Resource accounting for the Iris packet-processing runtime.

pub mod filter;
pub mod lcore;
pub mod memory;
pub mod multicore;
pub mod ratio;
pub mod runtime;
pub mod sorted;
pub mod stats;
pub mod text;
pub mod thread_cost;
