//! Per-connection drop rules on the NIC.

pub mod nic_latency;
pub mod split_queues;
