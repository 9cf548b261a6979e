//! The RX cores and the meters that run beside them.

pub mod datapath_budget;
pub mod dram_meter;
pub mod meter;
pub mod pcie_meter;
pub mod rx_core;
pub mod topology;
pub mod transport_meter;

use vstd::prelude::*;

verus! {

/// A logical core.
#[derive(Debug, Clone, Copy, PartialEq, Eq, PartialOrd, Ord, Hash, Structural)]
pub struct CoreId(pub u32);

/// A NUMA socket.
#[derive(Debug, Clone, Copy, PartialEq, Eq, PartialOrd, Ord, Hash, Structural)]
pub struct SocketId(pub u32);

} // verus!
