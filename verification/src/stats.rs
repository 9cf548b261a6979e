//! Process-wide datapath counters.

pub mod worker;

use vstd::prelude::*;

verus! {

/// Counters that every RX core adds to.
///
/// Additions wrap at 64 bits, so that a counter which has run for very long still gives correct
/// differences between two readings.
#[derive(Debug, Clone, Copy, PartialEq, Eq, Structural)]
pub struct DatapathCounters {
    /// Datapath busy cycles. Only non-empty bursts are counted, so idle poll-spin is excluded.
    pub busy_cycles: u64,
    /// Packets handed to the pipeline.
    pub busy_pkts: u64,
    /// Packets delivered from receive queues.
    pub receive_q_pkts: u64,
    /// Packets delivered from split queues.
    pub split_q_pkts: u64,
    /// The split-queue part of `busy_cycles`.
    pub split_cycles: u64,
    /// The split-queue part of `busy_pkts`.
    pub split_pkts: u64,
    /// Cycles inside a queue block whose burst returned nothing.
    pub idle_cycles: u64,
    /// Cycles outside the per-queue blocks: timer-wheel maintenance and loop overhead.
    pub gap_cycles: u64,
}

impl DatapathCounters {
    /// All counters at zero.
    pub open spec fn zero() -> DatapathCounters {
        DatapathCounters {
            busy_cycles: 0,
            busy_pkts: 0,
            receive_q_pkts: 0,
            split_q_pkts: 0,
            split_cycles: 0,
            split_pkts: 0,
            idle_cycles: 0,
            gap_cycles: 0,
        }
    }

    /// Busy cycles and packets.
    pub open spec fn busy(self) -> (u64, u64) {
        (self.busy_cycles, self.busy_pkts)
    }

    /// Busy cycles and packets of split queues.
    pub open spec fn busy_split(self) -> (u64, u64) {
        (self.split_cycles, self.split_pkts)
    }

    /// Idle cycles and gap cycles.
    pub open spec fn overhead(self) -> (u64, u64) {
        (self.idle_cycles, self.gap_cycles)
    }

    /// Packets delivered from receive queues and from split queues.
    pub open spec fn delivered(self) -> (u64, u64) {
        (self.receive_q_pkts, self.split_q_pkts)
    }

    /// The counters after `cycles` busy cycles and `pkts` packets more.
    pub open spec fn plus_busy(self, cycles: u64, pkts: u64) -> DatapathCounters {
        DatapathCounters {
            busy_cycles: self.busy_cycles.wrapping_add(cycles),
            busy_pkts: self.busy_pkts.wrapping_add(pkts),
            ..self
        }
    }

    /// The counters after `cycles` busy cycles and `pkts` packets more on split queues.
    pub open spec fn plus_split(self, cycles: u64, pkts: u64) -> DatapathCounters {
        DatapathCounters {
            split_cycles: self.split_cycles.wrapping_add(cycles),
            split_pkts: self.split_pkts.wrapping_add(pkts),
            ..self
        }
    }

    /// The counters after `idle` idle-poll cycles and `gap` out-of-block cycles more.
    pub open spec fn plus_overhead(self, idle: u64, gap: u64) -> DatapathCounters {
        DatapathCounters {
            idle_cycles: self.idle_cycles.wrapping_add(idle),
            gap_cycles: self.gap_cycles.wrapping_add(gap),
            ..self
        }
    }
}

impl Default for DatapathCounters {
    fn default() -> (counters: DatapathCounters)
        ensures
            counters == DatapathCounters::zero(),
    {
        DatapathCounters {
            busy_cycles: 0,
            busy_pkts: 0,
            receive_q_pkts: 0,
            split_q_pkts: 0,
            split_cycles: 0,
            split_pkts: 0,
            idle_cycles: 0,
            gap_cycles: 0,
        }
    }
}

/// Add a core's accumulated datapath busy cycles and count of packets handed to the pipeline.
pub fn add_datapath_busy(counters: &mut DatapathCounters, cycles: u64, pkts: u64)
    ensures
        *final(counters) == old(counters).plus_busy(cycles, pkts),
{
    counters.busy_cycles = counters.busy_cycles.wrapping_add(cycles);
    counters.busy_pkts = counters.busy_pkts.wrapping_add(pkts);
}

/// Total datapath busy cycles and packets handed to the pipeline across RX cores.
pub fn datapath_busy(counters: &DatapathCounters) -> (totals: (u64, u64))
    ensures
        totals == (counters.busy_cycles, counters.busy_pkts),
        totals == counters.busy(),
{
    (counters.busy_cycles, counters.busy_pkts)
}

/// Delivered packet totals as (receive queues, split queues).
pub fn queue_delivered(counters: &DatapathCounters) -> (totals: (u64, u64))
    ensures
        totals == (counters.receive_q_pkts, counters.split_q_pkts),
        totals == counters.delivered(),
{
    (counters.receive_q_pkts, counters.split_q_pkts)
}

/// Add a core's accumulated busy cycles and packets for split queues only.
pub fn add_datapath_busy_split(counters: &mut DatapathCounters, cycles: u64, pkts: u64)
    ensures
        *final(counters) == old(counters).plus_split(cycles, pkts),
{
    counters.split_cycles = counters.split_cycles.wrapping_add(cycles);
    counters.split_pkts = counters.split_pkts.wrapping_add(pkts);
}

/// Split-queue busy cycles and packets across RX cores.
pub fn datapath_busy_split(counters: &DatapathCounters) -> (totals: (u64, u64))
    ensures
        totals == (counters.split_cycles, counters.split_pkts),
        totals == counters.busy_split(),
{
    (counters.split_cycles, counters.split_pkts)
}

/// Add a core's idle-poll and out-of-block cycles.
pub fn add_datapath_overhead(counters: &mut DatapathCounters, idle: u64, gap: u64)
    ensures
        *final(counters) == old(counters).plus_overhead(idle, gap),
{
    counters.idle_cycles = counters.idle_cycles.wrapping_add(idle);
    counters.gap_cycles = counters.gap_cycles.wrapping_add(gap);
}

/// (idle cycles, gap cycles) across RX cores.
pub fn datapath_overhead(counters: &DatapathCounters) -> (totals: (u64, u64))
    ensures
        totals == (counters.idle_cycles, counters.gap_cycles),
        totals == counters.overhead(),
{
    (counters.idle_cycles, counters.gap_cycles)
}

/// A counter that can be bumped.
pub trait StatExt: Sized {
    /// The count so far.
    spec fn count(&self) -> u64;

    /// Add `val` to the count.
    fn inc_by(&mut self, val: u64)
        requires
            old(self).count() + val <= u64::MAX,
        ensures
            final(self).count() == old(self).count() + val,
    ;

    /// Add one to the count.
    fn inc(&mut self)
        requires
            old(self).count() < u64::MAX,
        ensures
            final(self).count() == old(self).count() + 1,
    {
        self.inc_by(1);
    }
}

/// One thread's own counter.
#[derive(Debug, Clone, Copy, PartialEq, Eq, Structural)]
pub struct Stat {
    pub value: u64,
}

impl StatExt for Stat {
    open spec fn count(&self) -> u64 {
        self.value
    }

    fn inc_by(&mut self, val: u64) {
        self.value = self.value + val;
    }
}

/// The order in which cores add does not matter, within a group of counters or across groups.
pub proof fn law_additions_commute(c: DatapathCounters, a: u64, b: u64, x: u64, y: u64)
    ensures
        c.plus_busy(a, b).plus_busy(x, y) == c.plus_busy(x, y).plus_busy(a, b),
        c.plus_split(a, b).plus_split(x, y) == c.plus_split(x, y).plus_split(a, b),
        c.plus_overhead(a, b).plus_overhead(x, y) == c.plus_overhead(x, y).plus_overhead(a, b),
        c.plus_busy(a, b).plus_split(x, y) == c.plus_split(x, y).plus_busy(a, b),
        c.plus_busy(a, b).plus_overhead(x, y) == c.plus_overhead(x, y).plus_busy(a, b),
        c.plus_split(a, b).plus_overhead(x, y) == c.plus_overhead(x, y).plus_split(a, b),
{
}

/// What is added shows up in the reading it was added to, in 64 bits, and in no other reading.
pub proof fn law_readings_rise_by_what_is_added(c: DatapathCounters, a: u64, b: u64)
    ensures
        ({
            let after = c.plus_busy(a, b);
            &&& after.busy().0 == (c.busy().0 + a) % 0x1_0000_0000_0000_0000
            &&& after.busy().1 == (c.busy().1 + b) % 0x1_0000_0000_0000_0000
            &&& after.busy_split() == c.busy_split() && after.overhead() == c.overhead()
            &&& after.delivered() == c.delivered()
        }),
        ({
            let after = c.plus_split(a, b);
            &&& after.busy_split().0 == (c.busy_split().0 + a) % 0x1_0000_0000_0000_0000
            &&& after.busy_split().1 == (c.busy_split().1 + b) % 0x1_0000_0000_0000_0000
            &&& after.busy() == c.busy() && after.overhead() == c.overhead()
            &&& after.delivered() == c.delivered()
        }),
        ({
            let after = c.plus_overhead(a, b);
            &&& after.overhead().0 == (c.overhead().0 + a) % 0x1_0000_0000_0000_0000
            &&& after.overhead().1 == (c.overhead().1 + b) % 0x1_0000_0000_0000_0000
            &&& after.busy() == c.busy() && after.busy_split() == c.busy_split()
            &&& after.delivered() == c.delivered()
        }),
        DatapathCounters::zero().busy() == (0u64, 0u64),
        DatapathCounters::zero().busy_split() == (0u64, 0u64),
        DatapathCounters::zero().overhead() == (0u64, 0u64),
        DatapathCounters::zero().delivered() == (0u64, 0u64),
{
}

/// Each reading is that of its own counters.
pub proof fn law_each_reading_has_its_own_counters(c: DatapathCounters)
    ensures
        c.busy().0 == c.busy_cycles && c.busy().1 == c.busy_pkts,
        c.busy_split().0 == c.split_cycles && c.busy_split().1 == c.split_pkts,
        c.overhead().0 == c.idle_cycles && c.overhead().1 == c.gap_cycles,
        c.delivered().0 == c.receive_q_pkts && c.delivered().1 == c.split_q_pkts,
{
}

} // verus!
