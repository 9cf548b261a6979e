//! Statistics tracking for subscription processing.

use crate::text;
use vstd::prelude::*;

verus! {

/// Statistics for the various stages of subscription processing. Additions and subtractions wrap at
/// 64 bits.
#[derive(Debug, Clone, Copy, PartialEq, Eq, Structural)]
pub struct SubscriptionStats {
    /// Number of messages dispatched to processing queues.
    pub dispatched: u64,
    /// Number of messages dropped due to queue overflow or errors.
    pub dropped: u64,
    /// Number of messages that have completed processing.
    pub processed: u64,
    /// Number of messages currently being processed.
    pub actively_processing: u64,
    /// Number of messages saved to disk (not processed).
    pub flushed: u64,
}

/// Outstanding work registered by [`SubscriptionStats::begin_processing`].
#[must_use]
#[derive(Debug, PartialEq, Eq, Structural)]
pub struct InFlight {
    pub count: u64,
}

impl SubscriptionStats {
    /// Nothing counted.
    pub open spec fn zero() -> SubscriptionStats {
        SubscriptionStats {
            dispatched: 0,
            dropped: 0,
            processed: 0,
            actively_processing: 0,
            flushed: 0,
        }
    }

    /// The statistics once `count` messages are being processed.
    pub open spec fn begun(self, count: u64) -> SubscriptionStats {
        SubscriptionStats {
            actively_processing: self.actively_processing.wrapping_add(count),
            ..self
        }
    }

    /// The statistics once `count` messages are no longer being processed.
    pub open spec fn released(self, count: u64) -> SubscriptionStats {
        SubscriptionStats {
            actively_processing: self.actively_processing.wrapping_sub(count),
            ..self
        }
    }

    /// What the statistics print as.
    pub open spec fn text(self) -> Seq<char> {
        "Processed: "@ + text::decimal(self.processed as nat) + "\nDropped: "@ + text::decimal(
            self.dropped as nat,
        ) + "\nFlushed (to disk): "@ + text::decimal(self.flushed as nat)
    }

    /// Creates a new instance with all counters initialized to zero.
    pub fn new() -> (stats: SubscriptionStats)
        ensures
            stats == SubscriptionStats::zero(),
    {
        SubscriptionStats {
            dispatched: 0,
            dropped: 0,
            processed: 0,
            actively_processing: 0,
            flushed: 0,
        }
    }

    /// A new instance with identical counters.
    pub fn snapshot(&self) -> (copy: SubscriptionStats)
        ensures
            copy == *self,
    {
        SubscriptionStats {
            dispatched: self.get_dispatched(),
            dropped: self.get_dropped(),
            processed: self.get_processed(),
            actively_processing: self.get_actively_processing(),
            flushed: self.get_flushed(),
        }
    }

    /// The current number of dispatched messages.
    pub fn get_dispatched(&self) -> (n: u64)
        ensures
            n == self.dispatched,
    {
        self.dispatched
    }

    /// The current number of dropped messages.
    pub fn get_dropped(&self) -> (n: u64)
        ensures
            n == self.dropped,
    {
        self.dropped
    }

    /// The current number of processed messages.
    pub fn get_processed(&self) -> (n: u64)
        ensures
            n == self.processed,
    {
        self.processed
    }

    /// The current number of messages actively being processed.
    pub fn get_actively_processing(&self) -> (n: u64)
        ensures
            n == self.actively_processing,
    {
        self.actively_processing
    }

    /// The current number of messages flushed to disk.
    pub fn get_flushed(&self) -> (n: u64)
        ensures
            n == self.flushed,
    {
        self.flushed
    }

    /// Mark `count` messages as being processed until the returned guard is released.
    pub fn begin_processing(&mut self, count: u64) -> (guard: InFlight)
        ensures
            *final(self) == old(self).begun(count),
            guard == (InFlight { count }),
    {
        self.actively_processing = self.actively_processing.wrapping_add(count);
        InFlight { count }
    }

    /// Release a guard: its messages are no longer being processed. A guard can be released once.
    pub fn release(&mut self, guard: InFlight)
        ensures
            *final(self) == old(self).released(guard.count),
    {
        self.actively_processing = self.actively_processing.wrapping_sub(guard.count);
    }

    /// What the statistics print as.
    pub fn to_text(&self) -> (s: String)
        ensures
            s@ == self.text(),
    {
        let mut chars = text::chars_of("Processed: ");
        text::append(&mut chars, &text::decimal_of(self.get_processed()));
        text::append(&mut chars, &text::chars_of("\nDropped: "));
        text::append(&mut chars, &text::decimal_of(self.get_dropped()));
        text::append(&mut chars, &text::chars_of("\nFlushed (to disk): "));
        text::append(&mut chars, &text::decimal_of(self.get_flushed()));
        text::string_of(&chars)
    }
}

impl Default for SubscriptionStats {
    fn default() -> (stats: SubscriptionStats)
        ensures
            stats == SubscriptionStats::zero(),
    {
        SubscriptionStats::new()
    }
}

/// Releasing a guard undoes its registration, whatever began or ended meanwhile, so the count comes
/// back to zero once every guard has been released.
pub proof fn law_release_undoes_begin(stats: SubscriptionStats, a: u64, b: u64)
    ensures
        stats.begun(a).released(a) == stats,
        stats.begun(a).begun(b).released(a) == stats.begun(b),
        stats.begun(a).begun(b).released(b) == stats.begun(a),
        stats.begun(a).begun(b).released(a).released(b) == stats,
{
}

/// Sum of the counts of outstanding guards.
pub open spec fn outstanding(counts: Seq<u64>) -> nat
    decreases counts.len(),
{
    if counts.len() == 0 {
        0
    } else {
        outstanding(counts.drop_last()) + counts.last() as nat
    }
}

/// The statistics once each count has been registered in turn.
pub open spec fn begun_all(stats: SubscriptionStats, counts: Seq<u64>) -> SubscriptionStats
    decreases counts.len(),
{
    if counts.len() == 0 {
        stats
    } else {
        begun_all(stats, counts.drop_last()).begun(counts.last())
    }
}

/// What is being processed is the sum of the outstanding guards, and nothing else moves.
pub proof fn law_active_is_what_is_outstanding(counts: Seq<u64>)
    requires
        outstanding(counts) <= u64::MAX,
    ensures
        begun_all(SubscriptionStats::zero(), counts) == (SubscriptionStats {
            actively_processing: outstanding(counts) as u64,
            ..SubscriptionStats::zero()
        }),
    decreases counts.len(),
{
    if counts.len() > 0 {
        law_active_is_what_is_outstanding(counts.drop_last());
    }
}

/// Beginning adds to what is being processed, releasing takes off it, both in 64 bits, and no other
/// count moves.
pub proof fn law_only_what_is_processed_moves(stats: SubscriptionStats, count: u64)
    ensures
        stats.begun(count).actively_processing == (stats.actively_processing + count)
            % 0x1_0000_0000_0000_0000,
        stats.released(count).actively_processing == (stats.actively_processing - count)
            % 0x1_0000_0000_0000_0000,
        stats.begun(count) == (SubscriptionStats {
            actively_processing: stats.begun(count).actively_processing,
            ..stats
        }),
        stats.released(count) == (SubscriptionStats {
            actively_processing: stats.released(count).actively_processing,
            ..stats
        }),
{
}

} // verus!
