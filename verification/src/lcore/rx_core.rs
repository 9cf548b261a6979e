//! What an RX core decides and counts while it polls.
//!
//! The poll loop itself reads the clock, the NIC queues and the connection table. This module is
//! the rest of it: which iterations are sampled, what each clock reading closes, when a budget is
//! published, which packets are dropped, and every counter that moves on the way.
//!
//! Within a sampled iteration, timestamps are chained: each reading closes one bucket and opens
//! the next. Every span absorbs the latency of the reading that closes it, so the calibrated cost
//! of a reading is taken off each span, as far as the span goes, and exactly the same total off the
//! iteration: the buckets sum to the sampled wall time whatever the readings are.

use crate::lcore::datapath_budget;
use crate::lcore::datapath_budget::{publish_datapath_delta, BudgetTotals, DatapathBudget};
use crate::lcore::CoreId;
use crate::stats::{DatapathCounters, Stat, StatExt};
use vstd::prelude::*;

verus! {

/// Sampled iterations between two publications.
pub const PUBLISH_EVERY: u64 = 1024;

/// Polls between two refreshes of the coarse clock.
pub const REFRESH_EVERY: u64 = 1024;

/// Where within those polls the clock is refreshed.
pub const REFRESH_AT: u64 = 512;

/// One RX core's cycle budget while its loop runs.
#[derive(Debug, Clone, Copy, PartialEq, Eq, Structural)]
pub struct LoopBudget {
    /// The core's cumulative budget.
    pub budget: DatapathBudget,
    /// What was last published.
    pub published: DatapathBudget,
    /// Clock reading at loop entry.
    pub loop_start: u64,
    /// Clock readings taken.
    pub rdtsc_reads: u64,
    /// Iterations until the next sampled one, that one included.
    pub countdown: u64,
    /// A sampled iteration is open.
    pub open: bool,
    /// Reading that opened the current span.
    pub cursor: u64,
    /// Cycles attributed within the open iteration, to be added to the sampled wall time when it
    /// closes.
    pub iter_net: u64,
}

/// The countdown after one more iteration.
pub open spec fn next_countdown(stride: nat, countdown: nat) -> nat {
    if countdown == 1 {
        stride
    } else {
        (countdown - 1) as nat
    }
}

/// The countdown before iteration `n`, counting from zero.
pub open spec fn countdown_before(stride: nat, n: nat) -> nat
    decreases n,
{
    if n == 0 {
        1
    } else {
        next_countdown(stride, countdown_before(stride, (n - 1) as nat))
    }
}

impl LoopBudget {
    /// The countdown is within the stride, nothing is open without attribution, the buckets
    /// balance, and what was published can be subtracted from.
    pub open spec fn wf(self) -> bool {
        &&& self.balanced()
        &&& self.budget.sample_stride > 0 ==> 1 <= self.countdown <= self.budget.sample_stride
        &&& self.budget.sample_stride == 0 ==> !self.open
        &&& self.published.work() <= u64::MAX
    }

    /// The four buckets sum to the sampled wall time, what the open iteration has attributed so far
    /// included.
    pub open spec fn balanced(self) -> bool {
        self.budget.accounted() == self.budget.sampled_wall + if self.open {
            self.iter_net as int
        } else {
            0
        }
    }

    /// The next iteration is to be sampled.
    pub open spec fn due(self) -> bool {
        self.budget.sample_stride > 0 && self.countdown == 1
    }

    /// Cycles since the open span began, clock wrap-around included.
    pub open spec fn span(self, now: u64) -> u64 {
        now.wrapping_sub(self.cursor)
    }

    /// The open span without the latency of the reading that closes it.
    pub open spec fn net_span(self, now: u64) -> u64 {
        self.span(now).saturating_sub(self.budget.rdtsc_cost)
    }

    /// A span can be closed into a bucket that holds `bucket` without any counter running over.
    pub open spec fn span_fits(self, bucket: u64, now: u64) -> bool {
        &&& self.rdtsc_reads < u64::MAX
        &&& self.iter_net + self.net_span(now) <= u64::MAX
        &&& bucket + self.net_span(now) <= u64::MAX
    }

    /// A poll can be recorded without any counter running over.
    pub open spec fn poll_fits(self, n_recv: u64, now: Option<u64>) -> bool {
        &&& now matches Some(t) ==> self.span_fits(
            if n_recv == 0 {
                self.budget.poll_idle
            } else {
                self.budget.poll_busy
            },
            t,
        )
        &&& n_recv == 0 ==> self.budget.idle_polls < u64::MAX
        &&& n_recv > 0 ==> self.budget.bursts < u64::MAX
    }

    /// An iteration can be closed without any counter running over.
    pub open spec fn maint_fits(self, now: u64) -> bool {
        &&& self.span_fits(self.budget.maint, now)
        &&& self.budget.sampled_wall + self.iter_net + self.net_span(now) <= u64::MAX
        &&& self.budget.sampled_iters < u64::MAX
    }

    /// A new loop: the first iteration is the first sampled one. A stride of zero disables
    /// attribution, and a reading cost of zero follows from it: nothing is taken off.
    pub open spec fn started(stride: u64, rdtsc_cost: u64, loop_start: u64) -> LoopBudget {
        LoopBudget {
            budget: DatapathBudget {
                sample_stride: stride,
                rdtsc_cost: if stride == 0 {
                    0
                } else {
                    rdtsc_cost
                },
                ..DatapathBudget::zero()
            },
            published: DatapathBudget::zero(),
            loop_start,
            rdtsc_reads: 1,
            countdown: 1,
            open: false,
            cursor: 0,
            iter_net: 0,
        }
    }

    /// The state once an iteration has begun.
    pub open spec fn after_begin(self) -> LoopBudget {
        if self.budget.sample_stride == 0 {
            self
        } else {
            LoopBudget {
                countdown: next_countdown(
                    self.budget.sample_stride as nat,
                    self.countdown as nat,
                ) as u64,
                ..self
            }
        }
    }

    /// The state once the reading `now` has opened a sampled iteration.
    pub open spec fn after_open(self, now: u64) -> LoopBudget {
        LoopBudget {
            rdtsc_reads: (self.rdtsc_reads + 1) as u64,
            open: true,
            cursor: now,
            iter_net: 0,
            ..self
        }
    }

    /// The state once the reading `now` has closed a span.
    pub open spec fn closed_span(self, now: u64) -> LoopBudget {
        LoopBudget {
            rdtsc_reads: (self.rdtsc_reads + 1) as u64,
            iter_net: (self.iter_net + self.net_span(now)) as u64,
            cursor: now,
            ..self
        }
    }

    /// The state after a poll that returned `n_recv` packets. The poll's span goes to `poll_idle`
    /// if the burst was empty and to `poll_busy` otherwise.
    pub open spec fn after_poll(self, n_recv: u64, now: Option<u64>) -> LoopBudget {
        let closed = match now {
            Some(t) => self.closed_span(t),
            None => self,
        };
        let net = match now {
            Some(t) => self.net_span(t),
            None => 0,
        };
        LoopBudget {
            budget: if n_recv == 0 {
                DatapathBudget {
                    poll_idle: (self.budget.poll_idle + net) as u64,
                    idle_polls: (self.budget.idle_polls + 1) as u64,
                    ..self.budget
                }
            } else {
                DatapathBudget {
                    poll_busy: (self.budget.poll_busy + net) as u64,
                    bursts: (self.budget.bursts + 1) as u64,
                    ..self.budget
                }
            },
            ..closed
        }
    }

    /// The state once a burst has been processed, `handed` of its packets having been handed to the
    /// pipeline.
    pub open spec fn after_burst(self, handed: u64) -> LoopBudget {
        LoopBudget {
            budget: DatapathBudget {
                recv_pkts: (self.budget.recv_pkts + handed) as u64,
                ..self.budget
            },
            ..self
        }
    }

    /// The state after the pipeline has run on a sampled, non-empty burst.
    pub open spec fn after_pipeline(self, now: u64) -> LoopBudget {
        LoopBudget {
            budget: DatapathBudget {
                pipeline: (self.budget.pipeline + self.net_span(now)) as u64,
                ..self.budget
            },
            ..self.closed_span(now)
        }
    }

    /// A publication falls due once the iteration closes.
    pub open spec fn publication_due(self) -> bool {
        (self.budget.sampled_iters + 1) % PUBLISH_EVERY as int == 0
    }

    /// The state after maintenance has closed a sampled iteration.
    pub open spec fn after_maint(self, now: u64) -> LoopBudget {
        let closed = self.closed_span(now);
        let budget = DatapathBudget {
            maint: (self.budget.maint + self.net_span(now)) as u64,
            sampled_wall: (self.budget.sampled_wall + closed.iter_net) as u64,
            sampled_iters: (self.budget.sampled_iters + 1) as u64,
            ..self.budget
        };
        LoopBudget {
            budget: if self.publication_due() {
                DatapathBudget {
                    wall: now.wrapping_sub(self.loop_start),
                    rdtsc_reads: closed.rdtsc_reads,
                    ..budget
                }
            } else {
                budget
            },
            open: false,
            ..closed
        }
    }

    /// The state at loop exit, ready for the last publication.
    pub open spec fn after_loop(self, now: u64) -> LoopBudget {
        LoopBudget {
            budget: DatapathBudget {
                wall: now.wrapping_sub(self.loop_start),
                rdtsc_reads: (self.rdtsc_reads + 1) as u64,
                ..self.budget
            },
            ..self
        }
    }

    /// Enter the poll loop at clock reading `loop_start`.
    pub fn start(stride: u64, rdtsc_cost: u64, loop_start: u64) -> (s: LoopBudget)
        ensures
            s == LoopBudget::started(stride, rdtsc_cost, loop_start),
            s.wf(),
    {
        let mut budget = DatapathBudget::default();
        budget.sample_stride = stride;
        budget.rdtsc_cost = if stride == 0 {
            0
        } else {
            rdtsc_cost
        };
        LoopBudget {
            budget,
            published: DatapathBudget::default(),
            loop_start,
            rdtsc_reads: 1,
            countdown: 1,
            open: false,
            cursor: 0,
            iter_net: 0,
        }
    }

    /// Begin an iteration and decide whether it is sampled. The decision is taken once, so every
    /// bucket within the iteration is either attributed or not.
    pub fn begin_iteration(&mut self) -> (sampled: bool)
        requires
            old(self).wf(),
        ensures
            sampled == old(self).due(),
            *final(self) == old(self).after_begin(),
            final(self).wf(),
    {
        if self.budget.sample_stride == 0 {
            return false;
        }
        let left: u64 = self.countdown - 1;
        if left == 0 {
            self.countdown = self.budget.sample_stride;
            true
        } else {
            self.countdown = left;
            false
        }
    }

    /// Open a sampled iteration at clock reading `now`.
    pub fn open_sample(&mut self, now: u64)
        requires
            old(self).wf(),
            old(self).budget.sample_stride > 0,
            !old(self).open,
            old(self).rdtsc_reads < u64::MAX,
        ensures
            *final(self) == old(self).after_open(now),
            final(self).wf(),
    {
        self.rdtsc_reads = self.rdtsc_reads + 1;
        self.open = true;
        self.cursor = now;
        self.iter_net = 0;
    }

    /// Whether a poll can be recorded without any counter running over.
    pub fn can_record_poll(&self, n_recv: u64, now: Option<u64>) -> (fits: bool)
        ensures
            fits == self.poll_fits(n_recv, now),
    {
        let bucket: u64 = if n_recv == 0 {
            self.budget.poll_idle
        } else {
            self.budget.poll_busy
        };
        let span_ok = match now {
            Some(t) => self.can_close_span(bucket, t),
            None => true,
        };
        if n_recv == 0 {
            span_ok && self.budget.idle_polls < u64::MAX
        } else {
            span_ok && self.budget.bursts < u64::MAX
        }
    }

    /// Whether a span can be closed into a bucket without any counter running over.
    pub fn can_close_span(&self, bucket: u64, now: u64) -> (fits: bool)
        ensures
            fits == self.span_fits(bucket, now),
    {
        let net: u64 = now.wrapping_sub(self.cursor).saturating_sub(self.budget.rdtsc_cost);
        self.rdtsc_reads < u64::MAX && self.iter_net <= u64::MAX - net && bucket <= u64::MAX - net
    }

    /// Whether an iteration can be closed without any counter running over.
    pub fn can_close_iteration(&self, now: u64) -> (fits: bool)
        ensures
            fits == self.maint_fits(now),
    {
        if !self.can_close_span(self.budget.maint, now) {
            return false;
        }
        let net: u64 = now.wrapping_sub(self.cursor).saturating_sub(self.budget.rdtsc_cost);
        self.budget.sampled_wall <= u64::MAX - (self.iter_net + net) && self.budget.sampled_iters
            < u64::MAX
    }

    /// Record a poll that returned `n_recv` packets, closing the poll span at `now` if the
    /// iteration is sampled.
    pub fn end_poll(&mut self, n_recv: u64, now: Option<u64>)
        requires
            old(self).wf(),
            now is Some == old(self).open,
            old(self).poll_fits(n_recv, now),
        ensures
            *final(self) == old(self).after_poll(n_recv, now),
            final(self).wf(),
    {
        if let Some(t) = now {
            let net: u64 = t.wrapping_sub(self.cursor).saturating_sub(self.budget.rdtsc_cost);
            self.rdtsc_reads = self.rdtsc_reads + 1;
            self.iter_net = self.iter_net + net;
            self.cursor = t;
            if n_recv == 0 {
                self.budget.poll_idle = self.budget.poll_idle + net;
            } else {
                self.budget.poll_busy = self.budget.poll_busy + net;
            }
        }
        if n_recv == 0 {
            self.budget.idle_polls = self.budget.idle_polls + 1;
        } else {
            self.budget.bursts = self.budget.bursts + 1;
        }
    }

    /// Count the packets of a burst that were handed to the pipeline, once the burst has been
    /// processed.
    pub fn end_burst(&mut self, handed: u64)
        requires
            old(self).wf(),
            old(self).budget.recv_pkts + handed <= u64::MAX,
        ensures
            *final(self) == old(self).after_burst(handed),
            final(self).wf(),
    {
        self.budget.recv_pkts = self.budget.recv_pkts + handed;
    }

    /// Close the pipeline span at `now`. Only for a sampled, non-empty burst: after an empty one
    /// there was no pipeline, and the loop bookkeeping smears into the next poll span.
    pub fn end_pipeline(&mut self, now: u64)
        requires
            old(self).wf(),
            old(self).open,
            old(self).span_fits(old(self).budget.pipeline, now),
        ensures
            *final(self) == old(self).after_pipeline(now),
            final(self).wf(),
    {
        let net: u64 = now.wrapping_sub(self.cursor).saturating_sub(self.budget.rdtsc_cost);
        self.rdtsc_reads = self.rdtsc_reads + 1;
        self.iter_net = self.iter_net + net;
        self.budget.pipeline = self.budget.pipeline + net;
        self.cursor = now;
    }

    /// Close the maintenance span and the iteration at `now`. Returns whether a publication is
    /// due; its cadence counts sampled iterations, not loop iterations, so that it fires whatever
    /// the stride is.
    pub fn end_maint(&mut self, now: u64) -> (publish: bool)
        requires
            old(self).wf(),
            old(self).open,
            old(self).maint_fits(now),
        ensures
            publish == old(self).publication_due(),
            publish <==> final(self).budget.sampled_iters % 1024 == 0,
            *final(self) == old(self).after_maint(now),
            final(self).wf(),
    {
        let net: u64 = now.wrapping_sub(self.cursor).saturating_sub(self.budget.rdtsc_cost);
        self.rdtsc_reads = self.rdtsc_reads + 1;
        self.iter_net = self.iter_net + net;
        self.budget.maint = self.budget.maint + net;
        self.budget.sampled_wall = self.budget.sampled_wall + self.iter_net;
        self.budget.sampled_iters = self.budget.sampled_iters + 1;
        self.cursor = now;
        self.open = false;
        if self.budget.sampled_iters % PUBLISH_EVERY == 0 {
            self.budget.wall = now.wrapping_sub(self.loop_start);
            self.budget.rdtsc_reads = self.rdtsc_reads;
            true
        } else {
            false
        }
    }

    /// Push what has not been published yet to the shared totals.
    pub fn publish(&mut self, totals: &mut BudgetTotals, counters: &mut DatapathCounters)
        requires
            old(self).wf(),
            !old(self).open,
        ensures
            final(self).published.accounted() == final(self).published.sampled_wall,
            *final(totals) == old(totals).after_publish(old(self).budget, old(self).published),
            *final(counters) == datapath_budget::counters_after_publish(
                *old(counters),
                old(self).budget,
                old(self).published,
            ),
            *final(self) == (LoopBudget { published: old(self).budget, ..*old(self) }),
            final(self).wf(),
    {
        let running = self.budget;
        let mut published = self.published;
        publish_datapath_delta(totals, counters, &running, &mut published);
        self.published = published;
    }

    /// Leave the loop at clock reading `now`, flushing the not-yet-published remainder.
    pub fn finish(
        &mut self,
        now: u64,
        totals: &mut BudgetTotals,
        counters: &mut DatapathCounters,
    )
        requires
            old(self).wf(),
            !old(self).open,
            old(self).rdtsc_reads < u64::MAX,
        ensures
            final(self).published.accounted() == final(self).published.sampled_wall,
            *final(totals) == old(totals).after_publish(
                old(self).after_loop(now).budget,
                old(self).published,
            ),
            *final(counters) == datapath_budget::counters_after_publish(
                *old(counters),
                old(self).after_loop(now).budget,
                old(self).published,
            ),
            *final(self) == (LoopBudget {
                published: old(self).after_loop(now).budget,
                ..old(self).after_loop(now)
            }),
    {
        self.budget.wall = now.wrapping_sub(self.loop_start);
        self.budget.rdtsc_reads = self.rdtsc_reads + 1;
        self.publish(totals, counters);
    }
}

/// What the software flow table says of a packet.
#[derive(Debug, Clone, Copy, PartialEq, Eq, Structural)]
pub enum FlowAction {
    /// Drop the packet.
    Drop,
    /// Steer the packet to a queue. There is no software steering: the packet goes on.
    Queue(u16),
}

/// The flow table lets a packet go on of which it says `action`.
pub open spec fn lets_through(action: Option<FlowAction>) -> bool {
    match action {
        Some(FlowAction::Drop) => false,
        Some(FlowAction::Queue(_)) | None => true,
    }
}

/// The packet counters of one RX core.
#[derive(Debug, Clone, Copy, PartialEq, Eq, Structural)]
pub struct RxTally {
    /// Polls made.
    pub total_cycles: Stat,
    /// Polls that returned nothing.
    pub idle_cycles: Stat,
    /// Packets that the flow table let through.
    pub total_pkt: Stat,
    /// Bytes that the flow table let through.
    pub total_byte: Stat,
    /// Packets that the packet filter turned away.
    pub ignored_pkt: Stat,
    /// Bytes that the packet filter turned away.
    pub ignored_byte: Stat,
}

impl RxTally {
    /// Nothing counted yet.
    pub open spec fn zero() -> RxTally {
        RxTally {
            total_cycles: Stat { value: 0 },
            idle_cycles: Stat { value: 0 },
            total_pkt: Stat { value: 0 },
            total_byte: Stat { value: 0 },
            ignored_pkt: Stat { value: 0 },
            ignored_byte: Stat { value: 0 },
        }
    }

    /// The counters after a packet of `len` bytes that the flow table decided on.
    pub open spec fn after_lookup(self, action: Option<FlowAction>, len: u64) -> RxTally {
        if action == Some(FlowAction::Drop) {
            self
        } else {
            RxTally {
                total_pkt: Stat { value: (self.total_pkt.value + 1) as u64 },
                total_byte: Stat { value: (self.total_byte.value + len) as u64 },
                ..self
            }
        }
    }

    /// The counters after a packet of `len` bytes that the packet filter decided on.
    pub open spec fn after_filter(self, wanted: bool, len: u64) -> RxTally {
        if wanted {
            self
        } else {
            RxTally {
                ignored_pkt: Stat { value: (self.ignored_pkt.value + 1) as u64 },
                ignored_byte: Stat { value: (self.ignored_byte.value + len) as u64 },
                ..self
            }
        }
    }

    /// The counters after a poll.
    pub open spec fn after_poll(self, n_recv: u64) -> RxTally {
        RxTally {
            total_cycles: Stat { value: (self.total_cycles.value + 1) as u64 },
            idle_cycles: if n_recv == 0 {
                Stat { value: (self.idle_cycles.value + 1) as u64 }
            } else {
                self.idle_cycles
            },
            ..self
        }
    }

    /// A core that has not polled yet.
    pub fn new() -> (tally: RxTally)
        ensures
            tally == RxTally::zero(),
    {
        RxTally {
            total_cycles: Stat { value: 0 },
            idle_cycles: Stat { value: 0 },
            total_pkt: Stat { value: 0 },
            total_byte: Stat { value: 0 },
            ignored_pkt: Stat { value: 0 },
            ignored_byte: Stat { value: 0 },
        }
    }

    /// Whether one more packet of `len` bytes can be counted as let through.
    pub fn can_count(&self, len: u64) -> (fits: bool)
        ensures
            fits == (self.total_pkt.value < u64::MAX && self.total_byte.value + len <= u64::MAX),
    {
        self.total_pkt.value < u64::MAX && self.total_byte.value <= u64::MAX - len
    }

    /// Whether one more packet of `len` bytes can be counted as turned away.
    pub fn can_ignore(&self, len: u64) -> (fits: bool)
        ensures
            fits == (self.ignored_pkt.value < u64::MAX && self.ignored_byte.value + len
                <= u64::MAX),
    {
        self.ignored_pkt.value < u64::MAX && self.ignored_byte.value <= u64::MAX - len
    }

    /// Take in a packet of `len` bytes on which the flow table, consulted first, said `action`.
    /// Returns whether the packet goes on to the packet filter.
    pub fn looked_up(&mut self, action: Option<FlowAction>, len: u64) -> (goes_on: bool)
        requires
            action != Some(FlowAction::Drop) ==> old(self).total_pkt.value < u64::MAX && old(
                self,
            ).total_byte.value + len <= u64::MAX,
        ensures
            goes_on == (action != Some(FlowAction::Drop)),
            goes_on == lets_through(action),
            *final(self) == old(self).after_lookup(action, len),
    {
        if let Some(FlowAction::Drop) = action {
            return false;
        }
        self.total_pkt.inc();
        self.total_byte.inc_by(len);
        true
    }

    /// Take in the packet filter's decision on a packet of `len` bytes. Returns whether the packet
    /// is to be processed.
    pub fn filtered(&mut self, wanted: bool, len: u64) -> (process: bool)
        requires
            !wanted ==> old(self).ignored_pkt.value < u64::MAX && old(self).ignored_byte.value
                + len <= u64::MAX,
        ensures
            process == wanted,
            *final(self) == old(self).after_filter(wanted, len),
    {
        if !wanted {
            self.ignored_pkt.inc();
            self.ignored_byte.inc_by(len);
        }
        wanted
    }
}

/// What the poll loop is waiting for.
#[derive(Debug, Clone, Copy, PartialEq, Eq, Structural)]
pub enum Stage {
    /// Whether the loop is to go on.
    Top,
    /// The clock reading that opens a sampled iteration.
    Open,
    /// The burst of a queue.
    Poll { queue: usize },
    /// The clock reading that closes the poll of a queue.
    ClosePoll { queue: usize, received: u64 },
    /// The end of the pipeline's work on a burst.
    Packets {
        queue: usize,
        received: u64,
        /// Packets that the flow table has been consulted on.
        seen: u64,
        /// Packets that went on to the pipeline.
        handed: u64,
    },
    /// The clock reading that closes the pipeline's work.
    ClosePipeline { queue: usize },
    /// The end of maintenance.
    Maintain,
    /// The clock reading that closes the iteration.
    CloseIteration,
    /// The publication of the budget.
    Publish,
    /// The clock reading at loop exit.
    Leave,
    /// Nothing: the loop is over.
    Left,
}

/// What happens to the poll loop.
#[derive(Debug, Clone, Copy, PartialEq, Eq, Structural)]
pub enum Event {
    /// Whether the loop is to go on.
    Running(bool),
    /// A clock reading.
    Clock(u64),
    /// A poll returned this many packets.
    Burst(u64),
    /// The work asked for is done.
    Done,
}

/// What the poll loop asks for next.
#[derive(Debug, Clone, Copy, PartialEq, Eq, Structural)]
pub enum Action {
    /// Say whether the loop is to go on.
    AskRunning,
    /// Read the clock.
    ReadClock,
    /// Poll a queue.
    Poll { queue: usize },
    /// Apply pending flow rules and take the burst through the pipeline, first refreshing the
    /// coarse clock or exporting the core's counters where asked to.
    Process { refresh_clock: bool, export_stats: bool },
    /// Expire inactive connections.
    Maintain,
    /// Publish the budget.
    Publish,
    /// Deliver what is left in the connection table.
    Drain,
}

/// The poll loop of one RX core, between two things that it asks for.
#[derive(Debug, Clone, Copy, PartialEq, Eq, Structural)]
pub struct RxLoop {
    pub queues: usize,
    pub stage: Stage,
    pub cycles: LoopBudget,
    pub tally: RxTally,
}

impl RxLoop {
    /// The cycle accounting is valid, a sampled iteration is open exactly between its first and
    /// last reading, and queues are among those polled.
    pub open spec fn wf(self) -> bool {
        &&& self.cycles.wf()
        &&& match self.stage {
            Stage::Top | Stage::Open | Stage::Publish | Stage::Leave | Stage::Left =>
                !self.cycles.open,
            Stage::Poll { queue } => queue < self.queues,
            Stage::ClosePoll { queue, received } => queue < self.queues && self.cycles.open,
            Stage::Packets { queue, received, seen, handed } => queue < self.queues && handed
                <= seen <= received,
            Stage::ClosePipeline { queue } => queue < self.queues && self.cycles.open,
            Stage::Maintain => true,
            Stage::CloseIteration => self.cycles.open,
        }
        &&& self.stage == Stage::Open ==> self.cycles.budget.sample_stride > 0
    }

    /// Whether `event` is what the loop is waiting for. Publication and exit are calls of their
    /// own.
    pub open spec fn expects(self, event: Event) -> bool {
        match self.stage {
            Stage::Top => event is Running,
            Stage::Open | Stage::ClosePoll { .. } | Stage::ClosePipeline { .. }
            | Stage::CloseIteration => event is Clock,
            Stage::Poll { .. } => event is Burst,
            Stage::Packets { received, seen, .. } => event is Done && seen == received,
            Stage::Maintain => event is Done,
            Stage::Publish | Stage::Leave | Stage::Left => false,
        }
    }

    /// A poll can be recorded without any counter running over.
    pub open spec fn poll_fits(self, received: u64, now: Option<u64>) -> bool {
        &&& self.cycles.poll_fits(received, now)
        &&& self.tally.total_cycles.value < u64::MAX
        &&& received == 0 ==> self.tally.idle_cycles.value < u64::MAX
    }

    /// `event` can be taken in without any counter running over.
    pub open spec fn fits(self, event: Event) -> bool {
        match (self.stage, event) {
            (Stage::Open, Event::Clock(_)) => self.cycles.rdtsc_reads < u64::MAX,
            (Stage::Poll { .. }, Event::Burst(n)) => !self.cycles.open ==> self.poll_fits(n, None),
            (Stage::ClosePoll { received, .. }, Event::Clock(now)) => self.poll_fits(
                received,
                Some(now),
            ),
            (Stage::Packets { handed, .. }, Event::Done) => self.cycles.budget.recv_pkts + handed
                <= u64::MAX,
            (Stage::ClosePipeline { .. }, Event::Clock(now)) => self.cycles.span_fits(
                self.cycles.budget.pipeline,
                now,
            ),
            (Stage::CloseIteration, Event::Clock(now)) => self.cycles.maint_fits(now),
            _ => true,
        }
    }

    /// Where the loop goes once the queues before `queue` have been taken care of.
    pub open spec fn stage_at(self, queue: int) -> Stage {
        if queue < self.queues {
            Stage::Poll { queue: queue as usize }
        } else {
            Stage::Maintain
        }
    }

    /// The loop after a poll of `queue` that returned `received` packets.
    pub open spec fn after_poll(self, queue: usize, received: u64, now: Option<u64>) -> RxLoop {
        RxLoop {
            stage: Stage::Packets { queue, received, seen: 0, handed: 0 },
            cycles: self.cycles.after_poll(received, now),
            tally: self.tally.after_poll(received),
            ..self
        }
    }

    /// The loop after `event`.
    pub open spec fn after(self, event: Event) -> RxLoop {
        match (self.stage, event) {
            (Stage::Top, Event::Running(true)) => RxLoop {
                stage: if self.cycles.due() {
                    Stage::Open
                } else {
                    self.stage_at(0)
                },
                cycles: self.cycles.after_begin(),
                ..self
            },
            (Stage::Top, Event::Running(false)) => RxLoop { stage: Stage::Leave, ..self },
            (Stage::Open, Event::Clock(now)) => RxLoop {
                stage: self.stage_at(0),
                cycles: self.cycles.after_open(now),
                ..self
            },
            (Stage::Poll { queue }, Event::Burst(received)) => if self.cycles.open {
                RxLoop { stage: Stage::ClosePoll { queue, received }, ..self }
            } else {
                self.after_poll(queue, received, None)
            },
            (Stage::ClosePoll { queue, received }, Event::Clock(now)) => self.after_poll(
                queue,
                received,
                Some(now),
            ),
            (Stage::Packets { queue, received, handed, .. }, Event::Done) => RxLoop {
                stage: if self.cycles.open && received > 0 {
                    Stage::ClosePipeline { queue }
                } else {
                    self.stage_at(queue + 1)
                },
                cycles: self.cycles.after_burst(handed),
                ..self
            },
            (Stage::ClosePipeline { queue }, Event::Clock(now)) => RxLoop {
                stage: self.stage_at(queue + 1),
                cycles: self.cycles.after_pipeline(now),
                ..self
            },
            (Stage::Maintain, Event::Done) => RxLoop {
                stage: if self.cycles.open {
                    Stage::CloseIteration
                } else {
                    Stage::Top
                },
                ..self
            },
            (Stage::CloseIteration, Event::Clock(now)) => RxLoop {
                stage: if self.cycles.publication_due() {
                    Stage::Publish
                } else {
                    Stage::Top
                },
                cycles: self.cycles.after_maint(now),
                ..self
            },
            _ => self,
        }
    }

    /// A burst is being processed, the flow table has yet to be consulted on a packet of it, and
    /// the packet can be counted if it goes on.
    pub open spec fn can_look_up(self, action: Option<FlowAction>, len: u64) -> bool {
        &&& self.stage matches Stage::Packets { received, seen, .. } && seen < received
        &&& action != Some(FlowAction::Drop) ==> self.tally.total_pkt.value < u64::MAX
            && self.tally.total_byte.value + len <= u64::MAX
    }

    /// The loop once the flow table has been consulted on a packet of `len` bytes. A packet that is
    /// not dropped goes on to the pipeline.
    pub open spec fn after_lookup(self, action: Option<FlowAction>, len: u64) -> RxLoop {
        match self.stage {
            Stage::Packets { queue, received, seen, handed } => RxLoop {
                stage: Stage::Packets {
                    queue,
                    received,
                    seen: (seen + 1) as u64,
                    handed: if action == Some(FlowAction::Drop) {
                        handed
                    } else {
                        (handed + 1) as u64
                    },
                },
                tally: self.tally.after_lookup(action, len),
                ..self
            },
            _ => self,
        }
    }

    /// What the loop asks for.
    pub open spec fn wants(self) -> Action {
        match self.stage {
            Stage::Top => Action::AskRunning,
            Stage::Open | Stage::ClosePoll { .. } | Stage::ClosePipeline { .. }
            | Stage::CloseIteration | Stage::Leave => Action::ReadClock,
            Stage::Poll { queue } => Action::Poll { queue },
            Stage::Packets { .. } => Action::Process {
                refresh_clock: self.tally.total_cycles.value % REFRESH_EVERY == REFRESH_AT,
                export_stats: self.tally.total_cycles.value % REFRESH_EVERY == 0,
            },
            Stage::Maintain => Action::Maintain,
            Stage::Publish => Action::Publish,
            Stage::Left => Action::Drain,
        }
    }

    /// Enter the poll loop over `queues` queues at clock reading `loop_start`.
    pub fn start(queues: usize, stride: u64, rdtsc_cost: u64, loop_start: u64, tally: RxTally) -> (s:
        RxLoop)
        ensures
            s == (RxLoop {
                queues,
                stage: Stage::Top,
                cycles: LoopBudget::started(stride, rdtsc_cost, loop_start),
                tally,
            }),
            s.wf(),
    {
        RxLoop {
            queues,
            stage: Stage::Top,
            cycles: LoopBudget::start(stride, rdtsc_cost, loop_start),
            tally,
        }
    }

    /// What the loop asks for.
    pub fn action(&self) -> (action: Action)
        ensures
            action == self.wants(),
    {
        match self.stage {
            Stage::Top => Action::AskRunning,
            Stage::Open => Action::ReadClock,
            Stage::Poll { queue } => Action::Poll { queue },
            Stage::ClosePoll { .. } => Action::ReadClock,
            Stage::Packets { .. } => Action::Process {
                refresh_clock: self.tally.total_cycles.value % REFRESH_EVERY == REFRESH_AT,
                export_stats: self.tally.total_cycles.value % REFRESH_EVERY == 0,
            },
            Stage::ClosePipeline { .. } => Action::ReadClock,
            Stage::Maintain => Action::Maintain,
            Stage::CloseIteration => Action::ReadClock,
            Stage::Publish => Action::Publish,
            Stage::Leave => Action::ReadClock,
            Stage::Left => Action::Drain,
        }
    }

    /// Whether `event` is what the loop is waiting for and every counter has room for it.
    pub fn can_take(&self, event: Event) -> (ok: bool)
        ensures
            ok == (self.expects(event) && self.fits(event)),
    {
        match (self.stage, event) {
            (Stage::Top, Event::Running(_)) => true,
            (Stage::Open, Event::Clock(_)) => self.cycles.rdtsc_reads < u64::MAX,
            (Stage::Poll { .. }, Event::Burst(n)) => self.cycles.open || self.can_poll(n, None),
            (Stage::ClosePoll { received, .. }, Event::Clock(now)) => self.can_poll(
                received,
                Some(now),
            ),
            (Stage::Packets { received, seen, handed, .. }, Event::Done) => seen == received
                && self.cycles.budget.recv_pkts <= u64::MAX - handed,
            (Stage::ClosePipeline { .. }, Event::Clock(now)) => self.cycles.can_close_span(
                self.cycles.budget.pipeline,
                now,
            ),
            (Stage::Maintain, Event::Done) => true,
            (Stage::CloseIteration, Event::Clock(now)) => self.cycles.can_close_iteration(now),
            _ => false,
        }
    }

    fn can_poll(&self, received: u64, now: Option<u64>) -> (ok: bool)
        ensures
            ok == self.poll_fits(received, now),
    {
        self.cycles.can_record_poll(received, now) && self.tally.total_cycles.value < u64::MAX && (
        received > 0 || self.tally.idle_cycles.value < u64::MAX)
    }

    /// Take in what the loop was waiting for.
    pub fn take(&mut self, event: Event)
        requires
            old(self).wf(),
            old(self).expects(event),
            old(self).fits(event),
        ensures
            *final(self) == old(self).after(event),
            final(self).wf(),
    {
        match (self.stage, event) {
            (Stage::Top, Event::Running(running)) => {
                if running {
                    if self.cycles.begin_iteration() {
                        self.stage = Stage::Open;
                    } else {
                        self.turn_to(0);
                    }
                } else {
                    self.stage = Stage::Leave;
                }
            },
            (Stage::Open, Event::Clock(now)) => {
                self.cycles.open_sample(now);
                self.turn_to(0);
            },
            (Stage::Poll { queue }, Event::Burst(received)) => {
                if self.cycles.open {
                    self.stage = Stage::ClosePoll { queue, received };
                } else {
                    self.polled(queue, received, None);
                }
            },
            (Stage::ClosePoll { queue, received }, Event::Clock(now)) => {
                self.polled(queue, received, Some(now));
            },
            (Stage::Packets { queue, received, handed, .. }, Event::Done) => {
                self.cycles.end_burst(handed);
                if self.cycles.open && received > 0 {
                    self.stage = Stage::ClosePipeline { queue };
                } else {
                    self.turn_to(queue + 1);
                }
            },
            (Stage::ClosePipeline { queue }, Event::Clock(now)) => {
                self.cycles.end_pipeline(now);
                self.turn_to(queue + 1);
            },
            (Stage::Maintain, Event::Done) => {
                self.stage = if self.cycles.open {
                    Stage::CloseIteration
                } else {
                    Stage::Top
                };
            },
            (Stage::CloseIteration, Event::Clock(now)) => {
                self.stage = if self.cycles.end_maint(now) {
                    Stage::Publish
                } else {
                    Stage::Top
                };
            },
            _ => {},
        }
    }

    fn turn_to(&mut self, queue: usize)
        ensures
            *final(self) == (RxLoop { stage: old(self).stage_at(queue as int), ..*old(self) }),
    {
        self.stage = if queue < self.queues {
            Stage::Poll { queue }
        } else {
            Stage::Maintain
        };
    }

    fn polled(&mut self, queue: usize, received: u64, now: Option<u64>)
        requires
            old(self).cycles.wf(),
            now is Some == old(self).cycles.open,
            old(self).poll_fits(received, now),
        ensures
            *final(self) == old(self).after_poll(queue, received, now),
            final(self).cycles.wf(),
    {
        self.cycles.end_poll(received, now);
        if received == 0 {
            self.tally.idle_cycles.inc();
        }
        self.tally.total_cycles.inc();
        self.stage = Stage::Packets { queue, received, seen: 0, handed: 0 };
    }

    /// Take in what the flow table, consulted first, said of the next packet of the burst, `len`
    /// bytes long. Returns whether the packet goes on to the pipeline.
    pub fn looked_up(&mut self, action: Option<FlowAction>, len: u64) -> (goes_on: bool)
        requires
            old(self).wf(),
            old(self).can_look_up(action, len),
        ensures
            goes_on == (action != Some(FlowAction::Drop)),
            goes_on == lets_through(action),
            *final(self) == old(self).after_lookup(action, len),
            final(self).wf(),
    {
        let goes_on = self.tally.looked_up(action, len);
        if let Stage::Packets { queue, received, seen, handed } = self.stage {
            self.stage =
            Stage::Packets {
                queue,
                received,
                seen: seen + 1,
                handed: if goes_on {
                    handed + 1
                } else {
                    handed
                },
            };
        }
        goes_on
    }

    /// Whether a lookup is due and can be counted.
    pub fn may_look_up(&self, action: Option<FlowAction>, len: u64) -> (ok: bool)
        ensures
            ok == self.can_look_up(action, len),
    {
        let due = match self.stage {
            Stage::Packets { received, seen, .. } => seen < received,
            _ => false,
        };
        let dropped = match action {
            Some(FlowAction::Drop) => true,
            _ => false,
        };
        due && (dropped || self.tally.can_count(len))
    }

    /// Take in the packet filter's decision on a packet of `len` bytes that went on. Returns
    /// whether the packet is to be processed.
    pub fn filtered(&mut self, wanted: bool, len: u64) -> (process: bool)
        requires
            old(self).wf(),
            !wanted ==> old(self).tally.ignored_pkt.value < u64::MAX && old(
                self,
            ).tally.ignored_byte.value + len <= u64::MAX,
        ensures
            process == wanted,
            *final(self) == (RxLoop {
                tally: old(self).tally.after_filter(wanted, len),
                ..*old(self)
            }),
            final(self).wf(),
    {
        self.tally.filtered(wanted, len)
    }

    /// Publish the budget and go on with the next iteration.
    pub fn publish(&mut self, totals: &mut BudgetTotals, counters: &mut DatapathCounters)
        requires
            old(self).wf(),
            old(self).stage == Stage::Publish,
        ensures
            final(self).cycles.published.accounted() == final(self).cycles.published.sampled_wall,
            *final(totals) == old(totals).after_publish(
                old(self).cycles.budget,
                old(self).cycles.published,
            ),
            *final(counters) == datapath_budget::counters_after_publish(
                *old(counters),
                old(self).cycles.budget,
                old(self).cycles.published,
            ),
            *final(self) == (RxLoop {
                stage: Stage::Top,
                cycles: LoopBudget {
                    published: old(self).cycles.budget,
                    ..old(self).cycles
                },
                ..*old(self)
            }),
            *final(self) == old(self).once_published(),
            final(self).wf(),
    {
        self.cycles.publish(totals, counters);
        self.stage = Stage::Top;
    }

    /// Leave the loop at clock reading `now`, flushing the not-yet-published remainder.
    pub fn leave(&mut self, now: u64, totals: &mut BudgetTotals, counters: &mut DatapathCounters)
        requires
            old(self).wf(),
            old(self).stage == Stage::Leave,
            old(self).cycles.rdtsc_reads < u64::MAX,
        ensures
            final(self).cycles.published.accounted() == final(self).cycles.published.sampled_wall,
            *final(totals) == old(totals).after_publish(
                old(self).cycles.after_loop(now).budget,
                old(self).cycles.published,
            ),
            *final(counters) == datapath_budget::counters_after_publish(
                *old(counters),
                old(self).cycles.after_loop(now).budget,
                old(self).cycles.published,
            ),
            *final(self) == (RxLoop {
                stage: Stage::Left,
                cycles: LoopBudget {
                    published: old(self).cycles.after_loop(now).budget,
                    ..old(self).cycles.after_loop(now)
                },
                ..*old(self)
            }),
            *final(self) == old(self).once_left(now),
            final(self).wf(),
    {
        self.cycles.finish(now, totals, counters);
        self.stage = Stage::Left;
    }
}

/// A queue's part in the port's configuration.
#[derive(Debug, Clone, Copy, PartialEq, Eq, Structural)]
pub enum RxQueueType {
    /// Whole frames, through the pipeline.
    Receive,
    /// Frames split into header and payload buffers, through the pipeline.
    Split,
    /// Frames that are only counted.
    Sink,
}

/// A queue of a port.
#[derive(Debug, Clone, Copy, PartialEq, Eq, Structural)]
pub struct RxQueue {
    pub pid: u16,
    pub qid: u16,
    pub ty: RxQueueType,
}

/// What a core does with the packets that it polls.
#[derive(Debug, Clone, Copy, PartialEq, Eq, Structural)]
pub enum RxRole {
    /// Take them through the pipeline.
    Process,
    /// Count them per queue and drop them.
    Sink,
}

/// What a core does whose first queue is of type `ty`.
pub open spec fn role_for(ty: RxQueueType) -> RxRole {
    match ty {
        RxQueueType::Sink => RxRole::Sink,
        RxQueueType::Receive | RxQueueType::Split => RxRole::Process,
    }
}

/// A core that polls `rxqueues`.
#[derive(Debug)]
pub struct RxCore {
    pub id: CoreId,
    pub rxqueues: Vec<RxQueue>,
    /// Attribute cycles on one in every this many loop iterations.
    pub budget_sample_stride: u64,
}

impl RxCore {
    /// A core that polls `rxqueues`.
    pub fn new(core_id: CoreId, rxqueues: Vec<RxQueue>, budget_sample_stride: u64) -> (core: RxCore)
        ensures
            core.id == core_id,
            core.rxqueues@ == rxqueues@,
            core.budget_sample_stride == budget_sample_stride,
    {
        RxCore { id: core_id, rxqueues, budget_sample_stride }
    }

    /// What the core does, by the type of its first queue.
    pub fn rx_loop(&self) -> (role: RxRole)
        requires
            self.rxqueues@.len() > 0,
        ensures
            role == (if self.rxqueues@[0].ty == RxQueueType::Sink {
                RxRole::Sink
            } else {
                RxRole::Process
            }),
            role == role_for(self.rxqueues@[0].ty),
    {
        match self.rxqueues[0].ty {
            RxQueueType::Sink => RxRole::Sink,
            _ => RxRole::Process,
        }
    }

    /// Counters for a sink core, one pair per queue.
    pub fn rx_sink(&self) -> (counts: SinkCounts)
        ensures
            counts.per_queue@ == Seq::new(self.rxqueues@.len(), |i: int| (0u64, 0u64)),
    {
        let mut per_queue: Vec<(u64, u64)> = Vec::new();
        let mut i: usize = 0;
        while i < self.rxqueues.len()
            invariant
                i <= self.rxqueues@.len(),
                per_queue@ == Seq::new(i as nat, |j: int| (0u64, 0u64)),
            decreases self.rxqueues@.len() - i,
        {
            per_queue.push((0, 0));
            i = i + 1;
        }
        SinkCounts { per_queue }
    }
}

/// Packets and bytes that a sink core has seen, per queue: a core that polls several steered
/// queues reports each separately.
#[derive(Debug)]
pub struct SinkCounts {
    pub per_queue: Vec<(u64, u64)>,
}

/// The counters once a packet of `len` bytes has been counted on `queue`.
pub open spec fn counted(per_queue: Seq<(u64, u64)>, queue: int, len: u64) -> Seq<(u64, u64)> {
    per_queue.update(queue, ((per_queue[queue].0 + 1) as u64, (per_queue[queue].1 + len) as u64))
}

impl SinkCounts {
    /// Whether one more packet of `len` bytes fits the counters of `queue`.
    pub fn can_count(&self, queue: usize, len: u64) -> (fits: bool)
        ensures
            fits == (queue < self.per_queue@.len() && self.per_queue@[queue as int].0 < u64::MAX
                && self.per_queue@[queue as int].1 + len <= u64::MAX),
    {
        queue < self.per_queue.len() && self.per_queue[queue].0 < u64::MAX
            && self.per_queue[queue].1 <= u64::MAX - len
    }

    /// Count a packet of `len` bytes on `queue`.
    pub fn count(&mut self, queue: usize, len: u64)
        requires
            queue < old(self).per_queue@.len(),
            old(self).per_queue@[queue as int].0 < u64::MAX,
            old(self).per_queue@[queue as int].1 + len <= u64::MAX,
        ensures
            final(self).per_queue@ == old(self).per_queue@.update(
                queue as int,
                (
                    (old(self).per_queue@[queue as int].0 + 1) as u64,
                    (old(self).per_queue@[queue as int].1 + len) as u64,
                ),
            ),
            final(self).per_queue@ == counted(old(self).per_queue@, queue as int, len),
    {
        let (pkts, bytes) = self.per_queue[queue];
        self.per_queue[queue] = (pkts + 1, bytes + len);
    }
}

/// Iteration `n`, counting from zero, is sampled exactly when the stride divides `n`: one in every
/// `stride` iterations, the first one included. The countdown starts at its value before the first
/// iteration, and beginning an iteration is what moves it on to the next.
pub proof fn law_one_iteration_in_stride_is_sampled(s: LoopBudget, n: nat, cost: u64, now: u64)
    requires
        s.wf(),
        s.budget.sample_stride > 0,
        s.countdown == countdown_before(s.budget.sample_stride as nat, n),
    ensures
        s.due() <==> n % (s.budget.sample_stride as nat) == 0,
        s.after_begin().countdown == countdown_before(s.budget.sample_stride as nat, n + 1),
        LoopBudget::started(s.budget.sample_stride, cost, now).countdown == countdown_before(
            s.budget.sample_stride as nat,
            0,
        ),
{
    let stride = s.budget.sample_stride as nat;
    lemma_countdown(stride, n);
    lemma_countdown(stride, n + 1);
    assert(n % stride < stride) by (nonlinear_arith)
        requires
            stride > 0,
    ;
}

/// Nothing but the beginning of an iteration moves the countdown.
pub proof fn law_only_iterations_count_down(s: RxLoop, event: Event)
    requires
        s.wf(),
        s.expects(event),
    ensures
        s.after(event).cycles.countdown == if event == Event::Running(true) {
            s.cycles.after_begin().countdown
        } else {
            s.cycles.countdown
        },
        s.after(event).cycles.budget.sample_stride == s.cycles.budget.sample_stride,
{
}

proof fn lemma_countdown(stride: nat, n: nat)
    requires
        stride > 0,
    ensures
        countdown_before(stride, n) == if n % stride == 0 {
            1
        } else {
            stride - n % stride + 1
        },
    decreases n,
{
    if n == 0 {
        assert(0nat % stride == 0) by (nonlinear_arith)
            requires
                stride > 0,
        ;
    } else {
        let m = (n - 1) as nat;
        lemma_countdown(stride, m);
        assert(n % stride == if m % stride + 1 == stride {
            0
        } else {
            m % stride + 1
        }) by {
            vstd::arithmetic::div_mod::lemma_fundamental_div_mod(m as int, stride as int);
            let q = m as int / stride as int;
            assert((q + 1) * stride == q * stride + stride) by (nonlinear_arith);
            assert(q * stride == stride * q) by (nonlinear_arith);
            if m % stride + 1 == stride {
                vstd::arithmetic::div_mod::lemma_fundamental_div_mod_converse(
                    n as int,
                    stride as int,
                    q + 1,
                    0,
                );
            } else {
                vstd::arithmetic::div_mod::lemma_fundamental_div_mod_converse(
                    n as int,
                    stride as int,
                    q,
                    m as int % stride as int + 1,
                );
            }
        }
    }
}

impl LoopBudget {
    /// With attribution disabled, nothing is attributed.
    pub open spec fn blank(self) -> bool {
        self.budget.sample_stride == 0 ==> {
            &&& self.budget.accounted() == 0
            &&& self.budget.sampled_wall == 0
            &&& self.budget.sampled_iters == 0
            &&& self.budget.rdtsc_cost == 0
        }
    }
}

impl RxLoop {
    /// Every poll is counted once, as a burst or as an idle poll.
    pub open spec fn polls_counted(self) -> bool {
        &&& self.tally.total_cycles.value == self.cycles.budget.bursts
            + self.cycles.budget.idle_polls
        &&& self.tally.idle_cycles.value == self.cycles.budget.idle_polls
    }
}

/// The four buckets sum to `sampled_wall` between any two sampled iterations, and within one to
/// what it has attributed so far besides, whatever the readings are: no event upsets the balance.
/// So whatever is published has no residual.
pub proof fn law_buckets_sum_to_the_sample(s: RxLoop, event: Event)
    requires
        s.wf(),
        s.expects(event),
        s.fits(event),
    ensures
        s.cycles.balanced(),
        s.after(event).cycles.balanced(),
        !s.after(event).cycles.open ==> s.after(event).cycles.budget.accounted() == s.after(
            event,
        ).cycles.budget.sampled_wall,
{
}

/// What a sampled iteration attributes is the time it lasted without what was taken off its spans:
/// of each span the cost of the reading that closed it, or all of the span if that is less. `start`
/// is the reading that opened the iteration and `taken` what was taken off so far; the iteration
/// lasts less than a turn of the clock.
pub proof fn law_an_iteration_is_its_time_less_its_readings(
    c: LoopBudget,
    start: u64,
    taken: int,
    now: u64,
)
    requires
        c.iter_net + taken == c.cursor.wrapping_sub(start),
        c.cursor.wrapping_sub(start) + c.span(now) <= u64::MAX,
        c.iter_net + c.net_span(now) <= u64::MAX,
    ensures
        c.after_open(now).iter_net + 0 == now.wrapping_sub(now),
        ({
            let off = if c.span(now) < c.budget.rdtsc_cost {
                c.span(now)
            } else {
                c.budget.rdtsc_cost
            };
            c.closed_span(now).iter_net + (taken + off) == now.wrapping_sub(start)
        }),
{
}

impl RxLoop {
    /// The loop once the flow table has been consulted on several packets in turn, each given by
    /// what the table said and its length.
    pub open spec fn after_lookups(self, packets: Seq<(Option<FlowAction>, u64)>) -> RxLoop
        decreases packets.len(),
    {
        if packets.len() == 0 {
            self
        } else {
            self.after_lookups(packets.drop_last()).after_lookup(
                packets.last().0,
                packets.last().1,
            )
        }
    }
}

/// How many of the packets are not dropped.
pub open spec fn going_on(packets: Seq<(Option<FlowAction>, u64)>) -> nat
    decreases packets.len(),
{
    if packets.len() == 0 {
        0
    } else {
        going_on(packets.drop_last()) + if packets.last().0 == Some(FlowAction::Drop) {
            0nat
        } else {
            1
        }
    }
}

/// `recv_pkts` is exact: a burst adds the packets that were handed to the pipeline, and none that
/// the flow table dropped.
pub proof fn law_only_packets_handed_on_are_counted(
    s: RxLoop,
    queue: usize,
    packets: Seq<(Option<FlowAction>, u64)>,
)
    requires
        packets.len() <= u64::MAX,
        s.stage == (Stage::Packets { queue, received: packets.len() as u64, seen: 0, handed: 0 }),
        s.cycles.budget.recv_pkts + going_on(packets) <= u64::MAX,
    ensures
        s.after_lookups(packets).expects(Event::Done),
        s.after_lookups(packets).fits(Event::Done),
        s.after_lookups(packets).after(Event::Done).cycles.budget.recv_pkts
            == s.cycles.budget.recv_pkts + going_on(packets),
{
    lemma_lookups(s, queue, packets.len() as u64, packets);
}

proof fn lemma_lookups(
    s: RxLoop,
    queue: usize,
    received: u64,
    packets: Seq<(Option<FlowAction>, u64)>,
)
    requires
        packets.len() <= received,
        s.stage == (Stage::Packets { queue, received, seen: 0, handed: 0 }),
    ensures
        going_on(packets) <= packets.len(),
        s.after_lookups(packets).stage == (Stage::Packets {
            queue,
            received,
            seen: packets.len() as u64,
            handed: going_on(packets) as u64,
        }),
        s.after_lookups(packets).cycles == s.cycles,
    decreases packets.len(),
{
    if packets.len() > 0 {
        lemma_lookups(s, queue, received, packets.drop_last());
    }
}

/// A loop starts with its buckets summing to `sampled_wall`, with its polls counted and, if
/// attribution is disabled, with nothing attributed.
pub proof fn law_loop_starts_in_balance(queues: usize, stride: u64, cost: u64, now: u64)
    ensures
        ({
            let s = RxLoop {
                queues,
                stage: Stage::Top,
                cycles: LoopBudget::started(stride, cost, now),
                tally: RxTally::zero(),
            };
            &&& s.cycles.balanced()
            &&& s.cycles.blank()
            &&& s.polls_counted()
        }),
{
}

/// The cheap counters are exact, sampled or not: every poll is a burst or an idle poll.
pub proof fn law_polls_are_counted(s: RxLoop, event: Event)
    requires
        s.wf(),
        s.expects(event),
        s.fits(event),
        s.polls_counted(),
    ensures
        s.after(event).polls_counted(),
{
}

/// While the clock goes forward a core's budget only grows, so that each publication adds what the
/// loop did since the last one and nothing is added twice or taken back.
pub proof fn law_the_budget_only_grows(s: RxLoop, event: Event)
    requires
        s.wf(),
        s.expects(event),
        s.fits(event),
        s.cycles.budget.rdtsc_reads <= s.cycles.rdtsc_reads,
        event matches Event::Clock(now) ==> now.wrapping_sub(s.cycles.loop_start)
            >= s.cycles.budget.wall,
    ensures
        s.after(event).cycles.budget.follows(s.cycles.budget),
        s.after(event).cycles.budget.rdtsc_reads <= s.after(event).cycles.rdtsc_reads,
        s.after(event).cycles.published == s.cycles.published,
{
}

/// With attribution disabled the buckets stay empty and no iteration is sampled, while the loop
/// polls every queue all the same.
pub proof fn law_zero_stride_attributes_nothing(s: RxLoop, event: Event)
    requires
        s.wf(),
        s.expects(event),
        s.fits(event),
        s.cycles.budget.sample_stride == 0,
        s.cycles.blank(),
    ensures
        s.after(event).cycles.blank(),
        s.after(event).stage != Stage::Open,
        s.stage == Stage::Top && event == Event::Running(true) ==> s.after(event).stage
            == s.stage_at(0),
{
}

/// Publishing, leaving and consulting the flow table change no bucket and no poll count, so what
/// held of them goes on holding.
pub proof fn law_publishing_keeps_the_books(
    s: RxLoop,
    published: DatapathBudget,
    stage: Stage,
    now: u64,
    action: Option<FlowAction>,
    len: u64,
)
    ensures
        s.after_lookup(action, len).cycles == s.cycles,
        s.after_lookup(action, len).polls_counted() == s.polls_counted(),
        ({
            let after = RxLoop { stage, cycles: LoopBudget { published, ..s.cycles }, ..s };
            &&& after.cycles.balanced() == s.cycles.balanced()
            &&& after.cycles.blank() == s.cycles.blank()
            &&& after.polls_counted() == s.polls_counted()
        }),
        s.cycles.after_loop(now).balanced() == s.cycles.balanced(),
        s.cycles.after_loop(now).blank() == s.cycles.blank(),
{
}

/// What an event adds to each bucket. A clock reading that closes a poll goes to the idle or to the
/// busy polls by what the poll returned, one that closes the pipeline's work to the pipeline, and
/// one that closes the iteration to maintenance. What is added is the time since the previous
/// reading, once around the clock at most, without the cost of a reading, and not less than
/// nothing. Every reading is counted, and nothing but a reading adds to a bucket.
#[verifier::spinoff_prover]
#[verifier::rlimit(50)]
pub proof fn law_each_span_goes_to_its_own_bucket(s: RxLoop, event: Event)
    requires
        s.wf(),
        s.expects(event),
        s.fits(event),
    ensures
        ({
            let before = s.cycles.budget;
            let after = s.after(event).cycles.budget;
            let net = match event {
                Event::Clock(now) => {
                    let lasted = (now - s.cycles.cursor) % 0x1_0000_0000_0000_0000;
                    if lasted > before.rdtsc_cost {
                        lasted - before.rdtsc_cost
                    } else {
                        0
                    }
                },
                _ => 0,
            };
            &&& after.poll_idle - before.poll_idle == (match s.stage {
                Stage::ClosePoll { received, .. } => if received == 0 {
                    net
                } else {
                    0
                },
                _ => 0,
            })
            &&& after.poll_busy - before.poll_busy == (match s.stage {
                Stage::ClosePoll { received, .. } => if received > 0 {
                    net
                } else {
                    0
                },
                _ => 0,
            })
            &&& after.pipeline - before.pipeline == (match s.stage {
                Stage::ClosePipeline { .. } => net,
                _ => 0,
            })
            &&& after.maint - before.maint == (match s.stage {
                Stage::CloseIteration => net,
                _ => 0,
            })
            &&& s.after(event).cycles.rdtsc_reads == s.cycles.rdtsc_reads + if event is Clock {
                1int
            } else {
                0
            }
            &&& event matches Event::Clock(now) ==> s.after(event).cycles.cursor == now
        }),
{
    if let Event::Clock(now) = event {
        lemma_elapsed(s.cycles.cursor, now);
    }
    match s.stage {
        Stage::ClosePoll { received, .. } => {
            assert(s.after(event).cycles.budget.pipeline == s.cycles.budget.pipeline);
            assert(s.after(event).cycles.budget.maint == s.cycles.budget.maint);
        },
        _ => {},
    }
}

/// The wrapping distance between two readings is the time between them, once around the clock at
/// most.
proof fn lemma_elapsed(from: u64, to: u64)
    ensures
        to.wrapping_sub(from) == (to - from) % 0x1_0000_0000_0000_0000,
{
}

/// Outside a sampled iteration the four buckets sum to `sampled_wall`, each taken once.
pub proof fn law_no_cycle_is_in_two_buckets(s: RxLoop)
    requires
        s.wf(),
        !s.cycles.open,
    ensures
        s.cycles.budget.poll_busy + s.cycles.budget.poll_idle + s.cycles.budget.pipeline
            + s.cycles.budget.maint == s.cycles.budget.sampled_wall,
{
}

/// A poll is counted once it is recorded: as an idle poll if it returned nothing and as a burst
/// otherwise. No other event moves the counts of polls.
#[verifier::spinoff_prover]
#[verifier::rlimit(50)]
pub proof fn law_each_poll_is_counted_once(s: RxLoop, event: Event)
    requires
        s.wf(),
        s.expects(event),
        s.fits(event),
    ensures
        ({
            let after = s.after(event);
            let (polls, idle) = match (s.stage, event) {
                (Stage::Poll { .. }, Event::Burst(n)) => if s.cycles.open {
                    (0int, 0int)
                } else {
                    (1, if n == 0 {
                        1
                    } else {
                        0
                    })
                },
                (Stage::ClosePoll { received, .. }, Event::Clock(_)) => (1, if received == 0 {
                    1
                } else {
                    0
                }),
                _ => (0, 0),
            };
            &&& after.tally.total_cycles.value == s.tally.total_cycles.value + polls
            &&& after.tally.idle_cycles.value == s.tally.idle_cycles.value + idle
            &&& after.cycles.budget.idle_polls == s.cycles.budget.idle_polls + idle
            &&& after.cycles.budget.bursts == s.cycles.budget.bursts + polls - idle
            &&& after.tally.total_pkt == s.tally.total_pkt
            &&& after.tally.total_byte == s.tally.total_byte
            &&& after.tally.ignored_pkt == s.tally.ignored_pkt
            &&& after.tally.ignored_byte == s.tally.ignored_byte
        }),
{
}

impl RxLoop {
    /// The loop once its budget has been published.
    pub open spec fn once_published(self) -> RxLoop {
        RxLoop {
            stage: Stage::Top,
            cycles: LoopBudget { published: self.cycles.budget, ..self.cycles },
            ..self
        }
    }

    /// The loop once it has taken in `event` and made the publication that it then asks for, if
    /// any.
    pub open spec fn stepped(self, event: Event) -> RxLoop {
        if self.after(event).stage == Stage::Publish {
            self.after(event).once_published()
        } else {
            self.after(event)
        }
    }

    /// The loop after several events in turn.
    pub open spec fn run(self, events: Seq<Event>) -> RxLoop
        decreases events.len(),
    {
        if events.len() == 0 {
            self
        } else {
            self.run(events.drop_last()).stepped(events.last())
        }
    }

    /// Each of the events is what the loop is waiting for when it comes, and every counter has room
    /// for it.
    pub open spec fn can_run(self, events: Seq<Event>) -> bool
        decreases events.len(),
    {
        events.len() == 0 || {
            &&& self.can_run(events.drop_last())
            &&& self.run(events.drop_last()).expects(events.last())
            &&& self.run(events.drop_last()).fits(events.last())
        }
    }

    /// How many of the events leave the loop asking for a publication.
    pub open spec fn publications(self, events: Seq<Event>) -> nat
        decreases events.len(),
    {
        if events.len() == 0 {
            0
        } else {
            self.publications(events.drop_last()) + if self.run(events.drop_last()).after(
                events.last(),
            ).wants() == Action::Publish {
                1nat
            } else {
                0
            }
        }
    }

    /// How many of the events close a sampled iteration.
    pub open spec fn samples(self, events: Seq<Event>) -> nat
        decreases events.len(),
    {
        if events.len() == 0 {
            0
        } else {
            self.samples(events.drop_last()) + if self.run(events.drop_last()).stage
                == Stage::CloseIteration {
                1nat
            } else {
                0
            }
        }
    }
}

/// An event leaves the loop valid.
#[verifier::spinoff_prover]
#[verifier::rlimit(50)]
proof fn lemma_events_keep_the_loop_valid(s: RxLoop, event: Event)
    requires
        s.wf(),
        s.expects(event),
        s.fits(event),
    ensures
        s.after(event).wf(),
        s.after(event).stage == Stage::Publish ==> s.after(event).once_published().wf(),
{
}

/// Closing a sampled iteration counts it, and asks for a publication exactly if the count then is a
/// multiple of 1024. Before a publication the wall time and the count of readings are brought up to
/// the reading that closed the iteration; otherwise they stay.
#[verifier::spinoff_prover]
#[verifier::rlimit(50)]
pub proof fn law_every_1024th_sample_is_published(s: RxLoop, now: u64)
    requires
        s.wf(),
        s.stage == Stage::CloseIteration,
        s.fits(Event::Clock(now)),
    ensures
        ({
            let after = s.after(Event::Clock(now));
            let n = s.cycles.budget.sampled_iters + 1;
            &&& after.cycles.budget.sampled_iters == n
            &&& n % 1024 == 0 <==> after.wants() == Action::Publish
            &&& n % 1024 == 0 ==> {
                &&& after.cycles.budget.wall == (now - s.cycles.loop_start)
                    % 0x1_0000_0000_0000_0000
                &&& after.cycles.budget.rdtsc_reads == s.cycles.rdtsc_reads + 1
            }
            &&& n % 1024 != 0 ==> {
                &&& after.wants() == Action::AskRunning
                &&& after.cycles.budget.wall == s.cycles.budget.wall
                &&& after.cycles.budget.rdtsc_reads == s.cycles.budget.rdtsc_reads
            }
        }),
{
}

/// However the loop runs, it publishes once for every 1024 iterations that it samples: between two
/// publications lie 1024 of them.
#[verifier::spinoff_prover]
#[verifier::rlimit(50)]
pub proof fn law_publications_are_1024_samples_apart(s: RxLoop, events: Seq<Event>)
    requires
        s.wf(),
        s.stage != Stage::Publish,
        s.can_run(events),
    ensures
        s.run(events).wf(),
        s.run(events).stage != Stage::Publish,
        s.run(events).cycles.budget.sampled_iters == s.cycles.budget.sampled_iters + s.samples(
            events,
        ),
        s.publications(events) == (s.cycles.budget.sampled_iters + s.samples(events)) / 1024
            - s.cycles.budget.sampled_iters as int / 1024,
    decreases events.len(),
{
    if events.len() > 0 {
        law_publications_are_1024_samples_apart(s, events.drop_last());
        lemma_events_keep_the_loop_valid(s.run(events.drop_last()), events.last());
    }
}

/// A run of the loop from its start publishes once for every 1024 sampled iterations.
pub proof fn law_a_run_publishes_regularly(
    queues: usize,
    stride: u64,
    cost: u64,
    now: u64,
    tally: RxTally,
    events: Seq<Event>,
)
    requires
        ({
            let s = RxLoop {
                queues,
                stage: Stage::Top,
                cycles: LoopBudget::started(stride, cost, now),
                tally,
            };
            s.can_run(events)
        }),
    ensures
        ({
            let s = RxLoop {
                queues,
                stage: Stage::Top,
                cycles: LoopBudget::started(stride, cost, now),
                tally,
            };
            &&& s.run(events).cycles.budget.sampled_iters == s.samples(events)
            &&& s.publications(events) == s.samples(events) / 1024
        }),
{
    let s = RxLoop {
        queues,
        stage: Stage::Top,
        cycles: LoopBudget::started(stride, cost, now),
        tally,
    };
    law_publications_are_1024_samples_apart(s, events);
}

/// A loop starts with its own reading counted, at the stride and the reading cost that it is given,
/// and with its first iteration due; at a stride of zero none is due and nothing is taken off.
pub proof fn law_a_loop_starts_from_its_settings(stride: u64, cost: u64, now: u64)
    ensures
        ({
            let c = LoopBudget::started(stride, cost, now);
            &&& c.budget.sample_stride == stride
            &&& stride > 0 ==> c.budget.rdtsc_cost == cost && c.due()
            &&& stride == 0 ==> c.budget.rdtsc_cost == 0 && !c.due()
            &&& c.loop_start == now
            &&& c.rdtsc_reads == 1
            &&& c.budget.wall == 0 && c.budget.sampled_iters == 0 && c.budget.bursts == 0
            &&& c.budget.idle_polls == 0 && c.budget.recv_pkts == 0
        }),
{
}

/// A loop that is left has run from its first reading to its last, and every reading is counted.
pub proof fn law_a_loop_lasts_until_it_is_left(c: LoopBudget, now: u64)
    requires
        c.rdtsc_reads < u64::MAX,
    ensures
        ({
            let left = c.after_loop(now).budget;
            &&& left.wall == (now - c.loop_start) % 0x1_0000_0000_0000_0000
            &&& left.rdtsc_reads == c.rdtsc_reads + 1
            &&& left == (DatapathBudget {
                wall: left.wall,
                rdtsc_reads: left.rdtsc_reads,
                ..c.budget
            })
        }),
{
}

impl RxLoop {
    /// Queues still to be polled in the iteration, or in the next one where none has begun.
    pub open spec fn to_poll(self) -> int {
        match self.stage {
            Stage::Poll { queue } => self.queues - queue,
            Stage::ClosePoll { queue, .. } => self.queues - queue - 1,
            Stage::Packets { queue, .. } => self.queues - queue - 1,
            Stage::ClosePipeline { queue } => self.queues - queue - 1,
            Stage::Maintain | Stage::CloseIteration => 0,
            _ => self.queues as int,
        }
    }
}

/// An iteration polls every queue once, in order, then sees to maintenance, and goes back to the
/// top: only a poll takes a queue off those still to be polled, what is asked for is the poll of
/// the first of them, and maintenance is asked for exactly when none is left.
#[verifier::spinoff_prover]
#[verifier::rlimit(50)]
pub proof fn law_every_queue_is_polled_in_turn(s: RxLoop, event: Event)
    requires
        s.wf(),
        s.expects(event),
        s.fits(event),
    ensures
        ({
            let after = s.after(event);
            &&& after.queues == s.queues
            &&& s.stage != Stage::Maintain && s.stage != Stage::CloseIteration ==> after.to_poll()
                == s.to_poll() - if event is Burst {
                1int
            } else {
                0
            }
            &&& after.wants() matches Action::Poll { queue } ==> queue == s.queues
                - after.to_poll() && after.to_poll() > 0
            &&& after.wants() == Action::Maintain ==> after.to_poll() == 0
            &&& after.stage matches Stage::Packets { queue, received, .. } ==> queue == s.queues
                - after.to_poll() - 1
            &&& s.stage == Stage::Maintain || s.stage == Stage::CloseIteration ==> after.stage
                == Stage::Top || after.stage == Stage::Publish || after.stage
                == Stage::CloseIteration
            &&& s.stage == Stage::Maintain ==> (after.stage == Stage::CloseIteration
                <==> s.cycles.open)
            &&& event == Event::Running(false) <==> after.stage == Stage::Leave
            &&& event == Event::Running(true) ==> (after.stage == Stage::Open <==> s.cycles.due())
            &&& after.stage != s.stage
        }),
{
}

/// A burst is processed whole before the loop goes on, and the pipeline's work on it is timed
/// exactly if the iteration is sampled and the burst was not empty.
#[verifier::spinoff_prover]
#[verifier::rlimit(50)]
pub proof fn law_a_burst_is_processed_before_the_loop_goes_on(s: RxLoop, event: Event)
    requires
        s.wf(),
        s.expects(event),
        s.fits(event),
    ensures
        event matches Event::Burst(n) ==> (if s.cycles.open {
            s.after(event).stage matches Stage::ClosePoll { received, .. } && received == n
        } else {
            s.after(event).stage matches Stage::Packets { received, seen, .. } && received == n
                && seen == 0
        }),
        s.stage matches Stage::ClosePoll { received: n, .. } ==> s.after(event).stage matches Stage::Packets {
            received,
            seen,
            ..
        } && received == n && seen == 0,
        s.stage matches Stage::Packets { received, seen, .. } ==> {
            &&& seen == received
            &&& s.after(event).stage is ClosePipeline <==> s.cycles.open && received > 0
        },
{
}

/// The coarse clock is refreshed on one poll in 1024 and the counters are exported on another,
/// halfway between: on the polls whose number leaves 512 and nothing.
pub proof fn law_one_poll_in_1024_refreshes_and_exports(s: RxLoop)
    requires
        s.stage is Packets,
    ensures
        ({
            let n = s.tally.total_cycles.value as int;
            &&& s.wants() is Process
            &&& s.wants() matches Action::Process { refresh_clock, export_stats } ==> {
                &&& refresh_clock <==> n % 1024 == 512
                &&& export_stats <==> n % 1024 == 0
            }
        }),
{
}

/// Bytes of the packets that are not dropped.
pub open spec fn bytes_going_on(packets: Seq<(Option<FlowAction>, u64)>) -> nat
    decreases packets.len(),
{
    if packets.len() == 0 {
        0
    } else {
        bytes_going_on(packets.drop_last()) + if packets.last().0 == Some(FlowAction::Drop) {
            0nat
        } else {
            packets.last().1 as nat
        }
    }
}

/// The packets and the bytes counted are those that the flow table did not drop; nothing else is
/// counted by a lookup.
pub proof fn law_dropped_packets_are_not_counted(
    s: RxLoop,
    queue: usize,
    packets: Seq<(Option<FlowAction>, u64)>,
)
    requires
        packets.len() <= u64::MAX,
        s.stage == (Stage::Packets { queue, received: packets.len() as u64, seen: 0, handed: 0 }),
        s.tally.total_pkt.value + going_on(packets) <= u64::MAX,
        s.tally.total_byte.value + bytes_going_on(packets) <= u64::MAX,
    ensures
        s.after_lookups(packets).tally.total_pkt.value == s.tally.total_pkt.value + going_on(
            packets,
        ),
        s.after_lookups(packets).tally.total_byte.value == s.tally.total_byte.value
            + bytes_going_on(packets),
        s.after_lookups(packets).tally.ignored_pkt == s.tally.ignored_pkt,
        s.after_lookups(packets).tally.ignored_byte == s.tally.ignored_byte,
        s.after_lookups(packets).tally.total_cycles == s.tally.total_cycles,
        s.after_lookups(packets).tally.idle_cycles == s.tally.idle_cycles,
{
    lemma_lookups_counted(s, queue, packets.len() as u64, packets);
}

proof fn lemma_lookups_counted(
    s: RxLoop,
    queue: usize,
    received: u64,
    packets: Seq<(Option<FlowAction>, u64)>,
)
    requires
        packets.len() <= received,
        s.stage == (Stage::Packets { queue, received, seen: 0, handed: 0 }),
        s.tally.total_pkt.value + going_on(packets) <= u64::MAX,
        s.tally.total_byte.value + bytes_going_on(packets) <= u64::MAX,
    ensures
        s.after_lookups(packets).tally == (RxTally {
            total_pkt: Stat { value: (s.tally.total_pkt.value + going_on(packets)) as u64 },
            total_byte: Stat { value: (s.tally.total_byte.value + bytes_going_on(packets)) as u64 },
            ..s.tally
        }),
    decreases packets.len(),
{
    if packets.len() > 0 {
        lemma_lookups_counted(s, queue, received, packets.drop_last());
        lemma_lookups(s, queue, received, packets.drop_last());
    }
}

impl RxTally {
    /// The counters once the packet filter has decided on several packets in turn, each given by
    /// whether it is wanted and its length.
    pub open spec fn after_filters(self, packets: Seq<(bool, u64)>) -> RxTally
        decreases packets.len(),
    {
        if packets.len() == 0 {
            self
        } else {
            self.after_filters(packets.drop_last()).after_filter(
                packets.last().0,
                packets.last().1,
            )
        }
    }
}

/// How many of the packets are not wanted, and their bytes.
pub open spec fn unwanted(packets: Seq<(bool, u64)>) -> (nat, nat)
    decreases packets.len(),
{
    if packets.len() == 0 {
        (0, 0)
    } else {
        let (n, bytes) = unwanted(packets.drop_last());
        if packets.last().0 {
            (n, bytes)
        } else {
            (n + 1, bytes + packets.last().1 as nat)
        }
    }
}

/// The packets ignored are those that the packet filter turns away, with their bytes; what the flow
/// table let through stays counted.
pub proof fn law_ignored_packets_are_those_turned_away(tally: RxTally, packets: Seq<(bool, u64)>)
    requires
        tally.ignored_pkt.value + unwanted(packets).0 <= u64::MAX,
        tally.ignored_byte.value + unwanted(packets).1 <= u64::MAX,
    ensures
        ({
            let after = tally.after_filters(packets);
            &&& after.ignored_pkt.value == tally.ignored_pkt.value + unwanted(packets).0
            &&& after.ignored_byte.value == tally.ignored_byte.value + unwanted(packets).1
            &&& after.total_pkt == tally.total_pkt
            &&& after.total_byte == tally.total_byte
            &&& after.total_cycles == tally.total_cycles
            &&& after.idle_cycles == tally.idle_cycles
        }),
    decreases packets.len(),
{
    if packets.len() > 0 {
        law_ignored_packets_are_those_turned_away(tally, packets.drop_last());
    }
}

/// Where every counter is well below its limit and the readings are not far apart, whatever the
/// loop is waiting for can be taken in.
#[verifier::spinoff_prover]
#[verifier::rlimit(50)]
pub proof fn law_a_loop_with_room_is_never_held_up(s: RxLoop, event: Event)
    requires
        s.wf(),
        s.expects(event),
        s.cycles.rdtsc_reads < 0x4000_0000_0000_0000,
        s.cycles.iter_net < 0x4000_0000_0000_0000,
        s.cycles.budget.poll_idle < 0x4000_0000_0000_0000,
        s.cycles.budget.poll_busy < 0x4000_0000_0000_0000,
        s.cycles.budget.pipeline < 0x4000_0000_0000_0000,
        s.cycles.budget.maint < 0x4000_0000_0000_0000,
        s.cycles.budget.sampled_wall < 0x4000_0000_0000_0000,
        s.cycles.budget.sampled_iters < 0x4000_0000_0000_0000,
        s.cycles.budget.bursts < 0x4000_0000_0000_0000,
        s.cycles.budget.idle_polls < 0x4000_0000_0000_0000,
        s.cycles.budget.recv_pkts < 0x4000_0000_0000_0000,
        s.tally.total_cycles.value < 0x4000_0000_0000_0000,
        s.tally.idle_cycles.value < 0x4000_0000_0000_0000,
        s.stage matches Stage::Packets { received, .. } ==> received < 0x4000_0000_0000_0000,
        event matches Event::Clock(now) ==> (now - s.cycles.cursor) % 0x1_0000_0000_0000_0000
            < 0x4000_0000_0000_0000,
    ensures
        s.fits(event),
{
}

/// A core whose first queue is a sink only counts; any other takes its packets through the
/// pipeline.
pub proof fn law_only_sinks_are_not_processed(ty: RxQueueType)
    ensures
        role_for(ty) == RxRole::Sink <==> ty == RxQueueType::Sink,
        role_for(ty) == RxRole::Process <==> ty != RxQueueType::Sink,
{
}

/// The counters of a sink core once several packets have been counted in turn, each given by its
/// queue and its length.
pub open spec fn counted_all(per_queue: Seq<(u64, u64)>, packets: Seq<(int, u64)>) -> Seq<(u64, u64)>
    decreases packets.len(),
{
    if packets.len() == 0 {
        per_queue
    } else {
        counted(
            counted_all(per_queue, packets.drop_last()),
            packets.last().0,
            packets.last().1,
        )
    }
}

/// How many of the packets came in on `queue`, and their bytes.
pub open spec fn arrived_on(packets: Seq<(int, u64)>, queue: int) -> (nat, nat)
    decreases packets.len(),
{
    if packets.len() == 0 {
        (0, 0)
    } else {
        let (n, bytes) = arrived_on(packets.drop_last(), queue);
        if packets.last().0 == queue {
            (n + 1, bytes + packets.last().1 as nat)
        } else {
            (n, bytes)
        }
    }
}

/// A sink core counts each queue apart: its packets and its bytes are those that came in on it.
pub proof fn law_sink_queues_are_counted_apart(
    per_queue: Seq<(u64, u64)>,
    packets: Seq<(int, u64)>,
    queue: int,
)
    requires
        0 <= queue < per_queue.len(),
        forall|i: int| 0 <= i < packets.len() ==> 0 <= (#[trigger] packets[i]).0 < per_queue.len(),
        per_queue[queue].0 + arrived_on(packets, queue).0 <= u64::MAX,
        per_queue[queue].1 + arrived_on(packets, queue).1 <= u64::MAX,
    ensures
        counted_all(per_queue, packets).len() == per_queue.len(),
        counted_all(per_queue, packets)[queue].0 == per_queue[queue].0 + arrived_on(
            packets,
            queue,
        ).0,
        counted_all(per_queue, packets)[queue].1 == per_queue[queue].1 + arrived_on(
            packets,
            queue,
        ).1,
    decreases packets.len(),
{
    if packets.len() > 0 {
        let init = packets.drop_last();
        assert forall|i: int| 0 <= i < init.len() implies 0 <= (#[trigger] init[i]).0
            < per_queue.len() by {
            assert(init[i] == packets[i]);
        }
        assert(packets[packets.len() - 1] == packets.last());
        law_sink_queues_are_counted_apart(per_queue, init, queue);
    }
}

impl RxLoop {
    /// The loop once it has been left at clock reading `now` and its budget has been published.
    pub open spec fn once_left(self, now: u64) -> RxLoop {
        let cycles = self.cycles.after_loop(now);
        RxLoop {
            stage: Stage::Left,
            cycles: LoopBudget { published: cycles.budget, ..cycles },
            ..self
        }
    }
}

/// A publication leaves nothing unpublished: made once more right after it, it would add nothing to
/// the totals. The same holds of a loop that has been left, and all that is left to do then is to
/// drain the table.
pub proof fn law_a_publication_leaves_nothing_unpublished(s: RxLoop, totals: BudgetTotals, now: u64)
    ensures
        ({
            let c = s.once_published().cycles;
            let again = totals.after_publish(c.budget, c.published);
            &&& c.budget == s.cycles.budget
            &&& again.poll_busy == totals.poll_busy && again.poll_idle == totals.poll_idle
            &&& again.pipeline == totals.pipeline && again.maint == totals.maint
            &&& again.wall == totals.wall && again.sampled_wall == totals.sampled_wall
            &&& again.sampled_iters == totals.sampled_iters && again.bursts == totals.bursts
            &&& again.idle_polls == totals.idle_polls && again.rdtsc_reads == totals.rdtsc_reads
            &&& s.once_published().wants() == Action::AskRunning
        }),
        ({
            let c = s.once_left(now).cycles;
            let again = totals.after_publish(c.budget, c.published);
            &&& c.budget == s.cycles.after_loop(now).budget
            &&& again.poll_busy == totals.poll_busy && again.poll_idle == totals.poll_idle
            &&& again.pipeline == totals.pipeline && again.maint == totals.maint
            &&& again.wall == totals.wall && again.sampled_wall == totals.sampled_wall
            &&& again.sampled_iters == totals.sampled_iters && again.bursts == totals.bursts
            &&& again.idle_polls == totals.idle_polls && again.rdtsc_reads == totals.rdtsc_reads
            &&& s.once_left(now).wants() == Action::Drain
        }),
{
}

/// The loop is waiting for what it asks for, whatever that turns out to be, and for nothing else. A
/// burst is done once the flow table has been consulted on every packet of it; publishing, leaving
/// and draining are no events.
pub proof fn law_the_loop_waits_for_what_it_asks_for(s: RxLoop, running: bool, now: u64, n: u64)
    ensures
        s.expects(Event::Running(running)) <==> s.wants() == Action::AskRunning,
        s.expects(Event::Clock(now)) <==> s.wants() == Action::ReadClock && s.stage
            != Stage::Leave,
        s.expects(Event::Burst(n)) <==> s.wants() is Poll,
        s.expects(Event::Done) <==> s.wants() == Action::Maintain || (s.stage matches Stage::Packets {
            received,
            seen,
            ..
        } && seen == received),
        s.wants() is Process <==> s.stage is Packets,
        s.wants() == Action::Publish <==> s.stage == Stage::Publish,
        s.stage == Stage::Leave ==> s.wants() == Action::ReadClock,
{
}

/// The flow table is consulted on each packet of a burst in turn, and a packet goes on, is handed
/// to the pipeline and is counted unless it is dropped: all of them or none.
pub proof fn law_a_packet_goes_on_exactly_if_it_is_counted(
    s: RxLoop,
    action: Option<FlowAction>,
    len: u64,
)
    requires
        s.wf(),
        s.stage is Packets,
        s.tally.total_pkt.value < u64::MAX,
        s.tally.total_byte.value + len <= u64::MAX,
    ensures
        s.stage matches Stage::Packets { received, seen, handed, queue } ==> {
            &&& s.can_look_up(action, len) <==> seen < received
            &&& seen < received ==> {
                let after = s.after_lookup(action, len);
                let one = if lets_through(action) {
                    1int
                } else {
                    0
                };
                &&& after.stage matches Stage::Packets {
                    received: r,
                    seen: n,
                    handed: h,
                    queue: q,
                } && r == received && n == seen + 1 && h == handed + one && q == queue
                &&& after.tally.total_pkt.value == s.tally.total_pkt.value + one
                &&& after.tally.total_byte.value == s.tally.total_byte.value + one * len
            }
        },
        lets_through(action) <==> action != Some(FlowAction::Drop),
{
    assert(0 * len == 0 && 1 * len == len);
}

} // verus!
