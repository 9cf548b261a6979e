//! Time accounting for the off-datapath worker cores.
//!
//! A worker thread parks when its queue is empty, so the first question is how much of the core it
//! used at all. Answering that needs two clocks. `cpu_ns` advances only while the thread is on-CPU
//! and is the utilisation figure; the cycle buckets partition `wall` and say where the busy time
//! went. Parked time lands in `blocked`.
//!
//! The unit of work is long against a clock read, so attribution is exact and nothing is sampled.

use crate::lcore::datapath_budget;
use crate::ratio::Ratio;
use crate::thread_cost;
use crate::thread_cost::{cpu_ns_since, read_nonvoluntary_ctxt_switches};
use cpu_time::ThreadTime;
use vstd::prelude::*;

verus! {

/// Where an off-datapath worker thread's time went, summed across worker threads.
#[derive(Debug, Clone, Copy, PartialEq, Eq, Structural)]
pub struct WorkerBudget {
    /// On-CPU nanoseconds: the only field that stops while the thread is parked.
    pub cpu_ns: u64,
    /// Exact cycles between entering and leaving the worker loop.
    pub wall: u64,
    /// Cycles waiting for work, spinning or parked.
    pub blocked: u64,
    /// Cycles taking messages off the channel and assembling a batch.
    pub dispatch: u64,
    /// Cycles inside the handler itself.
    pub handler: u64,
    /// The dispatcher's per-batch counter updates, which bracket the handler calls.
    pub bookkeeping: u64,
    /// Items handled.
    pub items: u64,
    /// Worker threads that contributed.
    pub threads: u64,
    /// Involuntary context switches over the run.
    pub nonvoluntary_ctxt_switches: u64,
}

impl WorkerBudget {
    /// Nothing measured.
    pub open spec fn zero() -> WorkerBudget {
        WorkerBudget {
            cpu_ns: 0,
            wall: 0,
            blocked: 0,
            dispatch: 0,
            handler: 0,
            bookkeeping: 0,
            items: 0,
            threads: 0,
            nonvoluntary_ctxt_switches: 0,
        }
    }

    /// Cycles that the busy buckets account for.
    pub open spec fn busy(self) -> int {
        self.handler + self.dispatch + self.bookkeeping
    }

    /// Cycles that the four buckets account for.
    pub open spec fn accounted(self) -> int {
        self.blocked + self.busy()
    }

    /// Another budget can be added without any field running over.
    pub open spec fn has_room_for(self, other: WorkerBudget) -> bool {
        &&& self.cpu_ns + other.cpu_ns <= u64::MAX
        &&& self.wall + other.wall <= u64::MAX
        &&& self.blocked + other.blocked <= u64::MAX
        &&& self.dispatch + other.dispatch <= u64::MAX
        &&& self.handler + other.handler <= u64::MAX
        &&& self.bookkeeping + other.bookkeeping <= u64::MAX
        &&& self.items + other.items <= u64::MAX
        &&& self.threads + other.threads <= u64::MAX
        &&& self.nonvoluntary_ctxt_switches + other.nonvoluntary_ctxt_switches <= u64::MAX
    }

    /// The sum of two budgets: every field is additive.
    pub open spec fn plus(self, other: WorkerBudget) -> WorkerBudget {
        WorkerBudget {
            cpu_ns: (self.cpu_ns + other.cpu_ns) as u64,
            wall: (self.wall + other.wall) as u64,
            blocked: (self.blocked + other.blocked) as u64,
            dispatch: (self.dispatch + other.dispatch) as u64,
            handler: (self.handler + other.handler) as u64,
            bookkeeping: (self.bookkeeping + other.bookkeeping) as u64,
            items: (self.items + other.items) as u64,
            threads: (self.threads + other.threads) as u64,
            nonvoluntary_ctxt_switches: (self.nonvoluntary_ctxt_switches
                + other.nonvoluntary_ctxt_switches) as u64,
        }
    }

    /// Cycles on-CPU while blocked, in billionths, between none and all of them.
    pub open spec fn spun(self, tsc_hz: u64) -> int {
        let on_cpu = self.cpu_ns * tsc_hz - self.busy() * 1_000_000_000;
        if on_cpu < 0 {
            0
        } else if on_cpu > self.blocked * 1_000_000_000 {
            self.blocked * 1_000_000_000
        } else {
            on_cpu
        }
    }

    /// Cycles that the CPU time comes to.
    pub open spec fn on_cpu(self, tsc_hz: u64) -> Ratio {
        Ratio::exact(self.cpu_ns * tsc_hz, 1_000_000_000)
    }

    /// CPU time over wall time.
    pub open spec fn busy_share(self, tsc_hz: u64) -> Ratio {
        Ratio::exact(self.cpu_ns * tsc_hz, self.wall * 1_000_000_000)
    }

    /// CPU time over wall time, times the threads.
    pub open spec fn whole_cores(self, tsc_hz: u64) -> Ratio {
        Ratio::exact(self.cpu_ns * tsc_hz * self.threads, self.wall * 1_000_000_000)
    }

    /// Items per second of CPU time.
    pub open spec fn item_rate(self) -> Ratio {
        Ratio::exact(self.items * 1_000_000_000, self.cpu_ns as int)
    }

    /// Wall time in no bucket, over wall time.
    pub open spec fn missed(self) -> Ratio {
        Ratio::exact(
            datapath_budget::moved_on(self.wall, self.accounted() as u64) as int,
            self.wall as int,
        )
    }

    /// Blocked time spent on-CPU, over blocked time.
    pub open spec fn spin_share(self, tsc_hz: u64) -> Ratio {
        Ratio::exact(self.spun(tsc_hz), self.blocked * 1_000_000_000)
    }

    /// `cpu_ns` in cycles, so that it can be compared with the buckets.
    pub fn cpu_cycles(&self, tsc_hz: u64) -> (cycles: Ratio)
        ensures
            cycles == Ratio::exact(self.cpu_ns * tsc_hz, 1_000_000_000),
            cycles == self.on_cpu(tsc_hz),
    {
        proof {
            datapath_budget::lemma_product_fits(self.cpu_ns, tsc_hz);
        }
        Ratio::of(self.cpu_ns as u128 * tsc_hz as u128, 1_000_000_000)
    }

    /// Mean share of one worker core actually consumed.
    pub fn busy_fraction(&self, tsc_hz: u64) -> (share: Ratio)
        ensures
            share == Ratio::exact(self.cpu_ns * tsc_hz, self.wall * 1_000_000_000),
            share == self.busy_share(tsc_hz),
    {
        proof {
            datapath_budget::lemma_product_fits(self.cpu_ns, tsc_hz);
        }
        Ratio::of(self.cpu_ns as u128 * tsc_hz as u128, self.wall as u128 * 1_000_000_000)
    }

    /// Utilisation as whole cores.
    pub fn cores_busy(&self, tsc_hz: u64) -> (cores: Ratio)
        requires
            self.cpu_ns * tsc_hz * self.threads <= u128::MAX,
        ensures
            cores == Ratio::exact(
                self.cpu_ns * tsc_hz * self.threads,
                self.wall * 1_000_000_000,
            ),
            cores == self.whole_cores(tsc_hz),
    {
        proof {
            datapath_budget::lemma_product_fits(self.cpu_ns, tsc_hz);
        }
        Ratio::of(
            self.cpu_ns as u128 * tsc_hz as u128 * self.threads as u128,
            self.wall as u128 * 1_000_000_000,
        )
    }

    /// Items per second the worker could sustain at 100% of one core. Unlike a utilisation it does
    /// not depend on the offered load.
    pub fn sustainable_item_rate(&self) -> (rate: Ratio)
        ensures
            rate == Ratio::exact(self.items * 1_000_000_000, self.cpu_ns as int),
            rate == self.item_rate(),
    {
        Ratio::of(self.items as u128 * 1_000_000_000, self.cpu_ns as u128)
    }

    /// How far the buckets miss `wall`, as a fraction of it. Zero if the loop has no path that is
    /// not bracketed.
    pub fn residual_fraction(&self) -> (share: Ratio)
        requires
            self.accounted() <= u64::MAX,
        ensures
            share == Ratio::exact(
                datapath_budget::moved_on(self.wall, self.accounted() as u64) as int,
                self.wall as int,
            ),
            share == self.missed(),
    {
        let accounted: u64 = self.blocked + self.dispatch + self.handler + self.bookkeeping;
        Ratio::of(self.wall.saturating_sub(accounted) as u128, self.wall as u128)
    }

    /// Share of `blocked` that was actually on-CPU: spinning rather than sleeping. Clamped to
    /// between zero and one, as the two clocks are independent.
    pub fn spin_fraction(&self, tsc_hz: u64) -> (share: Ratio)
        ensures
            share == Ratio::exact(self.spun(tsc_hz), self.blocked * 1_000_000_000),
            share == self.spin_share(tsc_hz),
    {
        proof {
            datapath_budget::lemma_product_fits(self.cpu_ns, tsc_hz);
        }
        let on_cpu: u128 = self.cpu_ns as u128 * tsc_hz as u128;
        let busy: u128 = (self.handler as u128 + self.dispatch as u128 + self.bookkeeping as u128)
            * 1_000_000_000;
        let blocked: u128 = self.blocked as u128 * 1_000_000_000;
        let spun: u128 = if on_cpu < busy {
            0
        } else if on_cpu - busy > blocked {
            blocked
        } else {
            on_cpu - busy
        };
        Ratio::of(spun, blocked)
    }

    /// Whether another budget can be added without any field running over.
    pub fn can_merge(&self, other: &WorkerBudget) -> (fits: bool)
        ensures
            fits == self.has_room_for(*other),
    {
        self.cpu_ns <= u64::MAX - other.cpu_ns && self.wall <= u64::MAX - other.wall && self.blocked
            <= u64::MAX - other.blocked && self.dispatch <= u64::MAX - other.dispatch
            && self.handler <= u64::MAX - other.handler && self.bookkeeping <= u64::MAX
            - other.bookkeeping && self.items <= u64::MAX - other.items && self.threads <= u64::MAX
            - other.threads && self.nonvoluntary_ctxt_switches <= u64::MAX
            - other.nonvoluntary_ctxt_switches
    }

    /// Fold one thread's budget into a running total.
    fn merge(&mut self, other: &WorkerBudget)
        requires
            old(self).has_room_for(*other),
        ensures
            *final(self) == old(self).plus(*other),
    {
        self.cpu_ns = self.cpu_ns + other.cpu_ns;
        self.wall = self.wall + other.wall;
        self.blocked = self.blocked + other.blocked;
        self.dispatch = self.dispatch + other.dispatch;
        self.handler = self.handler + other.handler;
        self.bookkeeping = self.bookkeeping + other.bookkeeping;
        self.items = self.items + other.items;
        self.threads = self.threads + other.threads;
        self.nonvoluntary_ctxt_switches = self.nonvoluntary_ctxt_switches
            + other.nonvoluntary_ctxt_switches;
    }
}

impl Default for WorkerBudget {
    fn default() -> (budget: WorkerBudget)
        ensures
            budget == WorkerBudget::zero(),
    {
        WorkerBudget {
            cpu_ns: 0,
            wall: 0,
            blocked: 0,
            dispatch: 0,
            handler: 0,
            bookkeeping: 0,
            items: 0,
            threads: 0,
            nonvoluntary_ctxt_switches: 0,
        }
    }
}

/// The spans of a worker loop, chained: each clock reading closes one bucket and opens the next.
#[derive(Debug, Clone, Copy, PartialEq, Eq, Structural)]
pub struct WorkerSpans {
    pub budget: WorkerBudget,
    /// Involuntary context switches at the start.
    pub nonvol_ctxt_start: u64,
    /// Clock reading at the start.
    pub wall_start: u64,
    /// Clock reading that opened the current span.
    pub cursor: u64,
}

impl WorkerSpans {
    /// The spans of a loop entered at clock reading `now`.
    pub open spec fn started(now: u64, switches: u64) -> WorkerSpans {
        WorkerSpans {
            budget: WorkerBudget { threads: 1, ..WorkerBudget::zero() },
            nonvol_ctxt_start: switches,
            wall_start: now,
            cursor: now,
        }
    }

    /// Cycles since the open span began.
    pub open spec fn span(self, now: u64) -> u64 {
        now.wrapping_sub(self.cursor)
    }

    /// The open span fits a bucket.
    pub open spec fn fits(self, bucket: u64, now: u64) -> bool {
        bucket + self.span(now) <= u64::MAX
    }

    /// The spans once the reading `now` has ended a wait.
    pub open spec fn after_blocked(self, now: u64) -> WorkerSpans {
        WorkerSpans {
            budget: WorkerBudget {
                blocked: (self.budget.blocked + self.span(now)) as u64,
                ..self.budget
            },
            cursor: now,
            ..self
        }
    }

    /// The spans once the reading `now` has ended the assembly of a batch.
    pub open spec fn after_dispatch(self, now: u64) -> WorkerSpans {
        WorkerSpans {
            budget: WorkerBudget {
                dispatch: (self.budget.dispatch + self.span(now)) as u64,
                ..self.budget
            },
            cursor: now,
            ..self
        }
    }

    /// The spans once the reading `now` has ended the handling of `items` items.
    pub open spec fn after_handler(self, now: u64, items: u64) -> WorkerSpans {
        WorkerSpans {
            budget: WorkerBudget {
                handler: (self.budget.handler + self.span(now)) as u64,
                items: (self.budget.items + items) as u64,
                ..self.budget
            },
            cursor: now,
            ..self
        }
    }

    /// The spans once the reading `now` has ended the counter updates.
    pub open spec fn after_bookkeeping(self, now: u64) -> WorkerSpans {
        WorkerSpans {
            budget: WorkerBudget {
                bookkeeping: (self.budget.bookkeeping + self.span(now)) as u64,
                ..self.budget
            },
            cursor: now,
            ..self
        }
    }

    /// The budget of a loop left at clock reading `end`.
    pub open spec fn closed(self, end: u64, cpu_ns: u64, switches: u64) -> WorkerBudget {
        WorkerBudget {
            wall: end.wrapping_sub(self.wall_start),
            cpu_ns,
            nonvoluntary_ctxt_switches: datapath_budget::moved_on(
                switches,
                self.nonvol_ctxt_start,
            ),
            ..self.budget
        }
    }

    /// The buckets hold every cycle since the loop was entered.
    pub open spec fn gapless(self) -> bool {
        self.budget.accounted() == self.cursor.wrapping_sub(self.wall_start)
    }

    /// Enter a loop at clock reading `now`.
    pub fn start(now: u64, status: Option<&str>) -> (spans: WorkerSpans)
        ensures
            spans == WorkerSpans::started(
                now,
                thread_cost::switches_in(thread_cost::status_text(status)),
            ),
    {
        let mut budget = WorkerBudget::default();
        budget.threads = 1;
        WorkerSpans {
            budget,
            nonvol_ctxt_start: read_nonvoluntary_ctxt_switches(status),
            wall_start: now,
            cursor: now,
        }
    }

    /// Whether the open span fits a bucket.
    pub fn can_close(&self, bucket: u64, now: u64) -> (fits: bool)
        ensures
            fits == self.fits(bucket, now),
    {
        bucket <= u64::MAX - now.wrapping_sub(self.cursor)
    }

    /// The budget of a loop left at clock reading `end`, having used `cpu_ns` of CPU time.
    pub fn close(&self, end: u64, cpu_ns: u64, status: Option<&str>) -> (budget: WorkerBudget)
        ensures
            budget == self.closed(
                end,
                cpu_ns,
                thread_cost::switches_in(thread_cost::status_text(status)),
            ),
    {
        let mut budget = self.budget;
        budget.wall = end.wrapping_sub(self.wall_start);
        budget.cpu_ns = cpu_ns;
        budget.nonvoluntary_ctxt_switches = read_nonvoluntary_ctxt_switches(status).saturating_sub(
            self.nonvol_ctxt_start,
        );
        budget
    }
}

/// Per-thread accumulator for a worker loop. Clock readings are the caller's; the calls must follow
/// the loop's actual control flow.
#[derive(Debug)]
pub struct WorkerProbe {
    pub spans: WorkerSpans,
    pub cpu_start: ThreadTime,
}

impl WorkerProbe {
    /// Start both clocks, the cycle clock at `now`. Call from inside the worker thread: the CPU
    /// clock is per thread. `status` is what the thread's status file holds.
    pub fn start(now: u64, status: Option<&str>) -> (probe: WorkerProbe)
        ensures
            probe.spans == WorkerSpans::started(
                now,
                thread_cost::switches_in(thread_cost::status_text(status)),
            ),
    {
        let cpu_start = ThreadTime::now();
        WorkerProbe { spans: WorkerSpans::start(now, status), cpu_start }
    }

    /// Close the open span and open the next, returning its length.
    fn split(&mut self, now: u64) -> (span: u64)
        ensures
            span == old(self).spans.span(now),
            final(self).spans == (WorkerSpans { cursor: now, ..old(self).spans }),
            final(self).cpu_start == old(self).cpu_start,
    {
        let span: u64 = now.wrapping_sub(self.spans.cursor);
        self.spans.cursor = now;
        span
    }

    /// Waiting for work is over at clock reading `now`.
    pub fn end_blocked(&mut self, now: u64)
        requires
            old(self).spans.fits(old(self).spans.budget.blocked, now),
        ensures
            final(self).spans == old(self).spans.after_blocked(now),
            final(self).cpu_start == old(self).cpu_start,
    {
        let span: u64 = self.split(now);
        self.spans.budget.blocked = self.spans.budget.blocked + span;
    }

    /// A batch is assembled at clock reading `now`.
    pub fn end_dispatch(&mut self, now: u64)
        requires
            old(self).spans.fits(old(self).spans.budget.dispatch, now),
        ensures
            final(self).spans == old(self).spans.after_dispatch(now),
            final(self).cpu_start == old(self).cpu_start,
    {
        let span: u64 = self.split(now);
        self.spans.budget.dispatch = self.spans.budget.dispatch + span;
    }

    /// The handler has handled `items` items by clock reading `now`.
    pub fn end_handler(&mut self, now: u64, items: u64)
        requires
            old(self).spans.fits(old(self).spans.budget.handler, now),
            old(self).spans.budget.items + items <= u64::MAX,
        ensures
            final(self).spans == old(self).spans.after_handler(now, items),
            final(self).cpu_start == old(self).cpu_start,
    {
        let span: u64 = self.split(now);
        self.spans.budget.handler = self.spans.budget.handler + span;
        self.spans.budget.items = self.spans.budget.items + items;
    }

    /// The counters are updated at clock reading `now`.
    pub fn end_bookkeeping(&mut self, now: u64)
        requires
            old(self).spans.fits(old(self).spans.budget.bookkeeping, now),
        ensures
            final(self).spans == old(self).spans.after_bookkeeping(now),
            final(self).cpu_start == old(self).cpu_start,
    {
        let span: u64 = self.split(now);
        self.spans.budget.bookkeeping = self.spans.budget.bookkeeping + span;
    }

    /// The thread's budget, the loop being left at clock reading `end`. How much CPU time it used
    /// is read from the thread's own clock; everything else follows from the readings given.
    pub fn finish(&self, end: u64, status: Option<&str>) -> (budget: WorkerBudget)
        ensures
            budget == self.spans.closed(
                end,
                budget.cpu_ns,
                thread_cost::switches_in(thread_cost::status_text(status)),
            ),
    {
        let cpu_ns: u64 = cpu_ns_since(&self.cpu_start);
        self.spans.close(end, cpu_ns, status)
    }
}

/// Add one finished worker thread's budget to the total.
pub fn publish_worker_thread(totals: &mut WorkerBudget, b: &WorkerBudget)
    requires
        old(totals).has_room_for(*b),
    ensures
        *final(totals) == old(totals).plus(*b),
{
    totals.merge(b);
}

/// Worker time summed over every worker thread that has exited its loop. `threads` is zero if
/// nothing was instrumented.
pub fn worker_budget(totals: &WorkerBudget) -> (budget: WorkerBudget)
    ensures
        budget == *totals,
{
    *totals
}

/// The buckets are gapless from the start, and every reading that closes a span keeps them so, as
/// long as the loop lasts less than a turn of the clock.
pub proof fn law_buckets_leave_no_gap(s: WorkerSpans, now: u64, switches: u64, items: u64)
    requires
        s.gapless(),
        s.cursor.wrapping_sub(s.wall_start) + s.span(now) <= u64::MAX,
    ensures
        WorkerSpans::started(now, switches).gapless(),
        s.after_blocked(now).gapless(),
        s.after_dispatch(now).gapless(),
        s.after_handler(now, items).gapless(),
        s.after_bookkeeping(now).gapless(),
{
}

/// A loop left right after a span was closed has buckets that sum to its wall time.
pub proof fn law_buckets_sum_to_wall(s: WorkerSpans, cpu_ns: u64, switches: u64)
    requires
        s.gapless(),
    ensures
        s.closed(s.cursor, cpu_ns, switches).accounted() == s.closed(
            s.cursor,
            cpu_ns,
            switches,
        ).wall,
{
}

/// The order in which threads finish does not matter: merging is commutative and associative, and a
/// budget of zero changes nothing.
pub proof fn law_merging_is_order_free(a: WorkerBudget, b: WorkerBudget, c: WorkerBudget)
    requires
        a.has_room_for(b),
        b.has_room_for(c),
        a.plus(b).has_room_for(c),
        a.has_room_for(b.plus(c)),
    ensures
        a.plus(b) == b.plus(a),
        a.plus(b).plus(c) == a.plus(b.plus(c)),
        a.plus(WorkerBudget::zero()) == a,
{
}

/// A worker cannot spin for longer than it was blocked: the share is between zero and one.
pub proof fn law_spin_is_a_share(b: WorkerBudget, tsc_hz: u64)
    ensures
        0 <= b.spun(tsc_hz) <= b.blocked * 1_000_000_000,
{
}

/// The sum of what `field` is in each of several budgets.
pub open spec fn sum_over(budgets: Seq<WorkerBudget>, field: spec_fn(WorkerBudget) -> u64) -> nat
    decreases budgets.len(),
{
    if budgets.len() == 0 {
        0
    } else {
        sum_over(budgets.drop_last(), field) + field(budgets.last()) as nat
    }
}

/// Every sum over the budgets fits in 64 bits.
pub open spec fn sums_fit(budgets: Seq<WorkerBudget>) -> bool {
    &&& sum_over(budgets, |b: WorkerBudget| b.cpu_ns) <= u64::MAX
    &&& sum_over(budgets, |b: WorkerBudget| b.wall) <= u64::MAX
    &&& sum_over(budgets, |b: WorkerBudget| b.blocked) <= u64::MAX
    &&& sum_over(budgets, |b: WorkerBudget| b.dispatch) <= u64::MAX
    &&& sum_over(budgets, |b: WorkerBudget| b.handler) <= u64::MAX
    &&& sum_over(budgets, |b: WorkerBudget| b.bookkeeping) <= u64::MAX
    &&& sum_over(budgets, |b: WorkerBudget| b.items) <= u64::MAX
    &&& sum_over(budgets, |b: WorkerBudget| b.threads) <= u64::MAX
    &&& sum_over(budgets, |b: WorkerBudget| b.nonvoluntary_ctxt_switches) <= u64::MAX
}

/// The total once several threads have finished in turn.
pub open spec fn published_all(total: WorkerBudget, budgets: Seq<WorkerBudget>) -> WorkerBudget
    decreases budgets.len(),
{
    if budgets.len() == 0 {
        total
    } else {
        published_all(total, budgets.drop_last()).plus(budgets.last())
    }
}

/// The total over the threads that have finished is, field by field, the sum over them: CPU time,
/// wall time, every bucket, items, threads and context switches alike. As long as the sums fit
/// there is always room for the next thread.
#[verifier::spinoff_prover]
#[verifier::rlimit(50)]
pub proof fn law_the_total_is_the_sum_over_the_threads(budgets: Seq<WorkerBudget>)
    requires
        sums_fit(budgets),
    ensures
        ({
            let total = published_all(WorkerBudget::zero(), budgets);
            &&& total.cpu_ns == sum_over(budgets, |b: WorkerBudget| b.cpu_ns)
            &&& total.wall == sum_over(budgets, |b: WorkerBudget| b.wall)
            &&& total.blocked == sum_over(budgets, |b: WorkerBudget| b.blocked)
            &&& total.dispatch == sum_over(budgets, |b: WorkerBudget| b.dispatch)
            &&& total.handler == sum_over(budgets, |b: WorkerBudget| b.handler)
            &&& total.bookkeeping == sum_over(budgets, |b: WorkerBudget| b.bookkeeping)
            &&& total.items == sum_over(budgets, |b: WorkerBudget| b.items)
            &&& total.threads == sum_over(budgets, |b: WorkerBudget| b.threads)
            &&& total.nonvoluntary_ctxt_switches == sum_over(
                budgets,
                |b: WorkerBudget| b.nonvoluntary_ctxt_switches,
            )
        }),
        budgets.len() > 0 ==> published_all(
            WorkerBudget::zero(),
            budgets.drop_last(),
        ).has_room_for(budgets.last()),
    decreases budgets.len(),
{
    if budgets.len() > 0 {
        law_the_total_is_the_sum_over_the_threads(budgets.drop_last());
    }
}

/// A budget can be merged exactly if no field of the sum runs over.
pub proof fn law_merging_needs_room_in_every_field(a: WorkerBudget, b: WorkerBudget)
    ensures
        a.has_room_for(b) <==> sums_fit(seq![a, b]),
{
    let both = seq![a, b];
    assert(both.drop_last() =~= seq![a]);
    assert(seq![a].drop_last() =~= Seq::empty());
    reveal_with_fuel(sum_over, 3);
}

/// Each wait, batch, handler call and counter update adds the time since the previous reading to
/// its own bucket, once around the clock at most, and to no other; items are counted with the
/// handler.
pub proof fn law_each_span_goes_to_its_own_bucket(s: WorkerSpans, now: u64, items: u64)
    ensures
        ({
            let lasted = (now - s.cursor) % 0x1_0000_0000_0000_0000;
            let b = s.budget;
            &&& s.fits(b.blocked, now) <==> b.blocked + lasted <= u64::MAX
            &&& b.blocked + lasted <= u64::MAX ==> {
                let a = s.after_blocked(now);
                a.cursor == now && a.wall_start == s.wall_start && a.budget.blocked == b.blocked
                    + lasted && a.budget == (WorkerBudget { blocked: a.budget.blocked, ..b })
            }
            &&& b.dispatch + lasted <= u64::MAX ==> {
                let a = s.after_dispatch(now);
                a.cursor == now && a.wall_start == s.wall_start && a.budget.dispatch == b.dispatch
                    + lasted && a.budget == (WorkerBudget { dispatch: a.budget.dispatch, ..b })
            }
            &&& b.handler + lasted <= u64::MAX && b.items + items <= u64::MAX ==> {
                let a = s.after_handler(now, items);
                a.cursor == now && a.wall_start == s.wall_start && a.budget.handler == b.handler
                    + lasted && a.budget.items == b.items + items && a.budget == (WorkerBudget {
                    handler: a.budget.handler,
                    items: a.budget.items,
                    ..b
                })
            }
            &&& b.bookkeeping + lasted <= u64::MAX ==> {
                let a = s.after_bookkeeping(now);
                a.cursor == now && a.wall_start == s.wall_start && a.budget.bookkeeping
                    == b.bookkeeping + lasted && a.budget == (WorkerBudget {
                    bookkeeping: a.budget.bookkeeping,
                    ..b
                })
            }
        }),
{
}

/// A loop starts as one thread with nothing measured, and lasts from its first reading to its last;
/// the context switches are those since it started, or none if the count went back.
pub proof fn law_a_worker_is_measured_from_start_to_end(
    s: WorkerSpans,
    start: u64,
    before: u64,
    end: u64,
    cpu_ns: u64,
    switches: u64,
)
    ensures
        ({
            let fresh = WorkerSpans::started(start, before);
            &&& fresh.budget == (WorkerBudget { threads: 1, ..WorkerBudget::zero() })
            &&& fresh.wall_start == start && fresh.cursor == start
            &&& fresh.nonvol_ctxt_start == before
        }),
        ({
            let b = s.closed(end, cpu_ns, switches);
            &&& b.wall == (end - s.wall_start) % 0x1_0000_0000_0000_0000
            &&& b.cpu_ns == cpu_ns
            &&& switches >= s.nonvol_ctxt_start ==> b.nonvoluntary_ctxt_switches == switches
                - s.nonvol_ctxt_start
            &&& switches < s.nonvol_ctxt_start ==> b.nonvoluntary_ctxt_switches == 0
            &&& b == (WorkerBudget {
                wall: b.wall,
                cpu_ns: b.cpu_ns,
                nonvoluntary_ctxt_switches: b.nonvoluntary_ctxt_switches,
                ..s.budget
            })
        }),
{
}

/// The share of a core that a worker used is its CPU time over its wall time, both on one clock:
/// one where it was on-CPU throughout. The cores it used are that share for each thread. Where
/// there is no wall time there is no share.
pub proof fn law_utilisation_is_cpu_time_over_wall_time(b: WorkerBudget, tsc_hz: u64)
    requires
        b.cpu_ns * tsc_hz * b.threads <= u128::MAX,
    ensures
        ({
            let share = b.busy_share(tsc_hz);
            let cores = b.whole_cores(tsc_hz);
            &&& share.den > 0 && cores.den > 0
            &&& b.wall > 0 ==> share.num * (b.wall * 1_000_000_000) == b.cpu_ns * tsc_hz
                * share.den
            &&& b.wall > 0 && b.cpu_ns * tsc_hz == b.wall * 1_000_000_000 ==> share.num
                == share.den
            &&& b.wall == 0 ==> share.num == 0 && cores.num == 0
            &&& cores.num * share.den == share.num * b.threads * cores.den
        }),
        ({
            let cycles = b.on_cpu(tsc_hz);
            cycles.den > 0 && cycles.num * 1_000_000_000 == b.cpu_ns * tsc_hz * cycles.den
        }),
{
    let p = b.cpu_ns * tsc_hz;
    let d = b.wall * 1_000_000_000;
    datapath_budget::lemma_product_fits(b.cpu_ns, tsc_hz);
    assert(0 <= p * b.threads) by (nonlinear_arith)
        requires
            0 <= p,
            0 <= b.threads,
    ;
    assert((p * b.threads) * d == p * b.threads * d) by (nonlinear_arith);
    assert(0 * b.threads * b.whole_cores(tsc_hz).den == 0) by (nonlinear_arith);
}

/// The rate that a worker can sustain is its items over its CPU seconds, and does not depend on how
/// long it was parked.
pub proof fn law_the_item_rate_is_per_cpu_second(b: WorkerBudget, wall: u64, blocked: u64)
    ensures
        ({
            let rate = b.item_rate();
            &&& rate.den > 0
            &&& b.cpu_ns > 0 ==> rate.num * b.cpu_ns == b.items * 1_000_000_000 * rate.den
            &&& b.cpu_ns == 0 ==> rate.num == 0
            &&& rate == (WorkerBudget { wall, blocked, ..b }).item_rate()
        }),
{
}

/// Wall time in no bucket is what the four buckets leave of it: nothing for a loop without a gap.
pub proof fn law_what_is_missed_is_in_no_bucket(b: WorkerBudget)
    requires
        b.blocked + b.dispatch + b.handler + b.bookkeeping <= u64::MAX,
    ensures
        ({
            let sum = b.blocked + b.dispatch + b.handler + b.bookkeeping;
            let missed = b.missed();
            &&& b.accounted() == sum
            &&& missed.den > 0
            &&& b.wall > 0 && sum <= b.wall ==> missed.num * b.wall == (b.wall - sum) * missed.den
            &&& sum >= b.wall ==> missed.num == 0
        }),
{
    assert(0 * b.missed().den == 0);
}

/// Blocked time on-CPU is what is left of the CPU time once the busy buckets are taken off, as far
/// as it lies between nothing and all of the blocked time. The shares of a worker that never slept
/// and of one that never spun are one and nothing.
pub proof fn law_spinning_is_cpu_time_that_no_bucket_explains(b: WorkerBudget, tsc_hz: u64)
    ensures
        ({
            let cpu = b.cpu_ns * tsc_hz;
            let busy = (b.handler + b.dispatch + b.bookkeeping) * 1_000_000_000;
            let blocked = b.blocked * 1_000_000_000;
            let share = b.spin_share(tsc_hz);
            &&& busy <= cpu <= busy + blocked ==> b.spun(tsc_hz) + busy == cpu
            &&& cpu <= busy ==> b.spun(tsc_hz) == 0
            &&& cpu >= busy + blocked ==> b.spun(tsc_hz) == blocked
            &&& share.den > 0 && share.num <= share.den
            &&& b.blocked > 0 ==> share.num * blocked == b.spun(tsc_hz) * share.den
            &&& b.blocked == 0 ==> share.num == 0
        }),
{
}

} // verus!
