//! Cycle accounting for the RX datapath.
//!
//! Every TSC tick on an RX lcore is attributed to (1) polling a queue that returned packets,
//! (2) polling an empty queue, (3) the per-mbuf pipeline, and (4) timer-wheel maintenance.
//!
//! Cycle measurement is sampled; the cheap counters stay exact. Each RX core publishes into the
//! shared totals periodically from its poll loop rather than only at exit, so a monitor can log a
//! duty cycle beside each interval's ingress rate.

use crate::ratio::Ratio;
use crate::stats::{add_datapath_busy, DatapathCounters};
use vstd::prelude::*;

verus! {

/// Where every TSC tick on the RX lcores went, summed across cores.
///
/// The four buckets are disjoint and sum to `sampled_wall`. Fractions are taken within the sample,
/// where they are unbiased; `wall` supplies the absolute scale.
#[derive(Debug, Clone, Copy, PartialEq, Eq, Structural)]
pub struct DatapathBudget {
    /// Sampled cycles in bursts that returned at least one packet.
    pub poll_busy: u64,
    /// Sampled cycles in bursts that returned nothing: the spare-capacity pool.
    pub poll_idle: u64,
    /// Sampled cycles in the per-mbuf pipeline.
    pub pipeline: u64,
    /// Sampled cycles in timer-wheel maintenance.
    pub maint: u64,
    /// Total cycles spanned by the sampled iterations. The four buckets above sum to this by
    /// construction, which is what [`DatapathBudget::residual_fraction`] checks.
    pub sampled_wall: u64,
    /// Loop iterations that were sampled.
    pub sampled_iters: u64,
    /// Exact total cycles between entering and leaving the poll loop, across all cores.
    pub wall: u64,
    /// Exact count of bursts that returned at least one packet.
    pub bursts: u64,
    /// Exact count of bursts that returned nothing.
    pub idle_polls: u64,
    /// Exact count of packets handed to the pipeline. A packet that the flow table drops is not.
    pub recv_pkts: u64,
    /// Number of RX cores that contributed to this budget.
    pub cores: u64,
    /// Clock reads the instrumentation itself made.
    pub rdtsc_reads: u64,
    /// One in every `sample_stride` loop iterations was attributed. 1 means exact; 0 means cycle
    /// attribution was disabled: the four buckets are empty, the exact counters are still valid.
    pub sample_stride: u64,
    /// Calibrated cost of one clock read, in cycles, already subtracted from every bucket.
    pub rdtsc_cost: u64,
}

/// How far a counter has moved on from an earlier reading; zero if it went back.
pub open spec fn moved_on(now: u64, before: u64) -> u64 {
    if now >= before {
        (now - before) as u64
    } else {
        0
    }
}

/// The larger of a stride and one.
pub open spec fn effective_stride(stride: u64) -> u64 {
    if stride == 0 {
        1
    } else {
        stride
    }
}

impl DatapathBudget {
    /// Nothing measured yet.
    pub open spec fn zero() -> DatapathBudget {
        DatapathBudget {
            poll_busy: 0,
            poll_idle: 0,
            pipeline: 0,
            maint: 0,
            sampled_wall: 0,
            sampled_iters: 0,
            wall: 0,
            bursts: 0,
            idle_polls: 0,
            recv_pkts: 0,
            cores: 0,
            rdtsc_reads: 0,
            sample_stride: 0,
            rdtsc_cost: 0,
        }
    }

    /// Cycles of packet work in the sample.
    pub open spec fn work(self) -> int {
        self.poll_busy + self.pipeline + self.maint
    }

    /// Cycles that the four buckets account for.
    pub open spec fn accounted(self) -> int {
        self.work() + self.poll_idle
    }

    /// Every cumulative counter is at least what it was in `earlier`.
    pub open spec fn follows(self, earlier: DatapathBudget) -> bool {
        &&& self.poll_busy >= earlier.poll_busy
        &&& self.poll_idle >= earlier.poll_idle
        &&& self.pipeline >= earlier.pipeline
        &&& self.maint >= earlier.maint
        &&& self.sampled_wall >= earlier.sampled_wall
        &&& self.sampled_iters >= earlier.sampled_iters
        &&& self.wall >= earlier.wall
        &&& self.bursts >= earlier.bursts
        &&& self.idle_polls >= earlier.idle_polls
        &&& self.recv_pkts >= earlier.recv_pkts
        &&& self.rdtsc_reads >= earlier.rdtsc_reads
    }

    /// Idle polls over the sample.
    pub open spec fn idle_share(self) -> Ratio {
        Ratio::exact(self.poll_idle as int, self.sampled_wall as int)
    }

    /// Packet work over the sample.
    pub open spec fn busy_share(self) -> Ratio {
        Ratio::exact(self.work(), self.sampled_wall as int)
    }

    /// Busy polls over the sample.
    pub open spec fn poll_busy_share(self) -> Ratio {
        Ratio::exact(self.poll_busy as int, self.sampled_wall as int)
    }

    /// The pipeline over the sample.
    pub open spec fn pipeline_share(self) -> Ratio {
        Ratio::exact(self.pipeline as int, self.sampled_wall as int)
    }

    /// Maintenance over the sample.
    pub open spec fn maint_share(self) -> Ratio {
        Ratio::exact(self.maint as int, self.sampled_wall as int)
    }

    /// The idle share of every core.
    pub open spec fn idle_cores(self) -> Ratio {
        Ratio::exact(self.poll_idle * self.cores, self.sampled_wall as int)
    }

    /// The idle share of the run.
    pub open spec fn idle_cycles(self) -> Ratio {
        Ratio::exact(self.poll_idle * self.wall, self.sampled_wall as int)
    }

    /// Cycles of an idle poll.
    pub open spec fn idle_poll_cost(self) -> Ratio {
        Ratio::exact(
            self.poll_idle * effective_stride(self.sample_stride),
            self.idle_polls as int,
        )
    }

    /// The sample in no bucket, over the sample.
    pub open spec fn residual(self) -> Ratio {
        Ratio::exact(
            moved_on(self.sampled_wall, self.accounted() as u64) as int,
            self.sampled_wall as int,
        )
    }

    /// Clock reads over the run.
    pub open spec fn instrumentation(self, cycles_per_read: Ratio) -> Ratio {
        Ratio::exact(self.rdtsc_reads * cycles_per_read.num, self.wall * cycles_per_read.den)
    }

    /// The sample over the run.
    pub open spec fn sampled(self) -> Ratio {
        Ratio::exact(self.sampled_wall as int, self.wall as int)
    }

    /// Fraction of the RX cores' cycles spent polling an empty queue.
    pub fn idle_fraction(&self) -> (r: Ratio)
        ensures
            r == Ratio::exact(self.poll_idle as int, self.sampled_wall as int),
            r == self.idle_share(),
    {
        self.fraction(self.poll_idle)
    }

    /// Fraction of the RX cores' cycles spent doing packet work.
    pub fn busy_fraction(&self) -> (r: Ratio)
        requires
            self.work() <= u64::MAX,
        ensures
            r == Ratio::exact(self.work(), self.sampled_wall as int),
            r == self.busy_share(),
    {
        self.fraction(self.poll_busy + self.pipeline + self.maint)
    }

    /// Fraction of the RX cores' cycles spent in bursts that returned packets.
    pub fn poll_busy_fraction(&self) -> (r: Ratio)
        ensures
            r == Ratio::exact(self.poll_busy as int, self.sampled_wall as int),
            r == self.poll_busy_share(),
    {
        self.fraction(self.poll_busy)
    }

    /// Fraction of the RX cores' cycles spent in the per-mbuf pipeline.
    pub fn pipeline_fraction(&self) -> (r: Ratio)
        ensures
            r == Ratio::exact(self.pipeline as int, self.sampled_wall as int),
            r == self.pipeline_share(),
    {
        self.fraction(self.pipeline)
    }

    /// Fraction of the RX cores' cycles spent in timer-wheel maintenance.
    pub fn maint_fraction(&self) -> (r: Ratio)
        ensures
            r == Ratio::exact(self.maint as int, self.sampled_wall as int),
            r == self.maint_share(),
    {
        self.fraction(self.maint)
    }

    /// The freed-cycle pool expressed as whole cores.
    pub fn cores_idle(&self) -> (r: Ratio)
        ensures
            r == Ratio::exact(self.poll_idle * self.cores, self.sampled_wall as int),
            r == self.idle_cores(),
    {
        proof {
            lemma_product_fits(self.poll_idle, self.cores);
        }
        Ratio::of(self.poll_idle as u128 * self.cores as u128, self.sampled_wall as u128)
    }

    /// Estimated total idle-poll cycles across the whole run, scaling the sample up by `wall`.
    pub fn est_poll_idle_cycles(&self) -> (r: Ratio)
        ensures
            r == Ratio::exact(self.poll_idle * self.wall, self.sampled_wall as int),
            r == self.idle_cycles(),
    {
        proof {
            lemma_product_fits(self.poll_idle, self.wall);
        }
        Ratio::of(self.poll_idle as u128 * self.wall as u128, self.sampled_wall as u128)
    }

    /// Mean cycles per empty poll: sampled idle cycles over the idle polls those samples covered,
    /// estimated as `idle_polls / sample_stride`.
    pub fn cycles_per_idle_poll(&self) -> (r: Ratio)
        ensures
            r == Ratio::exact(
                self.poll_idle * effective_stride(self.sample_stride),
                self.idle_polls as int,
            ),
            r == self.idle_poll_cost(),
    {
        let stride: u64 = if self.sample_stride == 0 {
            1
        } else {
            self.sample_stride
        };
        proof {
            lemma_product_fits(self.poll_idle, stride);
        }
        Ratio::of(self.poll_idle as u128 * stride as u128, self.idle_polls as u128)
    }

    /// How far the four buckets miss `sampled_wall`, as a fraction of it.
    pub fn residual_fraction(&self) -> (r: Ratio)
        requires
            self.accounted() <= u64::MAX,
        ensures
            r == Ratio::exact(
                moved_on(self.sampled_wall, self.accounted() as u64) as int,
                self.sampled_wall as int,
            ),
            r == self.residual(),
    {
        let accounted: u64 = self.poll_busy + self.poll_idle + self.pipeline + self.maint;
        self.fraction(self.sampled_wall.saturating_sub(accounted))
    }

    /// Share of `wall` consumed by the instrumentation's own clock reads, given the calibrated
    /// per-read cost.
    pub fn instrumentation_fraction(&self, cycles_per_read: Ratio) -> (r: Ratio)
        requires
            cycles_per_read.wf(),
            cycles_per_read.num <= u64::MAX,
            cycles_per_read.den <= u64::MAX,
        ensures
            r == Ratio::exact(self.rdtsc_reads * cycles_per_read.num, self.wall * cycles_per_read.den),
            r == self.instrumentation(cycles_per_read),
    {
        proof {
            lemma_product_fits(self.rdtsc_reads, cycles_per_read.num as u64);
            lemma_product_fits(self.wall, cycles_per_read.den as u64);
        }
        Ratio::of(
            self.rdtsc_reads as u128 * cycles_per_read.num,
            self.wall as u128 * cycles_per_read.den,
        )
    }

    /// Share of the run that was attributed.
    pub fn sampled_share(&self) -> (r: Ratio)
        ensures
            r == Ratio::exact(self.sampled_wall as int, self.wall as int),
            r == self.sampled(),
    {
        Ratio::of(self.sampled_wall as u128, self.wall as u128)
    }

    fn fraction(&self, part: u64) -> (r: Ratio)
        ensures
            r == Ratio::exact(part as int, self.sampled_wall as int),
    {
        Ratio::of(part as u128, self.sampled_wall as u128)
    }
}

impl Default for DatapathBudget {
    fn default() -> (budget: DatapathBudget)
        ensures
            budget == DatapathBudget::zero(),
    {
        DatapathBudget {
            poll_busy: 0,
            poll_idle: 0,
            pipeline: 0,
            maint: 0,
            sampled_wall: 0,
            sampled_iters: 0,
            wall: 0,
            bursts: 0,
            idle_polls: 0,
            recv_pkts: 0,
            cores: 0,
            rdtsc_reads: 0,
            sample_stride: 0,
            rdtsc_cost: 0,
        }
    }
}

/// The budget summed over every RX core, as the cores publish it.
///
/// Additions wrap at 64 bits.
#[derive(Debug, Clone, Copy, PartialEq, Eq, Structural)]
pub struct BudgetTotals {
    pub poll_busy: u64,
    pub poll_idle: u64,
    pub pipeline: u64,
    pub maint: u64,
    pub wall: u64,
    pub bursts: u64,
    pub idle_polls: u64,
    pub cores: u64,
    pub rdtsc_reads: u64,
    pub sampled_wall: u64,
    pub sampled_iters: u64,
    pub sample_stride: u64,
    pub rdtsc_cost: u64,
}

impl BudgetTotals {
    /// What the totals are before any core has published.
    pub open spec fn initial() -> BudgetTotals {
        BudgetTotals {
            poll_busy: 0,
            poll_idle: 0,
            pipeline: 0,
            maint: 0,
            wall: 0,
            bursts: 0,
            idle_polls: 0,
            cores: 0,
            rdtsc_reads: 0,
            sampled_wall: 0,
            sampled_iters: 0,
            sample_stride: 1,
            rdtsc_cost: 0,
        }
    }

    /// The totals after a core that had published `before` publishes `now`.
    pub open spec fn after_publish(self, now: DatapathBudget, before: DatapathBudget) -> BudgetTotals {
        BudgetTotals {
            poll_busy: self.poll_busy.wrapping_add(moved_on(now.poll_busy, before.poll_busy)),
            poll_idle: self.poll_idle.wrapping_add(moved_on(now.poll_idle, before.poll_idle)),
            pipeline: self.pipeline.wrapping_add(moved_on(now.pipeline, before.pipeline)),
            maint: self.maint.wrapping_add(moved_on(now.maint, before.maint)),
            wall: self.wall.wrapping_add(moved_on(now.wall, before.wall)),
            bursts: self.bursts.wrapping_add(moved_on(now.bursts, before.bursts)),
            idle_polls: self.idle_polls.wrapping_add(moved_on(now.idle_polls, before.idle_polls)),
            cores: self.cores,
            rdtsc_reads: self.rdtsc_reads.wrapping_add(
                moved_on(now.rdtsc_reads, before.rdtsc_reads),
            ),
            sampled_wall: self.sampled_wall.wrapping_add(
                moved_on(now.sampled_wall, before.sampled_wall),
            ),
            sampled_iters: self.sampled_iters.wrapping_add(
                moved_on(now.sampled_iters, before.sampled_iters),
            ),
            sample_stride: now.sample_stride,
            rdtsc_cost: now.rdtsc_cost,
        }
    }

    /// The budget that a reader sees.
    pub open spec fn seen_with(self, counters: DatapathCounters) -> DatapathBudget {
        DatapathBudget {
            poll_busy: self.poll_busy,
            poll_idle: self.poll_idle,
            pipeline: self.pipeline,
            maint: self.maint,
            sampled_wall: self.sampled_wall,
            sampled_iters: self.sampled_iters,
            wall: self.wall,
            bursts: self.bursts,
            idle_polls: self.idle_polls,
            recv_pkts: counters.busy_pkts,
            cores: self.cores,
            rdtsc_reads: self.rdtsc_reads,
            sample_stride: self.sample_stride,
            rdtsc_cost: self.rdtsc_cost,
        }
    }
}

impl Default for BudgetTotals {
    fn default() -> (totals: BudgetTotals)
        ensures
            totals == BudgetTotals::initial(),
    {
        BudgetTotals {
            poll_busy: 0,
            poll_idle: 0,
            pipeline: 0,
            maint: 0,
            wall: 0,
            bursts: 0,
            idle_polls: 0,
            cores: 0,
            rdtsc_reads: 0,
            sampled_wall: 0,
            sampled_iters: 0,
            sample_stride: 1,
            rdtsc_cost: 0,
        }
    }
}

/// The busy cycles that one publication stands for: the packet work since the last one, scaled by
/// the stride because packets are counted exactly but cycles are sampled. Caps at 64 bits.
pub open spec fn scaled_work(now: DatapathBudget, before: DatapathBudget) -> u64 {
    let work = moved_on(now.work() as u64, before.work() as u64) * effective_stride(
        now.sample_stride,
    );
    if work <= u64::MAX {
        work as u64
    } else {
        u64::MAX
    }
}

/// The shared counters after a core that had published `before` publishes `now`.
pub open spec fn counters_after_publish(
    counters: DatapathCounters,
    now: DatapathBudget,
    before: DatapathBudget,
) -> DatapathCounters {
    counters.plus_busy(scaled_work(now, before), moved_on(now.recv_pkts, before.recv_pkts))
}

/// Publish one RX core's cycle budget.
///
/// `running` is the core's cumulative budget; `published` is what was last pushed to the totals.
/// Only the difference is added, so this can be called periodically from the poll loop.
/// `published` is updated in place. The core count is left alone: because this is called
/// repeatedly per core, counting here would count publications.
pub fn publish_datapath_delta(
    totals: &mut BudgetTotals,
    counters: &mut DatapathCounters,
    running: &DatapathBudget,
    published: &mut DatapathBudget,
)
    requires
        running.work() <= u64::MAX,
        old(published).work() <= u64::MAX,
    ensures
        *final(totals) == old(totals).after_publish(*running, *old(published)),
        *final(counters) == counters_after_publish(*old(counters), *running, *old(published)),
        *final(published) == *running,
{
    totals.poll_busy = totals.poll_busy.wrapping_add(
        running.poll_busy.saturating_sub(published.poll_busy),
    );
    totals.poll_idle = totals.poll_idle.wrapping_add(
        running.poll_idle.saturating_sub(published.poll_idle),
    );
    totals.pipeline = totals.pipeline.wrapping_add(
        running.pipeline.saturating_sub(published.pipeline),
    );
    totals.maint = totals.maint.wrapping_add(running.maint.saturating_sub(published.maint));
    totals.wall = totals.wall.wrapping_add(running.wall.saturating_sub(published.wall));
    totals.bursts = totals.bursts.wrapping_add(running.bursts.saturating_sub(published.bursts));
    totals.idle_polls = totals.idle_polls.wrapping_add(
        running.idle_polls.saturating_sub(published.idle_polls),
    );
    totals.rdtsc_reads = totals.rdtsc_reads.wrapping_add(
        running.rdtsc_reads.saturating_sub(published.rdtsc_reads),
    );
    totals.sampled_wall = totals.sampled_wall.wrapping_add(
        running.sampled_wall.saturating_sub(published.sampled_wall),
    );
    totals.sampled_iters = totals.sampled_iters.wrapping_add(
        running.sampled_iters.saturating_sub(published.sampled_iters),
    );
    // Stored unconditionally, zero included: a zero stride says that attribution is disabled, and
    // suppressing it would report such a run as if it had been sampled exactly.
    totals.sample_stride = running.sample_stride;
    totals.rdtsc_cost = running.rdtsc_cost;

    let work: u64 = (running.poll_busy + running.pipeline + running.maint).saturating_sub(
        published.poll_busy + published.pipeline + published.maint,
    );
    let stride: u64 = if running.sample_stride == 0 {
        1
    } else {
        running.sample_stride
    };
    proof {
        lemma_product_fits(work, stride);
    }
    let scaled: u128 = work as u128 * stride as u128;
    let cycles: u64 = if scaled <= u64::MAX as u128 {
        scaled as u64
    } else {
        u64::MAX
    };
    let pkts: u64 = running.recv_pkts.saturating_sub(published.recv_pkts);
    add_datapath_busy(counters, cycles, pkts);

    *published = *running;
}

/// Declare how many RX cores contribute to the budget. Set once at startup.
pub fn set_datapath_cores(totals: &mut BudgetTotals, n: u64)
    ensures
        *final(totals) == (BudgetTotals { cores: n, ..*old(totals) }),
{
    totals.cores = n;
}

/// The cycle budget summed over every RX core, including cores still running.
pub fn datapath_budget(totals: &BudgetTotals, counters: &DatapathCounters) -> (budget:
    DatapathBudget)
    ensures
        budget == totals.seen_with(*counters),
{
    DatapathBudget {
        poll_busy: totals.poll_busy,
        poll_idle: totals.poll_idle,
        pipeline: totals.pipeline,
        maint: totals.maint,
        sampled_wall: totals.sampled_wall,
        sampled_iters: totals.sampled_iters,
        wall: totals.wall,
        bursts: totals.bursts,
        idle_polls: totals.idle_polls,
        recv_pkts: counters.busy_pkts,
        cores: totals.cores,
        rdtsc_reads: totals.rdtsc_reads,
        sample_stride: totals.sample_stride,
        rdtsc_cost: totals.rdtsc_cost,
    }
}

/// Sum of the wrapping distances between the two readings of each pair.
pub open spec fn sum_of_spans(pairs: Seq<(u64, u64)>) -> nat
    decreases pairs.len(),
{
    if pairs.len() == 0 {
        0
    } else {
        sum_of_spans(pairs.drop_last()) + pairs.last().1.wrapping_sub(pairs.last().0) as nat
    }
}

/// Mean of the wrapping distances between the two readings of each pair.
pub open spec fn mean_span(pairs: Seq<(u64, u64)>) -> Ratio {
    Ratio::exact(sum_of_spans(pairs) as int, pairs.len() as int)
}

/// Mean cost of one clock read, in cycles, from back-to-back pairs of readings; zero if there are
/// none.
pub fn measure_rdtsc_overhead(pairs: &Vec<(u64, u64)>) -> (mean: Ratio)
    requires
        sum_of_spans(pairs@) <= u64::MAX,
    ensures
        mean == Ratio::exact(sum_of_spans(pairs@) as int, pairs@.len() as int),
        mean == mean_span(pairs@),
{
    // The deltas are summed rather than the whole loop timed, so that the result includes the
    // pair's own latency the same way the instrumented loop pays for it.
    let mut total: u64 = 0;
    let mut i: usize = 0;
    while i < pairs.len()
        invariant
            i <= pairs@.len(),
            total == sum_of_spans(pairs@.take(i as int)),
            sum_of_spans(pairs@) <= u64::MAX,
        decreases pairs@.len() - i,
    {
        proof {
            assert(pairs@.take(i + 1).drop_last() =~= pairs@.take(i as int));
            lemma_spans_grow(pairs@, i + 1);
        }
        total = total + pairs[i].1.wrapping_sub(pairs[i].0);
        i = i + 1;
    }
    proof {
        assert(pairs@.take(i as int) =~= pairs@);
    }
    Ratio::of(total as u128, pairs.len() as u128)
}

proof fn lemma_spans_grow(pairs: Seq<(u64, u64)>, i: int)
    requires
        0 <= i <= pairs.len(),
    ensures
        sum_of_spans(pairs.take(i)) <= sum_of_spans(pairs),
    decreases pairs.len() - i,
{
    if i < pairs.len() {
        lemma_spans_grow(pairs, i + 1);
        assert(pairs.take(i + 1).drop_last() =~= pairs.take(i));
    } else {
        assert(pairs.take(i) =~= pairs);
    }
}

/// Publishing a budget that has not moved adds nothing.
pub proof fn law_republishing_adds_nothing(
    totals: BudgetTotals,
    counters: DatapathCounters,
    budget: DatapathBudget,
)
    ensures
        totals.after_publish(budget, budget) == (BudgetTotals {
            sample_stride: budget.sample_stride,
            rdtsc_cost: budget.rdtsc_cost,
            ..totals
        }),
        counters_after_publish(counters, budget, budget) == counters,
{
    assert(0 * effective_stride(budget.sample_stride) == 0) by (nonlinear_arith);
}

/// Publishing in steps is publishing at once: for a core whose counters only grow, two
/// publications leave the cycle totals and the packet count where one of the later budget would
/// have, and the busy cycles too if the stride stays the same and the scaled work fits.
pub proof fn law_publications_add_up(
    totals: BudgetTotals,
    counters: DatapathCounters,
    first: DatapathBudget,
    second: DatapathBudget,
    third: DatapathBudget,
)
    requires
        second.follows(first),
        third.follows(second),
    ensures
        totals.after_publish(second, first).after_publish(third, second) == totals.after_publish(
            third,
            first,
        ),
        counters_after_publish(
            counters_after_publish(counters, second, first),
            third,
            second,
        ).busy_pkts == counters_after_publish(counters, third, first).busy_pkts,
        ({
            &&& second.sample_stride == third.sample_stride
            &&& third.work() <= u64::MAX
            &&& (third.work() - first.work()) * effective_stride(third.sample_stride) <= u64::MAX
        }) ==> counters_after_publish(
            counters_after_publish(counters, second, first),
            third,
            second,
        ) == counters_after_publish(counters, third, first),
{
    let stride = effective_stride(third.sample_stride) as int;
    let a = second.work() - first.work();
    let b = third.work() - second.work();
    assert((a + b) * stride == a * stride + b * stride) by (nonlinear_arith);
    assert(a * stride >= 0 && b * stride >= 0) by (nonlinear_arith)
        requires
            a >= 0,
            b >= 0,
            stride > 0,
    ;
}

/// A core that starts from nothing published adds exactly its own budget to the totals, whatever
/// the others have added: the reading rises by the core's counters, and the core count does not
/// move.
pub proof fn law_first_publication_adds_the_budget(totals: BudgetTotals, budget: DatapathBudget)
    ensures
        ({
            let after = totals.after_publish(budget, DatapathBudget::zero());
            &&& after.poll_busy == totals.poll_busy.wrapping_add(budget.poll_busy)
            &&& after.poll_idle == totals.poll_idle.wrapping_add(budget.poll_idle)
            &&& after.pipeline == totals.pipeline.wrapping_add(budget.pipeline)
            &&& after.maint == totals.maint.wrapping_add(budget.maint)
            &&& after.sampled_wall == totals.sampled_wall.wrapping_add(budget.sampled_wall)
            &&& after.sampled_iters == totals.sampled_iters.wrapping_add(budget.sampled_iters)
            &&& after.wall == totals.wall.wrapping_add(budget.wall)
            &&& after.bursts == totals.bursts.wrapping_add(budget.bursts)
            &&& after.idle_polls == totals.idle_polls.wrapping_add(budget.idle_polls)
            &&& after.rdtsc_reads == totals.rdtsc_reads.wrapping_add(budget.rdtsc_reads)
            &&& after.cores == totals.cores
        }),
{
}

/// Where the four buckets sum to `sampled_wall`, the idle and the busy fraction make up one, and
/// the residual is zero.
pub proof fn law_fractions_partition(b: DatapathBudget)
    requires
        b.accounted() == b.sampled_wall,
        b.sampled_wall > 0,
    ensures
        ({
            let idle = Ratio::exact(b.poll_idle as int, b.sampled_wall as int);
            let busy = Ratio::exact(b.work(), b.sampled_wall as int);
            &&& idle.den == busy.den == b.sampled_wall
            &&& idle.num + busy.num == b.sampled_wall
        }),
        Ratio::exact(
            moved_on(b.sampled_wall, b.accounted() as u64) as int,
            b.sampled_wall as int,
        ).num == 0,
{
}

pub proof fn lemma_product_fits(a: u64, b: u64)
    ensures
        0 <= a * b <= u128::MAX,
{
    assert(0 <= a * b <= 0xffff_ffff_ffff_ffff * 0xffff_ffff_ffff_ffff) by (nonlinear_arith)
        requires
            0 <= a <= 0xffff_ffff_ffff_ffff,
            0 <= b <= 0xffff_ffff_ffff_ffff,
    ;
}

/// Each share is its bucket over the sample, and nothing where there is no sample.
pub proof fn law_a_share_is_its_bucket_over_the_sample(b: DatapathBudget)
    requires
        b.poll_busy + b.pipeline + b.maint <= u64::MAX,
    ensures
        ({
            let whole = b.sampled_wall;
            &&& b.idle_share().den > 0 && b.busy_share().den > 0 && b.poll_busy_share().den > 0
            &&& b.pipeline_share().den > 0 && b.maint_share().den > 0
            &&& whole > 0 ==> {
                &&& b.idle_share().num * whole == b.poll_idle * b.idle_share().den
                &&& b.poll_busy_share().num * whole == b.poll_busy * b.poll_busy_share().den
                &&& b.pipeline_share().num * whole == b.pipeline * b.pipeline_share().den
                &&& b.maint_share().num * whole == b.maint * b.maint_share().den
                &&& b.busy_share().num * whole == (b.poll_busy + b.pipeline + b.maint)
                    * b.busy_share().den
            }
            &&& whole == 0 ==> {
                &&& b.idle_share().num == 0 && b.busy_share().num == 0
                &&& b.poll_busy_share().num == 0 && b.pipeline_share().num == 0
                &&& b.maint_share().num == 0
            }
        }),
{
}

/// Where the four buckets sum to the sample, the idle and the busy share make up one, the busy
/// share is made up of its three parts, and there is no residual. In general the residual is what
/// the buckets leave of the sample.
pub proof fn law_shares_make_up_one(b: DatapathBudget)
    requires
        b.sampled_wall > 0,
        b.poll_busy + b.poll_idle + b.pipeline + b.maint <= b.sampled_wall,
    ensures
        ({
            let sum = b.poll_busy + b.poll_idle + b.pipeline + b.maint;
            let whole = b.sampled_wall;
            &&& b.idle_share().den == whole && b.busy_share().den == whole
            &&& b.poll_busy_share().den == whole && b.pipeline_share().den == whole
            &&& b.maint_share().den == whole && b.residual().den == whole
            &&& b.poll_busy_share().num + b.pipeline_share().num + b.maint_share().num
                == b.busy_share().num
            &&& b.idle_share().num + b.busy_share().num + b.residual().num == whole
            &&& b.residual().num == whole - sum
        }),
{
}

/// The idle cores are the idle share of every core, and the idle cycles the idle share of the run.
pub proof fn law_idle_cores_and_cycles_scale_the_idle_share(b: DatapathBudget)
    ensures
        ({
            let share = b.idle_share();
            &&& b.idle_cores().den > 0 && b.idle_cycles().den > 0
            &&& b.idle_cores().num * share.den == share.num * b.cores * b.idle_cores().den
            &&& b.idle_cycles().num * share.den == share.num * b.wall * b.idle_cycles().den
        }),
{
    lemma_product_fits(b.poll_idle, b.cores);
    lemma_product_fits(b.poll_idle, b.wall);
    assert(0 * b.cores * b.idle_cores().den == 0) by (nonlinear_arith);
    assert(0 * b.wall * b.idle_cycles().den == 0) by (nonlinear_arith);
}

/// An idle poll costs the sampled idle cycles, scaled up by the stride, over the idle polls; a
/// stride of zero scales by one.
pub proof fn law_idle_cycles_are_spread_over_the_idle_polls(b: DatapathBudget)
    ensures
        ({
            let cost = b.idle_poll_cost();
            let stride = if b.sample_stride == 0 {
                1
            } else {
                b.sample_stride as int
            };
            &&& cost.den > 0
            &&& b.idle_polls > 0 ==> cost.num * b.idle_polls == b.poll_idle * stride * cost.den
            &&& b.idle_polls == 0 ==> cost.num == 0
        }),
{
    lemma_product_fits(b.poll_idle, effective_stride(b.sample_stride));
}

/// The instrumentation's share is the reads times their cost over the run, and the sampled share
/// the sample over the run.
pub proof fn law_overheads_are_shares_of_the_run(b: DatapathBudget, cost: Ratio)
    requires
        cost.wf(),
        cost.num <= u64::MAX,
        cost.den <= u64::MAX,
    ensures
        ({
            let r = b.instrumentation(cost);
            &&& r.den > 0
            &&& b.wall > 0 ==> r.num * (b.wall * cost.den) == b.rdtsc_reads * cost.num * r.den
            &&& b.wall == 0 ==> r.num == 0
        }),
        ({
            let r = b.sampled();
            &&& r.den > 0
            &&& b.wall > 0 ==> r.num * b.wall == b.sampled_wall * r.den
            &&& b.wall == 0 ==> r.num == 0
        }),
{
    lemma_product_fits(b.rdtsc_reads, cost.num as u64);
    lemma_product_fits(b.wall, cost.den as u64);
    if b.wall > 0 {
        assert(b.wall * cost.den > 0) by (nonlinear_arith)
            requires
                b.wall > 0,
                cost.den > 0,
        ;
    } else {
        assert(b.wall * cost.den == 0) by (nonlinear_arith)
            requires
                b.wall == 0,
        ;
    }
}

/// A pair of readings adds the time between them, once around the clock at most.
pub proof fn law_a_pair_adds_the_time_between(pairs: Seq<(u64, u64)>, first: u64, second: u64)
    ensures
        sum_of_spans(Seq::empty()) == 0,
        sum_of_spans(pairs.push((first, second))) == sum_of_spans(pairs) + (second - first)
            % 0x1_0000_0000_0000_0000,
{
    assert(pairs.push((first, second)).drop_last() =~= pairs);
}

/// The sum of what `field` is in each of several budgets.
pub open spec fn sum_over(budgets: Seq<DatapathBudget>, field: spec_fn(DatapathBudget) -> u64) -> nat
    decreases budgets.len(),
{
    if budgets.len() == 0 {
        0
    } else {
        sum_over(budgets.drop_last(), field) + field(budgets.last()) as nat
    }
}

/// The totals once several cores have each published a budget of their own.
pub open spec fn published_all(totals: BudgetTotals, budgets: Seq<DatapathBudget>) -> BudgetTotals
    decreases budgets.len(),
{
    if budgets.len() == 0 {
        totals
    } else {
        published_all(totals, budgets.drop_last()).after_publish(
            budgets.last(),
            DatapathBudget::zero(),
        )
    }
}

/// The shared counters once several cores have each published a budget of their own.
pub open spec fn counters_after_all(
    counters: DatapathCounters,
    budgets: Seq<DatapathBudget>,
) -> DatapathCounters
    decreases budgets.len(),
{
    if budgets.len() == 0 {
        counters
    } else {
        counters_after_publish(
            counters_after_all(counters, budgets.drop_last()),
            budgets.last(),
            DatapathBudget::zero(),
        )
    }
}

/// What a reader sees is, field by field, the sum over the cores in 64 bits: every bucket, the wall
/// time, the exact counters and the packets. The number of cores is what was declared, and the
/// stride and the reading cost are those published last.
#[verifier::spinoff_prover]
#[verifier::rlimit(50)]
pub proof fn law_a_reader_sees_the_sum_over_the_cores(budgets: Seq<DatapathBudget>)
    ensures
        ({
            let totals = published_all(BudgetTotals::initial(), budgets);
            let counters = counters_after_all(DatapathCounters::zero(), budgets);
            let seen = totals.seen_with(counters);
            &&& seen.poll_busy == sum_over(budgets, |b: DatapathBudget| b.poll_busy)
                % 0x1_0000_0000_0000_0000
            &&& seen.poll_idle == sum_over(budgets, |b: DatapathBudget| b.poll_idle)
                % 0x1_0000_0000_0000_0000
            &&& seen.pipeline == sum_over(budgets, |b: DatapathBudget| b.pipeline)
                % 0x1_0000_0000_0000_0000
            &&& seen.maint == sum_over(budgets, |b: DatapathBudget| b.maint)
                % 0x1_0000_0000_0000_0000
            &&& seen.sampled_wall == sum_over(budgets, |b: DatapathBudget| b.sampled_wall)
                % 0x1_0000_0000_0000_0000
            &&& seen.sampled_iters == sum_over(budgets, |b: DatapathBudget| b.sampled_iters)
                % 0x1_0000_0000_0000_0000
            &&& seen.wall == sum_over(budgets, |b: DatapathBudget| b.wall)
                % 0x1_0000_0000_0000_0000
            &&& seen.bursts == sum_over(budgets, |b: DatapathBudget| b.bursts)
                % 0x1_0000_0000_0000_0000
            &&& seen.idle_polls == sum_over(budgets, |b: DatapathBudget| b.idle_polls)
                % 0x1_0000_0000_0000_0000
            &&& seen.rdtsc_reads == sum_over(budgets, |b: DatapathBudget| b.rdtsc_reads)
                % 0x1_0000_0000_0000_0000
            &&& seen.recv_pkts == sum_over(budgets, |b: DatapathBudget| b.recv_pkts)
                % 0x1_0000_0000_0000_0000
            &&& seen.cores == 0
            &&& budgets.len() == 0 ==> seen.sample_stride == 1 && seen.rdtsc_cost == 0
            &&& budgets.len() > 0 ==> seen.sample_stride == budgets.last().sample_stride
                && seen.rdtsc_cost == budgets.last().rdtsc_cost
        }),
    decreases budgets.len(),
{
    lemma_packets_summed(budgets);
    if budgets.len() > 0 {
        let init = budgets.drop_last();
        law_a_reader_sees_the_sum_over_the_cores(init);
        let before = published_all(BudgetTotals::initial(), init);
        let b = budgets.last();
        lemma_sum_with(before.poll_busy, budgets, |b: DatapathBudget| b.poll_busy);
        lemma_sum_with(before.poll_idle, budgets, |b: DatapathBudget| b.poll_idle);
        lemma_sum_with(before.pipeline, budgets, |b: DatapathBudget| b.pipeline);
        lemma_sum_with(before.maint, budgets, |b: DatapathBudget| b.maint);
        lemma_sum_with(before.sampled_wall, budgets, |b: DatapathBudget| b.sampled_wall);
        lemma_sum_with(before.sampled_iters, budgets, |b: DatapathBudget| b.sampled_iters);
        lemma_sum_with(before.wall, budgets, |b: DatapathBudget| b.wall);
        lemma_sum_with(before.bursts, budgets, |b: DatapathBudget| b.bursts);
        lemma_sum_with(before.idle_polls, budgets, |b: DatapathBudget| b.idle_polls);
        lemma_sum_with(before.rdtsc_reads, budgets, |b: DatapathBudget| b.rdtsc_reads);
        assert(published_all(BudgetTotals::initial(), budgets) == before.after_publish(
            b,
            DatapathBudget::zero(),
        ));
    }
}

/// Adding a field of the last budget to the sum over the others gives the sum over all.
proof fn lemma_sum_with(
    before: u64,
    budgets: Seq<DatapathBudget>,
    field: spec_fn(DatapathBudget) -> u64,
)
    requires
        budgets.len() > 0,
        before == sum_over(budgets.drop_last(), field) % 0x1_0000_0000_0000_0000,
    ensures
        before.wrapping_add(moved_on(field(budgets.last()), 0)) == sum_over(budgets, field)
            % 0x1_0000_0000_0000_0000,
{
}

proof fn lemma_packets_summed(budgets: Seq<DatapathBudget>)
    ensures
        counters_after_all(DatapathCounters::zero(), budgets).busy_pkts == sum_over(
            budgets,
            |b: DatapathBudget| b.recv_pkts,
        ) % 0x1_0000_0000_0000_0000,
    decreases budgets.len(),
{
    if budgets.len() > 0 {
        let init = budgets.drop_last();
        lemma_packets_summed(init);
        let before = counters_after_all(DatapathCounters::zero(), init);
        lemma_sum_with(before.busy_pkts, budgets, |b: DatapathBudget| b.recv_pkts);
    }
}

/// The number of cores that a reader sees is the one declared, whatever is published.
pub proof fn law_the_core_count_is_what_was_declared(
    totals: BudgetTotals,
    counters: DatapathCounters,
    now: DatapathBudget,
    before: DatapathBudget,
    cores: u64,
)
    ensures
        (BudgetTotals { cores, ..totals }).seen_with(counters).cores == cores,
        (BudgetTotals { cores, ..totals }).after_publish(now, before).seen_with(counters).cores
            == cores,
{
}

/// A publication adds the packet work since the last one to the busy cycles, as often as the stride
/// says, or as much as 64 bits hold, and the packets since the last one to the packets. A stride of
/// zero counts the work once.
pub proof fn law_busy_cycles_are_scaled_by_the_stride(
    counters: DatapathCounters,
    now: DatapathBudget,
    before: DatapathBudget,
)
    requires
        now.follows(before),
        now.poll_busy + now.pipeline + now.maint <= u64::MAX,
    ensures
        ({
            let after = counters_after_publish(counters, now, before);
            let work = (now.poll_busy - before.poll_busy) + (now.pipeline - before.pipeline) + (
            now.maint - before.maint);
            let stride = if now.sample_stride == 0 {
                1
            } else {
                now.sample_stride as int
            };
            let scaled = if work * stride <= u64::MAX {
                work * stride
            } else {
                u64::MAX as int
            };
            &&& after.busy_cycles == (counters.busy_cycles + scaled) % 0x1_0000_0000_0000_0000
            &&& after.busy_pkts == (counters.busy_pkts + (now.recv_pkts - before.recv_pkts))
                % 0x1_0000_0000_0000_0000
            &&& after.busy_split() == counters.busy_split()
            &&& after.overhead() == counters.overhead()
            &&& after.delivered() == counters.delivered()
        }),
{
    let work = (now.poll_busy - before.poll_busy) + (now.pipeline - before.pipeline) + (now.maint
        - before.maint);
    let stride = effective_stride(now.sample_stride) as int;
    assert(work * stride >= 0) by (nonlinear_arith)
        requires
            work >= 0,
            stride > 0,
    ;
}

/// The mean over the pairs is the sum of their spans over their number, and nothing without pairs.
pub proof fn law_a_mean_span_times_its_count_is_the_sum(pairs: Seq<(u64, u64)>)
    requires
        sum_of_spans(pairs) <= u64::MAX,
        pairs.len() <= u64::MAX,
    ensures
        mean_span(pairs).den > 0,
        pairs.len() > 0 ==> mean_span(pairs).num * pairs.len() == sum_of_spans(pairs) * mean_span(
            pairs,
        ).den,
        pairs.len() == 0 ==> mean_span(pairs).num == 0,
{
}

} // verus!
