//! Utilization accounting for the worker pools.
//!
//! A worker parks when its queue is empty, so unlike an RX core its utilization is a real number:
//! on-CPU time over the wall span. Each pool registers its counters at spawn and its threads refresh
//! them per batch, so a monitor can read a live figure per pool.

use crate::lcore::datapath_budget;
use crate::ratio::Ratio;
use crate::text;
use crate::thread_cost;
use crate::thread_cost::{cpu_ns_since, read_nonvoluntary_ctxt_switches};
use cpu_time::ThreadTime;
use vstd::prelude::*;

verus! {

/// One worker thread's live counters.
#[derive(Debug, Clone, Copy, PartialEq, Eq, Structural)]
pub struct ThreadCounters {
    pub cpu_ns: u64,
    pub wall: u64,
    pub items: u64,
    pub nonvoluntary_ctxt_switches: u64,
}

impl ThreadCounters {
    /// Nothing measured.
    pub open spec fn zero() -> ThreadCounters {
        ThreadCounters { cpu_ns: 0, wall: 0, items: 0, nonvoluntary_ctxt_switches: 0 }
    }
}

/// One pool's counters: a fixed slot per worker thread, allocated when the pool is spawned.
#[derive(Debug)]
pub struct PoolShared {
    pub label: String,
    /// Threads that reached their loop.
    pub started: u64,
    pub slots: Vec<ThreadCounters>,
}

/// How much of a worker core a pool used, summed across its threads.
#[derive(Debug, Clone, Copy, PartialEq, Eq, Structural)]
pub struct WorkerBudget {
    /// On-CPU nanoseconds: the only field that stops while the thread is parked.
    pub cpu_ns: u64,
    /// Cycles since each thread entered its loop, summed across threads.
    pub wall: u64,
    pub items: u64,
    pub threads: u64,
    /// Only updated when a thread exits.
    pub nonvoluntary_ctxt_switches: u64,
}

/// One pool's budget, labelled by the cores it was given.
#[derive(Debug)]
pub struct PoolBudget {
    pub label: String,
    pub budget: WorkerBudget,
}

/// A field of a thread's counters.
pub enum Field {
    CpuNs,
    Wall,
    Items,
    Switches,
}

/// The field's value.
pub open spec fn field_of(c: ThreadCounters, field: Field) -> u64 {
    match field {
        Field::CpuNs => c.cpu_ns,
        Field::Wall => c.wall,
        Field::Items => c.items,
        Field::Switches => c.nonvoluntary_ctxt_switches,
    }
}

/// The sum of a field over the slots.
pub open spec fn sum_of(slots: Seq<ThreadCounters>, field: Field) -> nat
    decreases slots.len(),
{
    if slots.len() == 0 {
        0
    } else {
        sum_of(slots.drop_last(), field) + field_of(slots.last(), field) as nat
    }
}

/// Every sum over the slots fits in 64 bits.
pub open spec fn sums_fit(slots: Seq<ThreadCounters>) -> bool {
    &&& sum_of(slots, Field::CpuNs) <= u64::MAX
    &&& sum_of(slots, Field::Wall) <= u64::MAX
    &&& sum_of(slots, Field::Items) <= u64::MAX
    &&& sum_of(slots, Field::Switches) <= u64::MAX
}

/// The sums over the slots.
pub open spec fn summed(slots: Seq<ThreadCounters>, threads: u64) -> WorkerBudget {
    WorkerBudget {
        cpu_ns: sum_of(slots, Field::CpuNs) as u64,
        wall: sum_of(slots, Field::Wall) as u64,
        items: sum_of(slots, Field::Items) as u64,
        threads,
        nonvoluntary_ctxt_switches: sum_of(slots, Field::Switches) as u64,
    }
}

proof fn lemma_sum_grows(slots: Seq<ThreadCounters>, i: int, field: Field)
    requires
        0 <= i <= slots.len(),
    ensures
        sum_of(slots.take(i), field) <= sum_of(slots, field),
    decreases slots.len() - i,
{
    if i < slots.len() {
        lemma_sum_grows(slots, i + 1, field);
        assert(slots.take(i + 1).drop_last() =~= slots.take(i));
    } else {
        assert(slots.take(i) =~= slots);
    }
}

impl PoolShared {
    /// The pool's budget, or `None` if a sum does not fit in 64 bits.
    pub fn checked_snapshot(&self) -> (budget: Option<WorkerBudget>)
        ensures
            budget == (if sums_fit(self.slots@) {
                Some(summed(self.slots@, self.started))
            } else {
                None
            }),
    {
        let mut b = WorkerBudget {
            cpu_ns: 0,
            wall: 0,
            items: 0,
            threads: self.started,
            nonvoluntary_ctxt_switches: 0,
        };
        let mut i: usize = 0;
        while i < self.slots.len()
            invariant
                i <= self.slots@.len(),
                b == summed(self.slots@.take(i as int), self.started),
                sums_fit(self.slots@.take(i as int)),
            decreases self.slots@.len() - i,
        {
            let s = self.slots[i];
            proof {
                assert(self.slots@.take(i + 1).drop_last() =~= self.slots@.take(i as int));
                lemma_sum_grows(self.slots@, i + 1, Field::CpuNs);
                lemma_sum_grows(self.slots@, i + 1, Field::Wall);
                lemma_sum_grows(self.slots@, i + 1, Field::Items);
                lemma_sum_grows(self.slots@, i + 1, Field::Switches);
            }
            match (
                b.cpu_ns.checked_add(s.cpu_ns),
                b.wall.checked_add(s.wall),
                b.items.checked_add(s.items),
                b.nonvoluntary_ctxt_switches.checked_add(s.nonvoluntary_ctxt_switches),
            ) {
                (Some(cpu_ns), Some(wall), Some(items), Some(switches)) => {
                    b.cpu_ns = cpu_ns;
                    b.wall = wall;
                    b.items = items;
                    b.nonvoluntary_ctxt_switches = switches;
                },
                _ => {
                    return None;
                },
            }
            i = i + 1;
        }
        proof {
            assert(self.slots@.take(i as int) =~= self.slots@);
        }
        Some(b)
    }

    /// The pool's budget: the sums over its threads.
    pub fn snapshot(&self) -> (budget: WorkerBudget)
        requires
            sums_fit(self.slots@),
        ensures
            budget == summed(self.slots@, self.started),
    {
        match self.checked_snapshot() {
            Some(budget) => budget,
            None => WorkerBudget::default(),
        }
    }
}

/// Register a pool of `threads` workers under `label`.
pub fn register(registry: &mut Vec<PoolShared>, label: String, threads: usize)
    ensures
        final(registry)@.len() == old(registry)@.len() + 1,
        final(registry)@.drop_last() == old(registry)@,
        final(registry)@.last().label == label,
        final(registry)@.last().started == 0,
        final(registry)@.last().slots@ == Seq::new(threads as nat, |i: int| ThreadCounters::zero()),
{
    let mut slots: Vec<ThreadCounters> = Vec::new();
    let mut i: usize = 0;
    while i < threads
        invariant
            i <= threads,
            slots@ == Seq::new(i as nat, |k: int| ThreadCounters::zero()),
        decreases threads - i,
    {
        slots.push(
            ThreadCounters { cpu_ns: 0, wall: 0, items: 0, nonvoluntary_ctxt_switches: 0 },
        );
        proof {
            assert(slots@ =~= Seq::new((i + 1) as nat, |k: int| ThreadCounters::zero()));
        }
        i = i + 1;
    }
    registry.push(PoolShared { label, started: 0, slots });
    proof {
        assert(registry@.drop_last() =~= old(registry)@);
    }
}

/// Every registered pool's current budget.
pub fn pools(registry: &Vec<PoolShared>) -> (budgets: Vec<PoolBudget>)
    requires
        forall|i: int| 0 <= i < registry@.len() ==> sums_fit((#[trigger] registry@[i]).slots@),
    ensures
        budgets@.len() == registry@.len(),
        forall|i: int|
            0 <= i < registry@.len() ==> (#[trigger] budgets@[i]).label@ == registry@[i].label@
                && budgets@[i].budget == summed(registry@[i].slots@, registry@[i].started),
{
    let mut budgets: Vec<PoolBudget> = Vec::new();
    let mut i: usize = 0;
    while i < registry.len()
        invariant
            i <= registry@.len(),
            budgets@.len() == i,
            forall|k: int| 0 <= k < registry@.len() ==> sums_fit((#[trigger] registry@[k]).slots@),
            forall|k: int|
                0 <= k < i ==> (#[trigger] budgets@[k]).label@ == registry@[k].label@
                    && budgets@[k].budget == summed(registry@[k].slots@, registry@[k].started),
        decreases registry@.len() - i,
    {
        budgets.push(
            PoolBudget {
                label: text::copied(registry[i].label.as_str()),
                budget: registry[i].snapshot(),
            },
        );
        i = i + 1;
    }
    budgets
}

impl WorkerBudget {
    /// Nothing measured.
    pub open spec fn zero() -> WorkerBudget {
        WorkerBudget { cpu_ns: 0, wall: 0, items: 0, threads: 0, nonvoluntary_ctxt_switches: 0 }
    }

    /// Cycles that the CPU time comes to.
    pub open spec fn on_cpu(self, tsc_hz: u64) -> Ratio {
        Ratio::exact(self.cpu_ns * tsc_hz, 1_000_000_000)
    }

    /// CPU time over wall time.
    pub open spec fn busy_share(self, tsc_hz: u64) -> Ratio {
        Ratio::exact(self.cpu_ns * tsc_hz, self.wall * 1_000_000_000)
    }

    /// CPU time over wall time, times the threads.
    pub open spec fn whole_cores(self, tsc_hz: u64) -> Ratio {
        Ratio::exact(self.cpu_ns * tsc_hz * self.threads, self.wall * 1_000_000_000)
    }

    /// Items per second of CPU time.
    pub open spec fn item_rate(self) -> Ratio {
        Ratio::exact(self.items * 1_000_000_000, self.cpu_ns as int)
    }

    /// `cpu_ns` in cycles, so that it can be divided by `wall`.
    pub fn cpu_cycles(&self, tsc_hz: u64) -> (cycles: Ratio)
        ensures
            cycles == Ratio::exact(self.cpu_ns * tsc_hz, 1_000_000_000),
            cycles == self.on_cpu(tsc_hz),
    {
        proof {
            datapath_budget::lemma_product_fits(self.cpu_ns, tsc_hz);
        }
        Ratio::of(self.cpu_ns as u128 * tsc_hz as u128, 1_000_000_000)
    }

    /// The headline: mean share of one worker core consumed.
    pub fn busy_fraction(&self, tsc_hz: u64) -> (share: Ratio)
        ensures
            share == Ratio::exact(self.cpu_ns * tsc_hz, self.wall * 1_000_000_000),
            share == self.busy_share(tsc_hz),
    {
        proof {
            datapath_budget::lemma_product_fits(self.cpu_ns, tsc_hz);
        }
        Ratio::of(self.cpu_ns as u128 * tsc_hz as u128, self.wall as u128 * 1_000_000_000)
    }

    /// Utilization as whole cores.
    pub fn cores_busy(&self, tsc_hz: u64) -> (cores: Ratio)
        requires
            self.cpu_ns * tsc_hz * self.threads <= u128::MAX,
        ensures
            cores == Ratio::exact(
                self.cpu_ns * tsc_hz * self.threads,
                self.wall * 1_000_000_000,
            ),
            cores == self.whole_cores(tsc_hz),
    {
        proof {
            datapath_budget::lemma_product_fits(self.cpu_ns, tsc_hz);
        }
        Ratio::of(
            self.cpu_ns as u128 * tsc_hz as u128 * self.threads as u128,
            self.wall as u128 * 1_000_000_000,
        )
    }

    /// Items per second sustainable at 100% of one core. Independent of the offered load.
    pub fn sustainable_item_rate(&self) -> (rate: Ratio)
        ensures
            rate == Ratio::exact(self.items * 1_000_000_000, self.cpu_ns as int),
            rate == self.item_rate(),
    {
        Ratio::of(self.items as u128 * 1_000_000_000, self.cpu_ns as u128)
    }
}

impl Default for WorkerBudget {
    fn default() -> (budget: WorkerBudget)
        ensures
            budget == WorkerBudget::zero(),
    {
        WorkerBudget { cpu_ns: 0, wall: 0, items: 0, threads: 0, nonvoluntary_ctxt_switches: 0 }
    }
}

/// What a worker thread has reported, the CPU clock aside.
#[derive(Debug, Clone, Copy, PartialEq, Eq, Structural)]
pub struct WorkerTally {
    /// The thread's slot.
    pub index: usize,
    /// Involuntary context switches at the start.
    pub nonvol_start: u64,
    /// Clock reading at the start.
    pub wall_start: u64,
    /// Items handled.
    pub items: u64,
}

impl WorkerTally {
    /// The thread's slot at clock reading `now`, with `cpu_ns` of CPU time used.
    pub open spec fn refreshed(self, slot: ThreadCounters, now: u64, cpu_ns: u64) -> ThreadCounters {
        ThreadCounters {
            cpu_ns,
            wall: now.wrapping_sub(self.wall_start),
            items: self.items,
            nonvoluntary_ctxt_switches: slot.nonvoluntary_ctxt_switches,
        }
    }

    /// The thread's slot once it has exited.
    pub open spec fn retired(
        self,
        slot: ThreadCounters,
        now: u64,
        cpu_ns: u64,
        switches: u64,
    ) -> ThreadCounters {
        ThreadCounters {
            nonvoluntary_ctxt_switches: datapath_budget::moved_on(switches, self.nonvol_start),
            ..self.refreshed(slot, now, cpu_ns)
        }
    }

    /// What a thread has reported that claims slot `index` at clock reading `now`.
    pub open spec fn claimed(index: usize, now: u64, switches: u64) -> WorkerTally {
        WorkerTally { index, nonvol_start: switches, wall_start: now, items: 0 }
    }

    /// What the thread has reported once it has handled `items` items more.
    pub open spec fn handled(self, items: u64) -> WorkerTally {
        WorkerTally { items: (self.items + items) as u64, ..self }
    }

    /// Claim slot `index` of a pool at clock reading `now`.
    pub fn claim(shared: &mut PoolShared, index: usize, now: u64, status: Option<&str>) -> (tally:
        WorkerTally)
        ensures
            tally == (WorkerTally {
                index,
                nonvol_start: thread_cost::switches_in(thread_cost::status_text(status)),
                wall_start: now,
                items: 0,
            }),
            tally == WorkerTally::claimed(
                index,
                now,
                thread_cost::switches_in(thread_cost::status_text(status)),
            ),
            final(shared).started == old(shared).started.wrapping_add(1),
            final(shared).slots == old(shared).slots,
            final(shared).label == old(shared).label,
    {
        shared.started = shared.started.wrapping_add(1);
        WorkerTally {
            index,
            nonvol_start: read_nonvoluntary_ctxt_switches(status),
            wall_start: now,
            items: 0,
        }
    }

    /// Store what the thread has done by clock reading `now`, with `cpu_ns` of CPU time used.
    pub fn store(&self, shared: &mut PoolShared, now: u64, cpu_ns: u64)
        requires
            self.index < old(shared).slots@.len(),
        ensures
            final(shared).slots@ == old(shared).slots@.update(
                self.index as int,
                self.refreshed(old(shared).slots@[self.index as int], now, cpu_ns),
            ),
            final(shared).started == old(shared).started,
            final(shared).label == old(shared).label,
    {
        let slot = shared.slots[self.index];
        shared.slots[self.index] =
        ThreadCounters {
            cpu_ns,
            wall: now.wrapping_sub(self.wall_start),
            items: self.items,
            nonvoluntary_ctxt_switches: slot.nonvoluntary_ctxt_switches,
        };
    }

    /// Store what the thread has done once it has exited.
    pub fn retire(&self, shared: &mut PoolShared, now: u64, cpu_ns: u64, status: Option<&str>)
        requires
            self.index < old(shared).slots@.len(),
        ensures
            final(shared).slots@ == old(shared).slots@.update(
                self.index as int,
                self.retired(
                    old(shared).slots@[self.index as int],
                    now,
                    cpu_ns,
                    thread_cost::switches_in(thread_cost::status_text(status)),
                ),
            ),
            final(shared).started == old(shared).started,
            final(shared).label == old(shared).label,
    {
        let switches: u64 = read_nonvoluntary_ctxt_switches(status).saturating_sub(
            self.nonvol_start,
        );
        shared.slots[self.index] =
        ThreadCounters {
            cpu_ns,
            wall: now.wrapping_sub(self.wall_start),
            items: self.items,
            nonvoluntary_ctxt_switches: switches,
        };
    }
}

/// One worker thread's accumulator, refreshing its pool slot as it goes. Clock readings are the
/// caller's; the CPU clock is the calling thread's own.
#[derive(Debug)]
pub struct WorkerProbe {
    pub tally: WorkerTally,
    pub cpu_start: ThreadTime,
}

impl WorkerProbe {
    /// Start both clocks and claim slot `index`. Call from inside the worker thread.
    pub fn start(shared: &mut PoolShared, index: usize, now: u64, status: Option<&str>) -> (probe:
        WorkerProbe)
        ensures
            probe.tally == (WorkerTally {
                index,
                nonvol_start: thread_cost::switches_in(thread_cost::status_text(status)),
                wall_start: now,
                items: 0,
            }),
            final(shared).started == old(shared).started.wrapping_add(1),
            final(shared).slots == old(shared).slots,
            final(shared).label == old(shared).label,
    {
        let cpu_start = ThreadTime::now();
        WorkerProbe { tally: WorkerTally::claim(shared, index, now, status), cpu_start }
    }

    /// Count work handled and refresh the pool's slot at clock reading `now`. How much CPU time the
    /// thread has used is read from its own clock.
    pub fn record_items(&mut self, shared: &mut PoolShared, items: u64, now: u64)
        requires
            old(self).tally.index < old(shared).slots@.len(),
            old(self).tally.items + items <= u64::MAX,
        ensures
            final(self).tally == (WorkerTally {
                items: (old(self).tally.items + items) as u64,
                ..old(self).tally
            }),
            final(self).tally == old(self).tally.handled(items),
            final(self).cpu_start == old(self).cpu_start,
            final(shared).slots@ == old(shared).slots@.update(
                old(self).tally.index as int,
                final(self).tally.refreshed(
                    old(shared).slots@[old(self).tally.index as int],
                    now,
                    final(shared).slots@[old(self).tally.index as int].cpu_ns,
                ),
            ),
            final(shared).started == old(shared).started,
            final(shared).label == old(shared).label,
    {
        self.tally.items = self.tally.items + items;
        let cpu_ns: u64 = cpu_ns_since(&self.cpu_start);
        self.tally.store(shared, now, cpu_ns);
    }

    /// Refresh the pool's slot once the thread has left its loop at clock reading `now`, the
    /// context switches included. How much CPU time the thread has used is read from its own clock.
    pub fn finish(&self, shared: &mut PoolShared, now: u64, status: Option<&str>)
        requires
            self.tally.index < old(shared).slots@.len(),
        ensures
            final(shared).slots@ == old(shared).slots@.update(
                self.tally.index as int,
                self.tally.retired(
                    old(shared).slots@[self.tally.index as int],
                    now,
                    final(shared).slots@[self.tally.index as int].cpu_ns,
                    thread_cost::switches_in(thread_cost::status_text(status)),
                ),
            ),
            final(shared).started == old(shared).started,
            final(shared).label == old(shared).label,
    {
        let cpu_ns: u64 = cpu_ns_since(&self.cpu_start);
        self.tally.retire(shared, now, cpu_ns, status);
    }
}

/// A pool's budget is the sum over its threads: refreshing one slot moves each sum by what that
/// slot moved by, and by nothing else.
pub proof fn law_a_slot_moves_its_own_share(
    slots: Seq<ThreadCounters>,
    i: int,
    slot: ThreadCounters,
    field: Field,
)
    requires
        0 <= i < slots.len(),
    ensures
        sum_of(slots.update(i, slot), field) == sum_of(slots, field) - field_of(slots[i], field)
            + field_of(slot, field),
    decreases slots.len(),
{
    let after = slots.update(i, slot);
    if i == slots.len() - 1 {
        assert(after.drop_last() =~= slots.drop_last());
    } else {
        law_a_slot_moves_its_own_share(slots.drop_last(), i, slot, field);
        assert(after.drop_last() =~= slots.drop_last().update(i, slot));
    }
}

/// A pool that has just been registered has a budget of zero, however many threads it has.
pub proof fn law_a_new_pool_has_used_nothing(threads: nat)
    ensures
        ({
            let slots = Seq::new(threads, |i: int| ThreadCounters::zero());
            sums_fit(slots) && summed(slots, 0) == WorkerBudget::zero()
        }),
    decreases threads,
{
    let slots = Seq::new(threads, |i: int| ThreadCounters::zero());
    if threads > 0 {
        law_a_new_pool_has_used_nothing((threads - 1) as nat);
        assert(slots.drop_last() =~= Seq::new(
            (threads - 1) as nat,
            |i: int| ThreadCounters::zero(),
        ));
    }
}

/// A pool's budget is, field by field, the sum over its threads, one after the other, and reports
/// the threads that reached their loop.
pub proof fn law_a_pools_budget_is_the_sum_over_its_threads(slots: Seq<ThreadCounters>, started: u64)
    requires
        sums_fit(slots),
    ensures
        ({
            let b = summed(slots, started);
            &&& b.cpu_ns == slots.fold_left(0int, |sum: int, c: ThreadCounters| sum + c.cpu_ns)
            &&& b.wall == slots.fold_left(0int, |sum: int, c: ThreadCounters| sum + c.wall)
            &&& b.items == slots.fold_left(0int, |sum: int, c: ThreadCounters| sum + c.items)
            &&& b.nonvoluntary_ctxt_switches == slots.fold_left(
                0int,
                |sum: int, c: ThreadCounters| sum + c.nonvoluntary_ctxt_switches,
            )
            &&& b.threads == started
        }),
{
    lemma_sums_fold(slots);
}

proof fn lemma_sums_fold(slots: Seq<ThreadCounters>)
    ensures
        sum_of(slots, Field::CpuNs) == slots.fold_left(
            0int,
            |sum: int, c: ThreadCounters| sum + c.cpu_ns,
        ),
        sum_of(slots, Field::Wall) == slots.fold_left(
            0int,
            |sum: int, c: ThreadCounters| sum + c.wall,
        ),
        sum_of(slots, Field::Items) == slots.fold_left(
            0int,
            |sum: int, c: ThreadCounters| sum + c.items,
        ),
        sum_of(slots, Field::Switches) == slots.fold_left(
            0int,
            |sum: int, c: ThreadCounters| sum + c.nonvoluntary_ctxt_switches,
        ),
    decreases slots.len(),
{
    if slots.len() > 0 {
        lemma_sums_fold(slots.drop_last());
    }
}

/// What the thread has reported after several batches.
pub open spec fn handled_all(tally: WorkerTally, batches: Seq<u64>) -> WorkerTally
    decreases batches.len(),
{
    if batches.len() == 0 {
        tally
    } else {
        handled_all(tally, batches.drop_last()).handled(batches.last())
    }
}

/// Items in several batches.
pub open spec fn items_in(batches: Seq<u64>) -> nat
    decreases batches.len(),
{
    if batches.len() == 0 {
        0
    } else {
        items_in(batches.drop_last()) + batches.last() as nat
    }
}

/// A thread's slot shows the items of every batch it has handled, the time since it claimed the
/// slot and the CPU time it has used. Context switches are those since the claim, shown once it
/// exits; until then the slot keeps what it had.
pub proof fn law_a_slot_shows_what_its_thread_did(
    index: usize,
    start: u64,
    before: u64,
    batches: Seq<u64>,
    slot: ThreadCounters,
    now: u64,
    cpu_ns: u64,
    switches: u64,
)
    requires
        items_in(batches) <= u64::MAX,
    ensures
        ({
            let tally = handled_all(WorkerTally::claimed(index, start, before), batches);
            let live = tally.refreshed(slot, now, cpu_ns);
            let done = tally.retired(slot, now, cpu_ns, switches);
            &&& tally.index == index
            &&& live.items == items_in(batches) && done.items == items_in(batches)
            &&& live.wall == (now - start) % 0x1_0000_0000_0000_0000 && done.wall == live.wall
            &&& live.cpu_ns == cpu_ns && done.cpu_ns == cpu_ns
            &&& live.nonvoluntary_ctxt_switches == slot.nonvoluntary_ctxt_switches
            &&& switches >= before ==> done.nonvoluntary_ctxt_switches == switches - before
            &&& switches < before ==> done.nonvoluntary_ctxt_switches == 0
        }),
{
    lemma_handled(WorkerTally::claimed(index, start, before), batches);
}

proof fn lemma_handled(tally: WorkerTally, batches: Seq<u64>)
    requires
        tally.items + items_in(batches) <= u64::MAX,
    ensures
        handled_all(tally, batches) == (WorkerTally {
            items: (tally.items + items_in(batches)) as u64,
            ..tally
        }),
    decreases batches.len(),
{
    if batches.len() > 0 {
        lemma_handled(tally, batches.drop_last());
    }
}

/// The share of a core that a pool used is its CPU time over its wall time, both on one clock: one
/// where its threads were on-CPU throughout. The cores it used are that share for each thread.
pub proof fn law_utilization_is_cpu_time_over_wall_time(b: WorkerBudget, tsc_hz: u64)
    requires
        b.cpu_ns * tsc_hz * b.threads <= u128::MAX,
    ensures
        ({
            let share = b.busy_share(tsc_hz);
            let cores = b.whole_cores(tsc_hz);
            &&& share.den > 0 && cores.den > 0
            &&& b.wall > 0 ==> share.num * (b.wall * 1_000_000_000) == b.cpu_ns * tsc_hz
                * share.den
            &&& b.wall > 0 && b.cpu_ns * tsc_hz == b.wall * 1_000_000_000 ==> share.num
                == share.den
            &&& b.wall == 0 ==> share.num == 0 && cores.num == 0
            &&& cores.num * share.den == share.num * b.threads * cores.den
        }),
        ({
            let cycles = b.on_cpu(tsc_hz);
            cycles.den > 0 && cycles.num * 1_000_000_000 == b.cpu_ns * tsc_hz * cycles.den
        }),
{
    let p = b.cpu_ns * tsc_hz;
    let d = b.wall * 1_000_000_000;
    datapath_budget::lemma_product_fits(b.cpu_ns, tsc_hz);
    assert(0 <= p * b.threads) by (nonlinear_arith)
        requires
            0 <= p,
            0 <= b.threads,
    ;
    assert((p * b.threads) * d == p * b.threads * d) by (nonlinear_arith);
    assert(0 * b.threads * b.whole_cores(tsc_hz).den == 0) by (nonlinear_arith);
}

/// The rate that a pool can sustain is its items over its CPU seconds, and does not depend on how
/// long its threads were parked.
pub proof fn law_the_item_rate_is_per_cpu_second(b: WorkerBudget, wall: u64)
    ensures
        ({
            let rate = b.item_rate();
            &&& rate.den > 0
            &&& b.cpu_ns > 0 ==> rate.num * b.cpu_ns == b.items * 1_000_000_000 * rate.den
            &&& b.cpu_ns == 0 ==> rate.num == 0
            &&& rate == (WorkerBudget { wall, ..b }).item_rate()
        }),
{
}

} // verus!
