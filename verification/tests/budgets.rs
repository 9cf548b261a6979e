//! Cycle and time budgets, counters, and what is derived from them.

use iris_core::lcore::datapath_budget::{
    datapath_budget, measure_rdtsc_overhead, publish_datapath_delta, set_datapath_cores,
    BudgetTotals, DatapathBudget,
};
use iris_core::lcore::transport_meter::{add_tcp, add_udp, totals, totals_fit, CoreCounters};
use iris_core::multicore::subscription_stats::SubscriptionStats;
use iris_core::multicore::worker_budget;
use iris_core::multicore::worker_budget::{ThreadCounters, WorkerTally};
use iris_core::ratio::Ratio;
use iris_core::stats::worker::{
    publish_worker_thread, worker_budget as worker_totals, WorkerBudget, WorkerProbe, WorkerSpans,
};
use iris_core::stats::{
    add_datapath_busy, add_datapath_busy_split, add_datapath_overhead, datapath_busy,
    datapath_busy_split, datapath_overhead, queue_delivered, DatapathCounters, Stat, StatExt,
};
use iris_core::thread_cost::read_nonvoluntary_ctxt_switches;

fn ratio(num: u128, den: u128) -> Ratio {
    Ratio { num, den }
}

fn sample() -> DatapathBudget {
    DatapathBudget {
        poll_busy: 10,
        poll_idle: 50,
        pipeline: 30,
        maint: 10,
        sampled_wall: 100,
        sampled_iters: 4,
        wall: 400,
        bursts: 3,
        idle_polls: 20,
        recv_pkts: 12,
        cores: 2,
        rdtsc_reads: 8,
        sample_stride: 4,
        rdtsc_cost: 5,
    }
}

#[test]
fn datapath_fractions_are_exact() {
    let b = sample();
    assert_eq!(b.idle_fraction(), ratio(50, 100));
    assert_eq!(b.busy_fraction(), ratio(50, 100));
    assert_eq!(b.poll_busy_fraction(), ratio(10, 100));
    assert_eq!(b.pipeline_fraction(), ratio(30, 100));
    assert_eq!(b.maint_fraction(), ratio(10, 100));
    assert_eq!(b.cores_idle(), ratio(100, 100));
    assert_eq!(b.est_poll_idle_cycles(), ratio(20_000, 100));
    assert_eq!(b.cycles_per_idle_poll(), ratio(200, 20));
    assert_eq!(b.residual_fraction(), ratio(0, 100));
    assert_eq!(b.sampled_share(), ratio(100, 400));
    assert_eq!(b.instrumentation_fraction(ratio(5, 2)), ratio(40, 800));
}

#[test]
fn empty_budget_divides_by_nothing() {
    let b = DatapathBudget::default();
    assert_eq!(b.idle_fraction(), ratio(0, 1));
    assert_eq!(b.cycles_per_idle_poll(), ratio(0, 1));
    assert_eq!(b.residual_fraction(), ratio(0, 1));
    assert_eq!(b.instrumentation_fraction(ratio(24, 1)), ratio(0, 1));
}

#[test]
fn publications_add_only_what_is_new() {
    let mut totals = BudgetTotals::default();
    let mut counters = DatapathCounters::default();
    let mut published = DatapathBudget::default();
    assert_eq!(datapath_budget(&totals, &counters).sample_stride, 1);
    set_datapath_cores(&mut totals, 2);

    let first = sample();
    publish_datapath_delta(&mut totals, &mut counters, &first, &mut published);
    assert_eq!(published, first);
    assert_eq!(datapath_budget(&totals, &counters), first);
    // Work is scaled by the stride: cycles are sampled, packets are not.
    assert_eq!(datapath_busy(&counters), (50 * 4, 12));

    // Republishing adds nothing.
    publish_datapath_delta(&mut totals, &mut counters, &first, &mut published);
    assert_eq!(datapath_budget(&totals, &counters), first);
    assert_eq!(datapath_busy(&counters), (200, 12));

    let mut second = first;
    second.poll_busy += 5;
    second.recv_pkts += 3;
    second.sample_stride = 0;
    second.rdtsc_cost = 0;
    publish_datapath_delta(&mut totals, &mut counters, &second, &mut published);
    let seen = datapath_budget(&totals, &counters);
    assert_eq!(seen.poll_busy, 15);
    assert_eq!(seen.recv_pkts, 15);
    // A zero stride is published as it is.
    assert_eq!((seen.sample_stride, seen.rdtsc_cost), (0, 0));
    assert_eq!(datapath_busy(&counters), (205, 15));
}

#[test]
fn publishing_in_steps_is_publishing_at_once() {
    let first = sample();
    let mut second = first;
    second.pipeline += 7;
    second.wall += 100;
    second.recv_pkts += 2;
    let run = |steps: &[DatapathBudget]| {
        let mut totals = BudgetTotals::default();
        let mut counters = DatapathCounters::default();
        let mut published = DatapathBudget::default();
        for b in steps {
            publish_datapath_delta(&mut totals, &mut counters, b, &mut published);
        }
        (totals, counters)
    };
    assert_eq!(run(&[first, second]), run(&[second]));
}

#[test]
fn scaled_work_is_capped() {
    let mut totals = BudgetTotals::default();
    let mut counters = DatapathCounters::default();
    let mut published = DatapathBudget::default();
    let mut b = DatapathBudget::default();
    b.pipeline = 1 << 63;
    b.sample_stride = 64;
    publish_datapath_delta(&mut totals, &mut counters, &b, &mut published);
    assert_eq!(datapath_busy(&counters).0, u64::MAX);
}

#[test]
fn reading_cost_is_a_mean() {
    assert_eq!(measure_rdtsc_overhead(&vec![]), ratio(0, 1));
    let mean = measure_rdtsc_overhead(&vec![(10, 34), (100, 126), (u64::MAX, 24)]);
    assert_eq!(mean, ratio(75, 3));
    assert_eq!(mean.round(), 25);
    assert_eq!(ratio(7, 2).round(), 4);
    assert_eq!(ratio(5, 4).round(), 1);
    assert_eq!(ratio(u128::MAX, 1).round(), u128::MAX);
}

#[test]
fn counters_are_kept_apart() {
    let mut c = DatapathCounters::default();
    add_datapath_busy(&mut c, 7, 1);
    add_datapath_busy_split(&mut c, 3, 2);
    add_datapath_overhead(&mut c, 11, 13);
    add_datapath_busy(&mut c, u64::MAX, 1);
    assert_eq!(datapath_busy(&c), (6, 2));
    assert_eq!(datapath_busy_split(&c), (3, 2));
    assert_eq!(datapath_overhead(&c), (11, 13));
    assert_eq!(queue_delivered(&c), (0, 0));

    let mut stat = Stat { value: 4 };
    stat.inc();
    stat.inc_by(5);
    assert_eq!(stat.value, 10);
}

#[test]
fn the_order_of_additions_does_not_matter() {
    let mut a = DatapathCounters::default();
    add_datapath_busy(&mut a, 5, 1);
    add_datapath_busy_split(&mut a, 2, 3);
    add_datapath_busy(&mut a, u64::MAX - 1, 7);
    let mut b = DatapathCounters::default();
    add_datapath_busy(&mut b, u64::MAX - 1, 7);
    add_datapath_busy_split(&mut b, 2, 3);
    add_datapath_busy(&mut b, 5, 1);
    assert_eq!(a, b);
}

#[test]
fn transport_totals_sum_over_cores() {
    let mut cores = vec![CoreCounters::new(), CoreCounters::new()];
    add_tcp(&mut cores[0], 100);
    add_udp(&mut cores[0], 7);
    add_tcp(&mut cores[1], 11);
    assert_eq!(totals(&cores), (111, 7));
    assert_eq!(totals(&vec![]), (0, 0));
    assert!(totals_fit(&cores));
    cores[0].udp = u64::MAX;
    assert!(totals_fit(&cores));
    cores[1].udp = 1;
    assert!(!totals_fit(&cores));
}

fn budget() -> WorkerBudget {
    WorkerBudget {
        cpu_ns: 600,
        wall: 4000,
        blocked: 2800,
        dispatch: 200,
        handler: 800,
        bookkeeping: 100,
        items: 6,
        threads: 2,
        nonvoluntary_ctxt_switches: 1,
    }
}

#[test]
fn worker_fractions_are_exact() {
    let b = budget();
    let hz = 2_000_000_000;
    assert_eq!(b.cpu_cycles(hz), ratio(1_200_000_000_000, 1_000_000_000));
    assert_eq!(b.busy_fraction(hz), ratio(1_200_000_000_000, 4_000_000_000_000));
    assert_eq!(b.cores_busy(hz), ratio(2_400_000_000_000, 4_000_000_000_000));
    assert_eq!(b.sustainable_item_rate(), ratio(6_000_000_000, 600));
    assert_eq!(b.residual_fraction(), ratio(100, 4000));
    // 1200 cycles on-CPU, 1100 of them busy: 100 were spun.
    assert_eq!(b.spin_fraction(hz), ratio(100_000_000_000, 2_800_000_000_000));
    // Clamped at both ends.
    assert_eq!(b.spin_fraction(1), ratio(0, 2_800_000_000_000));
    assert_eq!(
        b.spin_fraction(u64::MAX),
        ratio(2_800_000_000_000, 2_800_000_000_000)
    );
    assert_eq!(WorkerBudget::default().spin_fraction(hz), ratio(0, 1));
    assert_eq!(WorkerBudget::default().busy_fraction(hz), ratio(0, 1));
}

#[test]
fn threads_are_folded_together() {
    let mut sum = WorkerBudget::default();
    assert!(sum.can_merge(&budget()));
    publish_worker_thread(&mut sum, &budget());
    publish_worker_thread(&mut sum, &budget());
    assert_eq!(worker_totals(&sum).threads, 4);
    assert_eq!(worker_totals(&sum).wall, 8000);
    assert_eq!(worker_totals(&sum).items, 12);
    sum.items = u64::MAX;
    assert!(!sum.can_merge(&budget()));
}

const STATUS: &str = "Name:\tworker\nvoluntary_ctxt_switches:\t9\nnonvoluntary_ctxt_switches:\t42\n";

#[test]
fn context_switches_are_read_from_the_status_file() {
    assert_eq!(read_nonvoluntary_ctxt_switches(Some(STATUS)), 42);
    assert_eq!(read_nonvoluntary_ctxt_switches(None), 0);
    assert_eq!(read_nonvoluntary_ctxt_switches(Some("")), 0);
    assert_eq!(
        read_nonvoluntary_ctxt_switches(Some("nonvoluntary_ctxt_switches:\tx\n")),
        0
    );
    // The first such line counts, readable or not.
    assert_eq!(
        read_nonvoluntary_ctxt_switches(Some(
            "nonvoluntary_ctxt_switches: 1\r\nnonvoluntary_ctxt_switches: 2\n"
        )),
        1
    );
}

#[test]
fn worker_buckets_leave_no_gap() {
    let mut probe = WorkerProbe::start(1000, Some(STATUS));
    probe.end_blocked(1100);
    probe.end_dispatch(1130);
    probe.end_handler(1180, 3);
    probe.end_bookkeeping(1190);
    probe.end_blocked(1200);
    let spans = probe.spans;
    assert_eq!(
        (
            spans.budget.blocked,
            spans.budget.dispatch,
            spans.budget.handler,
            spans.budget.bookkeeping
        ),
        (110, 30, 50, 10)
    );
    assert!(spans.can_close(spans.budget.blocked, 1201));
    assert!(!spans.can_close(u64::MAX, 1201));

    let closed = spans.close(1200, 77, Some("nonvoluntary_ctxt_switches: 50"));
    assert_eq!((closed.wall, closed.cpu_ns, closed.items), (200, 77, 3));
    assert_eq!(closed.nonvoluntary_ctxt_switches, 8);
    assert_eq!(closed.residual_fraction(), ratio(0, 200));
    assert_eq!(closed.threads, 1);
    // A count that went back is no count.
    assert_eq!(
        spans.close(1200, 77, None).nonvoluntary_ctxt_switches,
        0
    );
}

#[test]
fn the_cpu_clock_advances_with_work() {
    let probe = WorkerProbe::start(0, None);
    let mut x: u64 = 1;
    for i in 0..2_000_000u64 {
        x = x.wrapping_mul(6364136223846793005).wrapping_add(i);
    }
    assert_ne!(x, 0);
    let budget = probe.finish(500, None);
    assert_eq!(budget.wall, 500);
    assert!(budget.cpu_ns > 0);
    assert!(budget.cpu_ns < 20_000_000_000);
}

#[test]
fn spans_start_at_the_first_reading() {
    let spans = WorkerSpans::start(5, None);
    assert_eq!((spans.wall_start, spans.cursor), (5, 5));
    assert_eq!(spans.budget.threads, 1);
}

#[test]
fn pools_are_summed_over_their_threads() {
    let mut registry = Vec::new();
    worker_budget::register(&mut registry, "0-1".to_string(), 2);
    worker_budget::register(&mut registry, "7".to_string(), 0);
    let pools = worker_budget::pools(&registry);
    assert_eq!(pools.len(), 2);
    assert_eq!(pools[0].label, "0-1");
    assert_eq!(pools[0].budget, worker_budget::WorkerBudget::default());

    let mut probe = worker_budget::WorkerProbe::start(&mut registry[0], 1, 100, Some(STATUS));
    probe.record_items(&mut registry[0], 5, 150);
    probe.record_items(&mut registry[0], 2, 190);
    assert_eq!(registry[0].slots[1].wall, 90);
    assert_eq!(registry[0].slots[1].items, 7);
    // Only updated when the thread exits.
    assert_eq!(registry[0].slots[1].nonvoluntary_ctxt_switches, 0);
    probe.finish(&mut registry[0], 200, Some("nonvoluntary_ctxt_switches: 45"));
    assert_eq!(registry[0].slots[1].nonvoluntary_ctxt_switches, 3);

    let first = WorkerTally::claim(&mut registry[0], 0, 1000, None);
    first.store(&mut registry[0], 1010, 4);
    let b = registry[0].snapshot();
    assert_eq!(b.threads, 2);
    assert_eq!(b.wall, 110);
    assert_eq!(b.items, 7);
    assert_eq!(b.cpu_ns, registry[0].slots[1].cpu_ns + 4);

    registry[0].slots[0] = ThreadCounters {
        cpu_ns: 0,
        wall: u64::MAX,
        items: 0,
        nonvoluntary_ctxt_switches: 0,
    };
    assert!(registry[0].checked_snapshot().is_none());
}

#[test]
fn pool_fractions_are_exact() {
    let b = worker_budget::WorkerBudget {
        cpu_ns: 300,
        wall: 1000,
        items: 3,
        threads: 4,
        nonvoluntary_ctxt_switches: 0,
    };
    let hz = 1_000_000_000;
    assert_eq!(b.cpu_cycles(hz), ratio(300_000_000_000, 1_000_000_000));
    assert_eq!(b.busy_fraction(hz), ratio(300_000_000_000, 1_000_000_000_000));
    assert_eq!(b.cores_busy(hz), ratio(1_200_000_000_000, 1_000_000_000_000));
    assert_eq!(b.sustainable_item_rate(), ratio(3_000_000_000, 300));
}

#[test]
fn subscription_counters_come_back_to_zero() {
    let mut stats = SubscriptionStats::new();
    let a = stats.begin_processing(5);
    let b = stats.begin_processing(7);
    assert_eq!(stats.get_actively_processing(), 12);
    stats.release(a);
    assert_eq!(stats.get_actively_processing(), 7);
    stats.release(b);
    assert_eq!(stats, SubscriptionStats::default());
}

#[test]
fn subscription_stats_print_three_counts() {
    let mut stats = SubscriptionStats::new();
    stats.dispatched = 99;
    stats.processed = 10;
    stats.dropped = 2;
    stats.flushed = 30;
    assert_eq!(
        stats.to_text(),
        "Processed: 10\nDropped: 2\nFlushed (to disk): 30"
    );
    let copy = stats.snapshot();
    stats.dropped = 3;
    assert_eq!(copy.get_dropped(), 2);
    assert_eq!(copy.get_dispatched(), 99);
    assert_eq!(copy.get_processed(), 10);
    assert_eq!(copy.get_flushed(), 30);
}
