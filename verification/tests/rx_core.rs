//! The poll loop's decisions and counters.

use iris_core::lcore::datapath_budget::{datapath_budget, BudgetTotals};
use iris_core::lcore::rx_core::{
    Action, Event, FlowAction, LoopBudget, RxCore, RxLoop, RxQueue, RxQueueType, RxRole, RxTally,
    Stage,
};
use iris_core::lcore::CoreId;
use iris_core::stats::DatapathCounters;

fn take(s: &mut RxLoop, event: Event) {
    assert!(s.can_take(event), "{:?} at {:?}", event, s.stage);
    s.take(event);
}

/// The flow table lets every packet of a burst through.
fn let_through(s: &mut RxLoop, packets: u64) {
    for _ in 0..packets {
        assert!(s.may_look_up(None, 60));
        assert!(s.looked_up(None, 60));
    }
}

/// One sampled iteration over two queues, the first empty and the second with three packets.
fn sampled_iteration(s: &mut RxLoop, at: u64) {
    take(s, Event::Running(true));
    assert_eq!(s.stage, Stage::Open);
    take(s, Event::Clock(at));
    assert_eq!(s.action(), Action::Poll { queue: 0 });
    take(s, Event::Burst(0));
    take(s, Event::Clock(at + 30));
    take(s, Event::Done);
    assert_eq!(s.action(), Action::Poll { queue: 1 });
    take(s, Event::Burst(3));
    take(s, Event::Clock(at + 70));
    let_through(s, 3);
    take(s, Event::Done);
    assert_eq!(s.action(), Action::ReadClock);
    take(s, Event::Clock(at + 200));
    assert_eq!(s.action(), Action::Maintain);
    take(s, Event::Done);
    take(s, Event::Clock(at + 250));
}

#[test]
fn buckets_sum_to_the_sampled_wall() {
    let mut s = RxLoop::start(2, 1, 10, 1000, RxTally::new());
    sampled_iteration(&mut s, 2000);
    let b = s.cycles.budget;
    assert_eq!(
        (b.poll_idle, b.poll_busy, b.pipeline, b.maint),
        (20, 30, 120, 40)
    );
    assert_eq!(b.sampled_wall, 210);
    assert_eq!(b.sampled_iters, 1);
    assert_eq!((b.bursts, b.idle_polls, b.recv_pkts), (1, 1, 3));
    // One reading at the start, one to open, and four that closed spans.
    assert_eq!(s.cycles.rdtsc_reads, 6);
    assert_eq!(s.stage, Stage::Top);
    assert_eq!(s.tally.total_cycles.value, 2);
    assert_eq!(s.tally.idle_cycles.value, 1);
}

#[test]
fn buckets_sum_to_the_sampled_wall_with_short_spans_too() {
    let mut s = RxLoop::start(1, 1, 100, 0, RxTally::new());
    take(&mut s, Event::Running(true));
    take(&mut s, Event::Clock(1000));
    take(&mut s, Event::Burst(0));
    take(&mut s, Event::Clock(1010));
    take(&mut s, Event::Done);
    take(&mut s, Event::Done);
    take(&mut s, Event::Clock(1500));
    let b = s.cycles.budget;
    // Of the short span only what there is of it is taken off, and of the iteration no more.
    assert_eq!((b.poll_idle, b.maint), (0, 390));
    assert_eq!(b.sampled_wall, 390);
    assert_eq!(b.residual_fraction().num, 0);

    // Spans of 5 and 30 cycles at a cost of 10.
    let mut s = RxLoop::start(1, 1, 10, 0, RxTally::new());
    take(&mut s, Event::Running(true));
    take(&mut s, Event::Clock(100));
    take(&mut s, Event::Burst(0));
    take(&mut s, Event::Clock(105));
    take(&mut s, Event::Done);
    take(&mut s, Event::Done);
    take(&mut s, Event::Clock(135));
    take(&mut s, Event::Running(false));
    let mut totals = BudgetTotals::default();
    let mut counters = DatapathCounters::default();
    s.leave(200, &mut totals, &mut counters);
    let b = datapath_budget(&totals, &counters);
    assert_eq!((b.poll_idle, b.maint, b.sampled_wall), (0, 20, 20));
}

#[test]
fn packets_that_the_flow_table_drops_are_not_received() {
    let mut s = RxLoop::start(1, 0, 0, 0, RxTally::new());
    take(&mut s, Event::Running(true));
    take(&mut s, Event::Burst(3));
    assert!(!s.can_take(Event::Done));
    assert!(!s.looked_up(Some(FlowAction::Drop), 60));
    assert!(s.looked_up(Some(FlowAction::Queue(1)), 60));
    assert!(!s.filtered(false, 60));
    assert!(!s.can_take(Event::Done));
    assert!(s.looked_up(None, 40));
    assert!(s.filtered(true, 40));
    assert!(!s.may_look_up(None, 60));
    take(&mut s, Event::Done);
    assert_eq!(s.cycles.budget.recv_pkts, 2);
    assert_eq!((s.tally.total_pkt.value, s.tally.total_byte.value), (2, 100));
    assert_eq!((s.tally.ignored_pkt.value, s.tally.ignored_byte.value), (1, 60));

    // A burst that is dropped whole is a burst all the same.
    take(&mut s, Event::Done);
    take(&mut s, Event::Running(true));
    take(&mut s, Event::Burst(1));
    assert!(!s.looked_up(Some(FlowAction::Drop), 60));
    take(&mut s, Event::Done);
    assert_eq!(s.cycles.budget.recv_pkts, 2);
    assert_eq!(s.cycles.budget.bursts, 2);
}

#[test]
fn one_iteration_in_stride_is_sampled() {
    let mut s = RxLoop::start(1, 3, 0, 0, RxTally::new());
    let mut sampled = Vec::new();
    for n in 0..9u64 {
        take(&mut s, Event::Running(true));
        if s.stage == Stage::Open {
            sampled.push(n);
            take(&mut s, Event::Clock(n * 100));
        }
        take(&mut s, Event::Burst(0));
        if let Action::ReadClock = s.action() {
            take(&mut s, Event::Clock(n * 100 + 1));
        }
        take(&mut s, Event::Done);
        take(&mut s, Event::Done);
        if let Action::ReadClock = s.action() {
            take(&mut s, Event::Clock(n * 100 + 2));
        }
    }
    assert_eq!(sampled, vec![0, 3, 6]);
    assert_eq!(s.cycles.budget.sampled_iters, 3);
    // The cheap counters stay exact.
    assert_eq!(s.cycles.budget.idle_polls, 9);
}

#[test]
fn zero_stride_attributes_nothing() {
    let mut s = RxLoop::start(1, 0, 24, 0, RxTally::new());
    assert_eq!(s.cycles.budget.rdtsc_cost, 0);
    for _ in 0..5 {
        take(&mut s, Event::Running(true));
        assert_eq!(s.action(), Action::Poll { queue: 0 });
        take(&mut s, Event::Burst(2));
        let_through(&mut s, 2);
        take(&mut s, Event::Done);
        take(&mut s, Event::Done);
    }
    let b = s.cycles.budget;
    assert_eq!(b.sampled_iters, 0);
    assert_eq!(b.poll_busy + b.poll_idle + b.pipeline + b.maint, 0);
    assert_eq!((b.bursts, b.recv_pkts), (5, 10));
    assert_eq!(b.sample_stride, 0);
}

#[test]
fn budgets_are_published_every_so_many_samples() {
    let mut totals = BudgetTotals::default();
    let mut counters = DatapathCounters::default();
    let mut s = RxLoop::start(2, 1, 10, 500, RxTally::new());
    for n in 0..1024u64 {
        assert_eq!(s.stage, Stage::Top);
        sampled_iteration(&mut s, 1000 + n * 1000);
    }
    assert_eq!(s.action(), Action::Publish);
    s.publish(&mut totals, &mut counters);
    let seen = datapath_budget(&totals, &counters);
    assert_eq!(seen.sampled_iters, 1024);
    assert_eq!(seen.wall, 1000 + 1023 * 1000 + 250 - 500);
    assert_eq!(seen.recv_pkts, 3 * 1024);
    assert_eq!(counters.busy_cycles, (30 + 120 + 40) * 1024);

    take(&mut s, Event::Running(false));
    assert_eq!(s.action(), Action::ReadClock);
    s.leave(2_000_500, &mut totals, &mut counters);
    assert_eq!(s.action(), Action::Drain);
    let seen = datapath_budget(&totals, &counters);
    assert_eq!(seen.wall, 2_000_000);
    // Nothing is added twice.
    assert_eq!(seen.sampled_iters, 1024);
    assert_eq!(seen.recv_pkts, 3 * 1024);
    assert_eq!(seen.rdtsc_reads, 1 + 5 * 1024 + 1);
}

#[test]
fn the_coarse_clock_is_refreshed_now_and_then() {
    let mut tally = RxTally::new();
    tally.total_cycles.value = 511;
    let mut s = RxLoop::start(1, 0, 0, 0, tally);
    take(&mut s, Event::Running(true));
    take(&mut s, Event::Burst(0));
    assert_eq!(
        s.action(),
        Action::Process {
            refresh_clock: true,
            export_stats: false
        }
    );
    tally.total_cycles.value = 1023;
    let mut s = RxLoop::start(1, 0, 0, 0, tally);
    take(&mut s, Event::Running(true));
    take(&mut s, Event::Burst(1));
    assert_eq!(
        s.action(),
        Action::Process {
            refresh_clock: false,
            export_stats: true
        }
    );
}

#[test]
fn a_core_without_queues_only_maintains() {
    let mut s = RxLoop::start(0, 0, 0, 0, RxTally::new());
    take(&mut s, Event::Running(true));
    assert_eq!(s.action(), Action::Maintain);
    take(&mut s, Event::Done);
    assert_eq!(s.action(), Action::AskRunning);
}

#[test]
fn unexpected_events_and_full_counters_are_told() {
    let mut s = RxLoop::start(1, 1, 0, 0, RxTally::new());
    assert!(!s.can_take(Event::Done));
    assert!(!s.can_take(Event::Clock(1)));
    s.cycles.rdtsc_reads = u64::MAX;
    take(&mut s, Event::Running(true));
    assert!(!s.can_take(Event::Clock(1)));

    let mut b = LoopBudget::start(1, u64::MAX, 0);
    b.open_sample(5);
    assert!(b.can_close_iteration(6));
    b.budget.sampled_iters = u64::MAX;
    assert!(!b.can_close_iteration(6));
    assert!(b.can_record_poll(0, Some(6)));
    b.budget.idle_polls = u64::MAX;
    assert!(!b.can_record_poll(0, Some(6)));
    assert!(b.can_record_poll(1, Some(6)));
}

#[test]
fn dropped_packets_are_not_counted() {
    let mut t = RxTally::new();
    assert!(!t.looked_up(Some(FlowAction::Drop), 100));
    assert_eq!(t, RxTally::new());
    assert!(t.looked_up(Some(FlowAction::Queue(3)), 100));
    assert!(t.looked_up(None, 50));
    assert!(t.filtered(true, 100));
    assert!(!t.filtered(false, 50));
    assert_eq!((t.total_pkt.value, t.total_byte.value), (2, 150));
    assert_eq!((t.ignored_pkt.value, t.ignored_byte.value), (1, 50));
    assert!(t.can_count(1));
    assert!(!t.can_count(u64::MAX));
    assert!(t.can_ignore(1));
    assert!(!t.can_ignore(u64::MAX));
}

fn queue(qid: u16, ty: RxQueueType) -> RxQueue {
    RxQueue { pid: 0, qid, ty }
}

#[test]
fn the_first_queue_decides_the_role() {
    let sink = RxCore::new(
        CoreId(3),
        vec![
            queue(0, RxQueueType::Sink),
            queue(1, RxQueueType::Receive),
        ],
        64,
    );
    assert_eq!(sink.rx_loop(), RxRole::Sink);
    let split = RxCore::new(CoreId(3), vec![queue(1, RxQueueType::Split)], 64);
    assert_eq!(split.rx_loop(), RxRole::Process);

    let mut counts = sink.rx_sink();
    counts.count(1, 60);
    counts.count(1, 40);
    counts.count(0, 5);
    assert_eq!(counts.per_queue, vec![(1, 5), (2, 100)]);
    assert!(counts.can_count(1, 1));
    assert!(!counts.can_count(1, u64::MAX));
    assert!(!counts.can_count(2, 1));
}
