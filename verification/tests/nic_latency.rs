//! Replaying a latency trace.

use iris_core::filter::flow_drop::nic_latency::trace::{
    load, unknown_phase_message, Load, TraceError, TraceOp, TraceRows, UsReading, UsValue, UNSET,
};
use iris_core::filter::flow_drop::nic_latency::{
    charge, charged, init, install, nic_latency_cost, spun, suspend, Charge, InitError, NicLatency,
    NicLatencyConfig, NicLatencyStats, Pacer, Phase, Spin, State,
};
use iris_core::ratio::Ratio;
use std::time::Instant;

/// Two ops shaped like the real trace: `replace` first, and equal to `delete + insert`.
const SAMPLE: &str = "\
op_id,phase,us
0,replace,514.014
0,delete,298.695
0,insert,215.319
1,replace,526.952
1,delete,306.666
1,insert,220.287
";

/// At exactly 1 GHz a nanosecond is a cycle, so cycle assertions read as nanoseconds.
const GHZ: u64 = 1_000_000_000;

fn reading(field: &str, scale: f64) -> UsReading {
    let us: f64 = match field.parse() {
        Ok(us) => us,
        Err(_) => {
            return UsReading {
                shown: String::new(),
                value: UsValue::Unparsable,
            }
        }
    };
    let ns = (us * 1000.0 * scale).round();
    let value = if !(us.is_finite() && us >= 0.0) {
        UsValue::NotAQuantity
    } else if ns >= UNSET as f64 {
        UsValue::TooLong
    } else {
        UsValue::Ns(ns as u32)
    };
    UsReading {
        shown: us.to_string(),
        value,
    }
}

fn whole(ns: u32) -> UsReading {
    UsReading {
        shown: String::new(),
        value: UsValue::Ns(ns),
    }
}

fn readings(src: &str, scale: f64) -> Vec<UsReading> {
    TraceRows::read(src.as_bytes())
        .us_fields()
        .iter()
        .map(|field| reading(field, scale))
        .collect()
}

fn from_reader(
    src: &str,
    tsc_hz: u64,
    scale: f64,
    limit_ops: usize,
    sleep_threshold_us: u64,
) -> Result<Pacer, TraceError> {
    Pacer::from_reader(
        src.as_bytes(),
        &readings(src, scale),
        tsc_hz,
        scale.to_bits(),
        limit_ops,
        sleep_threshold_us,
    )
    .expect("one reading per row")
}

fn pacer(src: &str) -> Pacer {
    from_reader(src, GHZ, 1.0, 0, 0).expect("trace should load")
}

fn config(enabled: bool, scale: f64) -> NicLatencyConfig {
    NicLatencyConfig {
        enabled,
        scale_bits: scale.to_bits(),
        limit_ops: 0,
        sleep_threshold_us: 0,
    }
}

#[test]
fn loads_insert_and_delete_and_ignores_replace() {
    let p = pacer(SAMPLE);
    assert_eq!(p.ops.len(), 2);
    assert_eq!(p.ops[0].delete_ns, 298_695);
    assert_eq!(p.ops[0].insert_ns, 215_319);
    assert_eq!(p.ops[1].delete_ns, 306_666);
    assert_eq!(p.ops[1].insert_ns, 220_287);
    // The replace rows were skipped, but their invariant still holds.
    assert_eq!(p.ops[0].delete_ns + p.ops[0].insert_ns, 514_014);
}

#[test]
fn scale_and_limit_apply_at_load() {
    let scaled = from_reader(SAMPLE, GHZ, 0.5, 0, 0).unwrap();
    assert_eq!(scaled.ops[0].delete_ns, 149_348); // 298.695 us / 2, rounded
    assert_eq!(scaled.ops[0].insert_ns, 107_660); // 215.319 us / 2, rounded

    let limited = from_reader(SAMPLE, GHZ, 1.0, 1, 0).unwrap();
    assert_eq!(limited.ops.len(), 1);
}

#[test]
fn rejects_bad_traces() {
    let cases: [(&str, &str); 7] = [
        ("op_id,phase,us\n", "no insert or delete rows"),
        ("op_id,phase,us\n0,delete,1.0\n", "no insert row"),
        ("op_id,phase,us\n0,insert,1.0\n", "no delete row"),
        (
            "op_id,phase,us\n0,insert,1.0\n0,delete,1.0\n0,insert,2.0\n",
            "duplicate",
        ),
        ("op_id,phase,us\n0,insert,abc\n", "bad us value"),
        // A phase starting with `r` is taken as `replace` and skipped, so a file of only
        // those parses as empty rather than wrong.
        (
            "op_id,phase,us\n0,rubbish,1.0\n",
            "no insert or delete rows",
        ),
        ("op_id,phase,us\n0,xyz,1.0\n", "unknown phase"),
    ];
    for (src, expect) in cases {
        let err = match from_reader(src, GHZ, 1.0, 0, 0) {
            Ok(_) => panic!("trace {src:?} should have been rejected"),
            Err(e) => e,
        };
        let chain = err.message("1");
        assert!(
            chain.contains(expect),
            "trace {src:?} gave {chain:?}, expected {expect:?}"
        );
    }
    assert!(from_reader("op_id,phase,us\n0,insert,-1.0\n", GHZ, 1.0, 0, 0).is_err());
    assert!(from_reader(SAMPLE, GHZ, -1.0, 0, 0).is_err());
    assert!(from_reader(SAMPLE, 0, 1.0, 0, 0).is_err());
}

#[test]
fn every_charge_takes_the_next_op() {
    let mut p = pacer(SAMPLE);
    assert_eq!(p.next_delay_ns(Phase::Delete), 298_695); // op 0's delete
    assert_eq!(p.next_delay_ns(Phase::Insert), 220_287); // op 1's insert

    // Each phase reads its own field of whichever op the cursor lands on.
    let mut q = pacer(SAMPLE);
    assert_eq!(q.next_delay_ns(Phase::Insert), 215_319); // op 0's insert
    assert_eq!(q.next_delay_ns(Phase::Delete), 306_666); // op 1's delete
}

#[test]
fn cursor_wraps_and_counts_the_reuse() {
    let mut p = pacer(SAMPLE);
    for _ in 0..p.ops.len() {
        p.next_delay_ns(Phase::Insert);
    }
    assert_eq!(p.counters.trace_wraps, 0);
    // Back to op 0.
    assert_eq!(p.next_delay_ns(Phase::Insert), 215_319);
    assert_eq!(p.counters.trace_wraps, 1);
}

#[test]
fn claims_walk_the_trace() {
    let mut p = pacer(SAMPLE);
    let mut seen = Vec::new();
    for k in 0..7 {
        seen.push(p.claim());
        assert_eq!(p.counters.trace_wraps, k / 2);
    }
    assert_eq!(seen, vec![0, 1, 0, 1, 0, 1, 0]);
}

#[test]
fn zero_scale_costs_nothing() {
    let mut p = from_reader(SAMPLE, 2_400_000_000, 0.0, 0, 0).unwrap();
    let started = Instant::now();
    for _ in 0..10_000 {
        let c = p.charge(Phase::Insert);
        assert_eq!(p.spin(c.cycles), Spin::Nothing);
        p.record(Phase::Insert, c.ns, 0);
    }
    let per_call_ns = started.elapsed().as_nanos() as f64 / 10_000.0;
    assert!(per_call_ns < 200.0, "{per_call_ns:.1} ns per charge()");
    assert_eq!(p.counters.paced_inserts, 10_000);
    assert_eq!(p.counters.requested_ns_insert, 0);
}

#[test]
fn state_machine_and_teardown_exemption() {
    let mut latency = NicLatency::new();
    assert!(!nic_latency_cost(&latency).active);
    assert!(!nic_latency_cost(&latency).configured);

    // Zero scale, so the lifecycle costs no real time.
    let p = from_reader(SAMPLE, GHZ, 0.0, 0, 0).unwrap();
    install(&mut latency, p, true).unwrap();
    assert!(nic_latency_cost(&latency).active);
    assert!(nic_latency_cost(&latency).configured);

    for phase in [Phase::Delete, Phase::Insert] {
        let c = charge(&mut latency, phase).expect("armed");
        assert_eq!(c, Charge { ns: 0, cycles: 0 });
        charged(&mut latency, phase, c.ns, 0);
    }
    let stats = nic_latency_cost(&latency);
    assert_eq!(stats.paced_deletes, 1);
    assert_eq!(stats.paced_inserts, 1);
    assert_eq!(stats.unpaced_teardown_deletes, 0);

    // Teardown: nothing is paced from here on, but skips are counted.
    suspend(&mut latency);
    assert!(!nic_latency_cost(&latency).active);
    for _ in 0..3 {
        assert_eq!(charge(&mut latency, Phase::Delete), None);
    }
    assert_eq!(charge(&mut latency, Phase::Insert), None);
    let stats = nic_latency_cost(&latency);
    assert_eq!(stats.paced_deletes, 1, "no further deletes should be paced");
    assert_eq!(stats.paced_inserts, 1, "no further inserts should be paced");
    assert_eq!(stats.unpaced_teardown_deletes, 3);
    assert_eq!(stats.unpaced_teardown_inserts, 1);
    assert!(stats.configured, "state still records that a trace loaded");

    // Suspension is permanent.
    suspend(&mut latency);
    assert!(!nic_latency_cost(&latency).active);
}

#[test]
fn csv_rows_leave_the_header_out_and_mark_bad_rows() {
    let rows = TraceRows::read(b"op_id,phase,us\n 7 ,insert, 1.5 \n1,insert\n\"a,b\",x,y\n");
    assert_eq!(rows.rows.len(), 3);
    let first = rows.rows[0].as_ref().unwrap();
    assert_eq!(first.len(), 3);
    assert_eq!(first[0], " 7 ");
    assert_eq!(first[2], " 1.5 ");
    // Fewer fields than the header: rejected by the CSV reader.
    assert!(rows.rows[1].is_none());
    // A quoted comma does not separate.
    assert_eq!(rows.rows[2].as_ref().unwrap()[0], "a,b");
    assert_eq!(rows.us_fields(), vec!["1.5", "", "y"]);
}

#[test]
fn every_trace_error_has_its_input() {
    let err = |src: &str| from_reader(src, GHZ, 1.0, 0, 0).unwrap_err();
    assert_eq!(
        from_reader(SAMPLE, GHZ, f64::NAN, 0, 0).unwrap_err(),
        TraceError::BadScale
    );
    assert_eq!(
        from_reader(SAMPLE, GHZ, f64::INFINITY, 0, 0).unwrap_err(),
        TraceError::BadScale
    );
    // The scale is looked at before the clock.
    assert_eq!(
        from_reader(SAMPLE, 0, -1.0, 0, 0).unwrap_err(),
        TraceError::BadScale
    );
    assert_eq!(
        from_reader(SAMPLE, 0, 1.0, 0, 0).unwrap_err(),
        TraceError::NoClock
    );
    assert_eq!(
        err("op_id,phase,us\n0,insert,1\n0,delete\n"),
        TraceError::Malformed { row: 2 }
    );
    assert_eq!(
        err("a,b\n0,insert\n"),
        TraceError::TooFewFields { row: 1, got: 2 }
    );
    assert_eq!(
        err("op_id,phase,us\n0,,1\n"),
        TraceError::UnknownPhase {
            row: 1,
            phase: String::new()
        }
    );
    assert_eq!(
        err("op_id,phase,us\nx,insert,1\n"),
        TraceError::BadOpId { row: 1 }
    );
    assert_eq!(
        err("op_id,phase,us\n0,insert,\n"),
        TraceError::BadUs { row: 1 }
    );
    assert_eq!(
        err("op_id,phase,us\n0,insert,inf\n"),
        TraceError::NotAQuantity {
            row: 1,
            us: "inf".to_owned()
        }
    );
    assert_eq!(
        err("op_id,phase,us\n0,insert,4294967.295\n"),
        TraceError::TooLong {
            row: 1,
            us: "4294967.295".to_owned()
        }
    );
    assert_eq!(
        err("op_id,phase,us\n0,delete,1\n0,insert,1\n0,delete,2\n"),
        TraceError::Duplicate {
            row: 3,
            phase: Phase::Delete,
            op_id: 0
        }
    );
    assert_eq!(err(""), TraceError::Empty);
    assert_eq!(
        err("op_id,phase,us\n1,insert,1\n1,delete,1\n"),
        TraceError::NoInsertRow { op_id: 0 }
    );
    assert_eq!(
        err("op_id,phase,us\n0,insert,1\n"),
        TraceError::NoDeleteRow { op_id: 0 }
    );
}

#[test]
fn error_messages_read_as_sentences() {
    assert_eq!(
        TraceError::TooFewFields { row: 12, got: 2 }.message("1"),
        "row 12: expected 3 fields `op_id,phase,us`, got 2"
    );
    assert_eq!(
        TraceError::Duplicate {
            row: 3,
            phase: Phase::Insert,
            op_id: 40
        }
        .message("1"),
        "row 3: duplicate Insert row for op_id 40"
    );
    assert_eq!(
        from_reader("op_id,phase,us\n0,xyz,1.0\n", GHZ, 1.0, 0, 0)
            .unwrap_err()
            .message("1"),
        "row 1: unknown phase \"xyz\""
    );
    assert_eq!(
        TraceError::Malformed { row: 1 }.message("1"),
        "malformed CSV at row 1 (after the header)"
    );
    assert_eq!(
        TraceError::NoDeleteRow { op_id: 5 }.message("1"),
        "op_id 5 has no delete row"
    );
}

#[test]
fn an_unknown_phase_is_quoted_and_escaped() {
    let message = |src: &str| {
        from_reader(src, GHZ, 1.0, 0, 0)
            .unwrap_err()
            .message("1")
    };
    assert_eq!(
        message("op_id,phase,us\n0,\"a\"\"b\\c\nd\te\",1\n"),
        "row 1: unknown phase \"a\\\"b\\\\c\\nd\\te\""
    );
    assert_eq!(
        message("op_id,phase,us\n0,,1\n"),
        "row 1: unknown phase \"\""
    );
    for phase in ["x'y", "\u{7f}", "caf\u{e9}", "\u{200b}", "\0"] {
        let error = TraceError::UnknownPhase {
            row: 8,
            phase: phase.to_owned(),
        };
        assert_eq!(
            error.message("1"),
            format!("row 8: unknown phase {phase:?}")
        );
    }
    assert_eq!(
        unknown_phase_message(30, "as given"),
        "row 30: unknown phase as given"
    );
}

#[test]
fn number_errors_show_the_number() {
    let message = |src: &str, scale: f64| {
        from_reader(src, GHZ, scale, 0, 0)
            .unwrap_err()
            .message(&scale.to_string())
    };
    assert_eq!(
        message(SAMPLE, -0.5),
        "scale must be finite and non-negative, got -0.5"
    );
    assert_eq!(
        message(SAMPLE, f64::NAN),
        "scale must be finite and non-negative, got NaN"
    );
    assert_eq!(
        message("op_id,phase,us\n0,insert,-1.0\n", 1.0),
        "row 1: us must be finite and non-negative, got -1"
    );
    assert_eq!(
        message("op_id,phase,us\n0,insert,1\n0,delete,5000000.5\n", 2.5),
        "row 2: 5000000.5 us at scale 2.5 does not fit in u32 nanoseconds"
    );
    // The mark of an unset phase is refused as a value too.
    let rows = TraceRows::read(b"op_id,phase,us\n0,insert,7\n");
    let marked = vec![UsReading {
        shown: "7".to_owned(),
        value: UsValue::Ns(UNSET),
    }];
    match load(&rows, &marked, 0) {
        Load::Refused(error) => assert_eq!(
            error.message("1"),
            "row 1: 7 us at scale 1 does not fit in u32 nanoseconds"
        ),
        other => panic!("{other:?}"),
    }
}

#[test]
fn negative_zero_is_a_usable_scale() {
    assert_eq!(
        from_reader(SAMPLE, GHZ, -0.0, 0, 0).unwrap().ops[0].insert_ns,
        0
    );
}

#[test]
fn every_row_is_kept_and_nothing_else() {
    let rows = TraceRows::read(b"op_id,phase,us\n1,d,4\n0,i,1\n1,i,3\n0,d,2\n");
    let r = vec![whole(4), whole(1), whole(3), whole(2)];
    match load(&rows, &r, 0) {
        Load::Ops(ops) => assert_eq!(
            ops,
            vec![
                TraceOp {
                    delete_ns: 2,
                    insert_ns: 1
                },
                TraceOp {
                    delete_ns: 4,
                    insert_ns: 3
                },
            ]
        ),
        other => panic!("{other:?}"),
    }
}

#[test]
fn an_op_id_beyond_any_table_is_not_loaded() {
    let src = format!("op_id,phase,us\n{},insert,1\n", usize::MAX);
    assert!(Pacer::from_reader(
        src.as_bytes(),
        &vec![whole(1)],
        GHZ,
        1.0f64.to_bits(),
        0,
        0
    )
    .is_none());
    // Cut off by the limit, it is not looked at.
    assert_eq!(
        from_reader(&src, GHZ, 1.0, 1, 0).unwrap_err(),
        TraceError::Empty
    );
}

#[test]
fn there_must_be_one_reading_per_row() {
    assert!(Pacer::from_reader(
        SAMPLE.as_bytes(),
        &vec![whole(1)],
        GHZ,
        1.0f64.to_bits(),
        0,
        0
    )
    .is_none());
}

#[test]
fn means_come_from_the_trace() {
    let p = pacer(SAMPLE);
    let (insert, delete) = p.means_us();
    assert_eq!(
        insert,
        Ratio {
            num: 435_606,
            den: 2000
        }
    );
    assert_eq!(
        delete,
        Ratio {
            num: 605_361,
            den: 2000
        }
    );
}

#[test]
fn a_whole_replay_reproduces_the_mean() {
    let mut p = pacer(SAMPLE);
    for _ in 0..2 {
        let c = p.charge(Phase::Insert);
        p.record(Phase::Insert, c.ns, c.cycles);
    }
    let stats = p.stats(true, 0, 0);
    assert_eq!(stats.requested_ns_insert, 435_606);
    assert_eq!(stats.mean_insert_us(), p.means_us().0);
    assert_eq!(stats.mean_delete_us(), Ratio { num: 0, den: 1 });
    assert_eq!(
        stats.spin_overshoot_ratio(),
        Ratio {
            num: 435_606_000_000_000,
            den: 435_606_000_000_000
        }
    );
    assert_eq!(
        stats.worker_busy_fraction(1_000_000, 2),
        Ratio {
            num: 435_606,
            den: 2_000_000
        }
    );
    assert_eq!(stats.trace_ops, 2);
    assert_eq!(f64::from_bits(stats.scale_bits), 1.0);
}

#[test]
fn long_waits_sleep_down_to_the_threshold() {
    // 100 us at 2 GHz is 200000 cycles.
    let p = from_reader(SAMPLE, 2 * GHZ, 1.0, 0, 100).unwrap();
    assert_eq!(p.sleep_threshold_cycles, 200_000);
    assert_eq!(p.cycles_for(250_000), 500_000);
    assert_eq!(
        p.spin(500_000),
        Spin::Watch {
            sleep_ns: Some(150_000)
        }
    );
    assert_eq!(p.spin(200_000), Spin::Watch { sleep_ns: None });
    assert_eq!(p.spin(0), Spin::Nothing);
    assert_eq!(
        pacer(SAMPLE).spin(u64::MAX),
        Spin::Watch { sleep_ns: None }
    );
}

#[test]
fn a_spin_only_overshoots() {
    assert_eq!(spun(10, 14, 5), None);
    assert_eq!(spun(10, 15, 5), Some(5));
    assert_eq!(spun(10, 18, 5), Some(8));
    // The clock may wrap meanwhile.
    assert_eq!(spun(u64::MAX - 1, 3, 5), Some(5));
}

#[test]
fn an_eviction_pays_the_delete_of_one_op_and_the_insert_of_the_next() {
    let mut p = pacer(SAMPLE);
    let delete = p.charge(Phase::Delete);
    let insert = p.charge(Phase::Insert);
    assert_eq!(delete.ns + insert.ns, 298_695 + 220_287);
}

#[test]
fn init_arms_once() {
    let mut latency = NicLatency::new();
    let cfg = config(true, 1.0);
    let r = readings(SAMPLE, 1.0);
    assert_eq!(
        init(&mut latency, &cfg, SAMPLE.as_bytes(), &r, 0),
        Some(Err(InitError::NoClock))
    );
    assert_eq!(
        init(&mut latency, &cfg, b"op_id,phase,us\n", &vec![], GHZ),
        Some(Err(InitError::Trace(TraceError::Empty)))
    );
    assert_eq!(latency.state, State::Unconfigured);
    assert_eq!(
        init(&mut latency, &cfg, SAMPLE.as_bytes(), &r, GHZ),
        Some(Ok(()))
    );
    assert_eq!(latency.state, State::Active);
    assert_eq!(
        init(&mut latency, &cfg, SAMPLE.as_bytes(), &r, GHZ),
        Some(Err(InitError::AlreadyInitialised))
    );
    assert_eq!(init(&mut latency, &cfg, b"", &r, GHZ), None);
}

#[test]
fn switched_off_counts_nothing() {
    let mut latency = NicLatency::new();
    assert_eq!(charge(&mut latency, Phase::Insert), None);
    assert_eq!(nic_latency_cost(&latency), NicLatencyStats::default());
    let r = readings(SAMPLE, 1.0);
    init(
        &mut latency,
        &config(false, 1.0),
        SAMPLE.as_bytes(),
        &r,
        GHZ,
    );
    assert_eq!(latency.state, State::Off);
    assert_eq!(charge(&mut latency, Phase::Insert), None);
    suspend(&mut latency);
    assert_eq!(latency.state, State::Off);
    let stats = nic_latency_cost(&latency);
    assert!(stats.configured);
    assert!(!stats.active);
    assert_eq!(stats.unpaced_teardown_inserts, 0);
}
