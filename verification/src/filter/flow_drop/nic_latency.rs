//! Replay a measured NIC control-plane latency trace, making a fast NIC behave like a slow one.
//!
//! Given a trace measured on the target NIC, a caller spins for the trace's latency before each
//! real rule creation or destruction. The real call still runs; only the control-plane cost is
//! emulated, so measurements of the real cost and of the emulated one are additive.
//!
//! Teardown is not paced: from [`suspend`] onwards operations run at native speed. The skips are
//! still counted, so the exemption is auditable.
//!
//! This module holds everything but the clock and the waiting: which latency each operation is
//! charged, how long a spin that stands for, when it is over, and what is counted.

pub mod trace;

use crate::filter::flow_drop::nic_latency::trace::{
    load, Load, TraceError, TraceOp, TraceRows, UsReading,
};
use crate::ratio::Ratio;
use vstd::prelude::*;

verus! {

/// Which primitive is being charged.
#[derive(Debug, Clone, Copy, PartialEq, Eq, Structural)]
pub enum Phase {
    /// A rule is created.
    Insert,
    /// A rule is destroyed.
    Delete,
}

/// What a pacer has done. Additions wrap at 64 bits.
#[derive(Debug, Clone, Copy, PartialEq, Eq, Structural)]
pub struct PacerCounters {
    pub paced_inserts: u64,
    pub paced_deletes: u64,
    pub requested_ns_insert: u64,
    pub requested_ns_delete: u64,
    pub spun_cycles_insert: u64,
    pub spun_cycles_delete: u64,
    pub trace_wraps: u64,
}

impl PacerCounters {
    /// Nothing charged yet.
    pub open spec fn zero() -> PacerCounters {
        PacerCounters {
            paced_inserts: 0,
            paced_deletes: 0,
            requested_ns_insert: 0,
            requested_ns_delete: 0,
            spun_cycles_insert: 0,
            spun_cycles_delete: 0,
            trace_wraps: 0,
        }
    }

    /// Operations of `phase` that were paced.
    pub open spec fn paced(self, phase: Phase) -> u64 {
        match phase {
            Phase::Insert => self.paced_inserts,
            Phase::Delete => self.paced_deletes,
        }
    }

    /// Nanoseconds requested for `phase`.
    pub open spec fn requested(self, phase: Phase) -> u64 {
        match phase {
            Phase::Insert => self.requested_ns_insert,
            Phase::Delete => self.requested_ns_delete,
        }
    }

    /// The counters after an operation of `phase` that asked for `ns` and spun `spun` cycles.
    pub open spec fn after_charge(self, phase: Phase, ns: u32, spun: u64) -> PacerCounters {
        match phase {
            Phase::Insert => PacerCounters {
                paced_inserts: self.paced_inserts.wrapping_add(1),
                requested_ns_insert: self.requested_ns_insert.wrapping_add(ns as u64),
                spun_cycles_insert: self.spun_cycles_insert.wrapping_add(spun),
                ..self
            },
            Phase::Delete => PacerCounters {
                paced_deletes: self.paced_deletes.wrapping_add(1),
                requested_ns_delete: self.requested_ns_delete.wrapping_add(ns as u64),
                spun_cycles_delete: self.spun_cycles_delete.wrapping_add(spun),
                ..self
            },
        }
    }
}

/// What an operation is charged.
#[derive(Debug, Clone, Copy, PartialEq, Eq, Structural)]
pub struct Charge {
    /// The trace's latency.
    pub ns: u32,
    /// The same in clock cycles.
    pub cycles: u64,
}

/// How a spin begins.
#[derive(Debug, Clone, Copy, PartialEq, Eq, Structural)]
pub enum Spin {
    /// Not at all: there is nothing to wait for.
    Nothing,
    /// By sleeping through the bulk of the wait, if asked to, and then watching the clock.
    Watch { sleep_ns: Option<u64> },
}

/// The loaded trace plus everything needed to turn a latency into a spin.
#[derive(Debug)]
pub struct Pacer {
    pub ops: Vec<TraceOp>,
    pub tsc_hz: u64,
    /// Zero for a pure spin. Otherwise sleep until this many cycles are left and spin those.
    pub sleep_threshold_cycles: u64,
    /// The scale as the bits of a double.
    pub scale_bits: u64,
    /// Position in the trace: one step per charge.
    pub cursor: usize,
    pub counters: PacerCounters,
}

/// The bits of a double that is finite and not negative; negative zero counts as zero.
pub open spec fn usable_scale(scale_bits: u64) -> bool {
    scale_bits < 0x7ff0_0000_0000_0000 || scale_bits == 0x8000_0000_0000_0000
}

/// `amount` units of `per` to a second, in clock cycles, in 64 bits.
pub open spec fn in_cycles(amount: nat, tsc_hz: u64, per: nat) -> u64 {
    (amount * tsc_hz as nat / per % 0x1_0000_0000_0000_0000) as u64
}

/// `cycles` in nanoseconds, in 64 bits.
pub open spec fn in_ns(cycles: u64, tsc_hz: u64) -> u64 {
    (cycles as nat * 1_000_000_000 / tsc_hz as nat % 0x1_0000_0000_0000_0000) as u64
}

/// What a pacer over `ops` is when it has not charged anything.
pub open spec fn is_fresh(p: Pacer, ops: Seq<TraceOp>, tsc_hz: u64, scale_bits: u64, us: u64) -> bool {
    &&& p.ops@ == ops
    &&& p.tsc_hz == tsc_hz
    &&& p.sleep_threshold_cycles == in_cycles(us as nat, tsc_hz, 1_000_000)
    &&& p.scale_bits == scale_bits
    &&& p.cursor == 0
    &&& p.counters == PacerCounters::zero()
}

/// What building a pacer from rows comes to.
pub open spec fn paced_by(
    result: Result<Pacer, TraceError>,
    outcome: trace::Loading,
    tsc_hz: u64,
    scale_bits: u64,
    sleep_threshold_us: u64,
) -> bool {
    if !usable_scale(scale_bits) {
        result matches Err(e) && e@ == trace::Refusal::BadScale
    } else if tsc_hz == 0 {
        result matches Err(e) && e@ == trace::Refusal::NoClock
    } else {
        match outcome {
            trace::Loading::Refused(refusal) => result matches Err(e) && e@ == refusal,
            trace::Loading::Ops(ops) => result matches Ok(p) && is_fresh(
                p,
                ops,
                tsc_hz,
                scale_bits,
                sleep_threshold_us,
            ),
            trace::Loading::Unbounded => false,
        }
    }
}

/// The scale and the clock are usable, but an operation's number is too large for any table.
pub open spec fn out_of_bounds(
    outcome: trace::Loading,
    tsc_hz: u64,
    scale_bits: u64,
) -> bool {
    usable_scale(scale_bits) && tsc_hz != 0 && outcome is Unbounded
}

impl Pacer {
    /// The trace has operations, each of them complete, and the clock has a frequency.
    pub open spec fn wf(self) -> bool {
        &&& self.ops@.len() > 0
        &&& self.tsc_hz > 0
        &&& forall|k: int| 0 <= k < self.ops@.len() ==> (#[trigger] self.ops@[k]).complete()
    }

    /// The pacer once the next position in the trace has been claimed.
    pub open spec fn claimed(self) -> Pacer {
        Pacer {
            cursor: self.cursor.wrapping_add(1),
            counters: PacerCounters {
                trace_wraps: if self.cursor != 0 && self.cursor as nat % self.ops@.len() == 0 {
                    self.counters.trace_wraps.wrapping_add(1)
                } else {
                    self.counters.trace_wraps
                },
                ..self.counters
            },
            ..self
        }
    }

    /// The latency of `phase` at the position to be claimed next.
    pub open spec fn next_ns(self, phase: Phase) -> u32 {
        self.ops@[self.next_index() as int].of(phase)
    }

    /// `ns` in clock cycles.
    pub open spec fn cycles_of(self, ns: u32) -> u64 {
        in_cycles(ns as nat, self.tsc_hz, 1_000_000_000)
    }

    /// How a wait of `target` cycles begins.
    pub open spec fn spin_for(self, target: u64) -> Spin {
        if target == 0 {
            Spin::Nothing
        } else if self.sleep_threshold_cycles == 0 || target <= self.sleep_threshold_cycles {
            Spin::Watch { sleep_ns: None }
        } else {
            Spin::Watch {
                sleep_ns: Some(in_ns((target - self.sleep_threshold_cycles) as u64, self.tsc_hz)),
            }
        }
    }

    /// Mean latency of `phase` in the trace, in microseconds.
    pub open spec fn mean_us(self, phase: Phase) -> Ratio {
        Ratio::exact(
            total_ns(self.ops@, phase, self.ops@.len()) as int,
            self.ops@.len() as int * 1000,
        )
    }

    /// The pacer once an operation has been charged.
    pub open spec fn recorded(self, phase: Phase, ns: u32, spun: u64) -> Pacer {
        Pacer { counters: self.counters.after_charge(phase, ns, spun), ..self }
    }

    /// Build a pacer from the rows of a trace, `readings` giving what each row's `us` field says
    /// at this scale.
    pub fn from_rows(
        rows: &TraceRows,
        readings: &Vec<UsReading>,
        tsc_hz: u64,
        scale_bits: u64,
        limit_ops: usize,
        sleep_threshold_us: u64,
    ) -> (pacer: Result<Pacer, TraceError>)
        requires
            readings@.len() == rows.rows@.len(),
            !out_of_bounds(
                trace::loaded(rows.fields(), readings@, limit_ops),
                tsc_hz,
                scale_bits,
            ),
        ensures
            paced_by(
                pacer,
                trace::loaded(rows.fields(), readings@, limit_ops),
                tsc_hz,
                scale_bits,
                sleep_threshold_us,
            ),
            pacer matches Ok(p) ==> p.wf(),
    {
        if !is_usable_scale(scale_bits) {
            return Err(TraceError::BadScale);
        }
        if tsc_hz == 0 {
            return Err(TraceError::NoClock);
        }
        match load(rows, readings, limit_ops) {
            Load::Ops(ops) => {
                proof {
                    assert forall|k: int| 0 <= k < ops@.len() implies (
                    #[trigger] ops@[k]).complete() by {
                        trace::law_loaded_trace_has_no_gap(
                            rows.fields(),
                            readings@,
                            limit_ops,
                            ops@,
                            k as nat,
                        );
                    }
                }
                Ok(Pacer::over(ops, tsc_hz, scale_bits, sleep_threshold_us))
            },
            Load::Refused(error) => Err(error),
            // Ruled out by the precondition.
            Load::Unbounded => Err(TraceError::Empty),
        }
    }

    /// Parse a trace, `readings` giving what each row's `us` field says at this scale. `None` if
    /// there is not one reading per row, or if an operation's number is too large for any table.
    pub fn from_reader(
        bytes: &[u8],
        readings: &Vec<UsReading>,
        tsc_hz: u64,
        scale_bits: u64,
        limit_ops: usize,
        sleep_threshold_us: u64,
    ) -> (pacer: Option<Result<Pacer, TraceError>>)
        ensures
            ({
                let outcome = trace::loaded(trace::csv_rows_of(bytes@), readings@, limit_ops);
                match pacer {
                    None => readings@.len() != trace::csv_rows_of(bytes@).len() || out_of_bounds(
                        outcome,
                        tsc_hz,
                        scale_bits,
                    ),
                    Some(result) => {
                        &&& readings@.len() == trace::csv_rows_of(bytes@).len()
                        &&& paced_by(result, outcome, tsc_hz, scale_bits, sleep_threshold_us)
                        &&& result matches Ok(p) ==> p.wf()
                    },
                }
            }),
    {
        let rows = TraceRows::read(bytes);
        if readings.len() != rows.rows.len() {
            return None;
        }
        if is_usable_scale(scale_bits) && tsc_hz != 0 {
            if let Load::Unbounded = load(&rows, readings, limit_ops) {
                return None;
            }
        }
        Some(
            Pacer::from_rows(&rows, readings, tsc_hz, scale_bits, limit_ops, sleep_threshold_us),
        )
    }

    fn over(ops: Vec<TraceOp>, tsc_hz: u64, scale_bits: u64, sleep_threshold_us: u64) -> (p: Pacer)
        ensures
            is_fresh(p, ops@, tsc_hz, scale_bits, sleep_threshold_us),
    {
        let sleep_threshold_cycles: u64 = scaled(sleep_threshold_us, tsc_hz, 1_000_000);
        Pacer {
            ops,
            tsc_hz,
            sleep_threshold_cycles,
            scale_bits,
            cursor: 0,
            counters: PacerCounters {
                paced_inserts: 0,
                paced_deletes: 0,
                requested_ns_insert: 0,
                requested_ns_delete: 0,
                spun_cycles_insert: 0,
                spun_cycles_delete: 0,
                trace_wraps: 0,
            },
        }
    }

    /// Mean insert and delete latency in the loaded trace, in microseconds.
    pub fn means_us(&self) -> (means: (Ratio, Ratio))
        requires
            self.wf(),
        ensures
            means.0 == Ratio::exact(
                total_ns(self.ops@, Phase::Insert, self.ops@.len()) as int,
                self.ops@.len() as int * 1000,
            ),
            means.1 == Ratio::exact(
                total_ns(self.ops@, Phase::Delete, self.ops@.len()) as int,
                self.ops@.len() as int * 1000,
            ),
            means == (self.mean_us(Phase::Insert), self.mean_us(Phase::Delete)),
    {
        let n: u128 = self.ops.len() as u128 * 1000;
        (
            Ratio::of(self.sum_ns(Phase::Insert), n),
            Ratio::of(self.sum_ns(Phase::Delete), n),
        )
    }

    fn sum_ns(&self, phase: Phase) -> (sum: u128)
        ensures
            sum == total_ns(self.ops@, phase, self.ops@.len()),
    {
        let mut sum: u128 = 0;
        let mut k: usize = 0;
        let count: usize = self.ops.len();
        while k < count
            invariant
                k <= count == self.ops@.len(),
                sum == total_ns(self.ops@, phase, k as nat),
                sum <= k * 0xffff_ffff,
            decreases count - k,
        {
            proof {
                vstd::arithmetic::div_mod::lemma_small_mod(k as nat, self.ops@.len());
            }
            sum = sum + self.ops[k].ns(phase) as u128;
            k = k + 1;
        }
        sum
    }

    /// Claim the next trace position for an operation of `phase`.
    pub fn charge(&mut self, phase: Phase) -> (charge: Charge)
        requires
            old(self).wf(),
        ensures
            charge.ns == old(self).next_ns(phase),
            charge.cycles == in_cycles(charge.ns as nat, old(self).tsc_hz, 1_000_000_000),
            charge.cycles == old(self).cycles_of(charge.ns),
            *final(self) == old(self).claimed(),
            final(self).wf(),
    {
        let ns: u32 = self.next_delay_ns(phase);
        Charge { ns, cycles: self.cycles_for(ns) }
    }

    /// Count an operation of `phase` that asked for `ns` and spun `spun` cycles.
    pub fn record(&mut self, phase: Phase, ns: u32, spun: u64)
        ensures
            *final(self) == old(self).recorded(phase, ns, spun),
    {
        match phase {
            Phase::Insert => {
                self.counters.paced_inserts = self.counters.paced_inserts.wrapping_add(1);
                self.counters.requested_ns_insert = self.counters.requested_ns_insert.wrapping_add(
                    ns as u64,
                );
                self.counters.spun_cycles_insert = self.counters.spun_cycles_insert.wrapping_add(
                    spun,
                );
            },
            Phase::Delete => {
                self.counters.paced_deletes = self.counters.paced_deletes.wrapping_add(1);
                self.counters.requested_ns_delete = self.counters.requested_ns_delete.wrapping_add(
                    ns as u64,
                );
                self.counters.spun_cycles_delete = self.counters.spun_cycles_delete.wrapping_add(
                    spun,
                );
            },
        }
    }

    /// `ns` in clock cycles.
    pub fn cycles_for(&self, ns: u32) -> (cycles: u64)
        ensures
            cycles == in_cycles(ns as nat, self.tsc_hz, 1_000_000_000),
            cycles == self.cycles_of(ns),
    {
        scaled(ns as u64, self.tsc_hz, 1_000_000_000)
    }

    /// Claim the next trace position and return the delay of `phase` there, in nanoseconds.
    pub fn next_delay_ns(&mut self, phase: Phase) -> (ns: u32)
        requires
            old(self).wf(),
        ensures
            ns == old(self).next_ns(phase),
            *final(self) == old(self).claimed(),
            final(self).wf(),
    {
        let k: usize = self.claim();
        self.ops[k].ns(phase)
    }

    /// Next trace index, wrapping. Reuse is counted, not assumed.
    pub fn claim(&mut self) -> (k: usize)
        requires
            old(self).wf(),
        ensures
            k == old(self).next_index(),
            *final(self) == old(self).claimed(),
            final(self).wf(),
            k < final(self).ops@.len(),
    {
        let n: usize = self.ops.len();
        let raw: usize = self.cursor;
        self.cursor = raw.wrapping_add(1);
        if raw != 0 && raw % n == 0 {
            self.counters.trace_wraps = self.counters.trace_wraps.wrapping_add(1);
        }
        raw % n
    }

    /// How to begin a wait of `target` cycles. A long wait may start with a coarse sleep that
    /// leaves the threshold to be spun.
    pub fn spin(&self, target: u64) -> (spin: Spin)
        requires
            self.wf(),
        ensures
            spin == (if target == 0 {
                Spin::Nothing
            } else if self.sleep_threshold_cycles != 0 && target > self.sleep_threshold_cycles {
                Spin::Watch {
                    sleep_ns: Some(
                        in_ns((target - self.sleep_threshold_cycles) as u64, self.tsc_hz),
                    ),
                }
            } else {
                Spin::Watch { sleep_ns: None }
            }),
            spin == self.spin_for(target),
    {
        if target == 0 {
            return Spin::Nothing;
        }
        if self.sleep_threshold_cycles != 0 && target > self.sleep_threshold_cycles {
            let coarse: u64 = target - self.sleep_threshold_cycles;
            Spin::Watch { sleep_ns: Some(scaled_down(coarse, self.tsc_hz)) }
        } else {
            Spin::Watch { sleep_ns: None }
        }
    }

    /// The pacer's counters, with those of the teardown that followed it.
    pub fn stats(&self, active: bool, unpaced_inserts: u64, unpaced_deletes: u64) -> (stats:
        NicLatencyStats)
        ensures
            stats == self.stats_with(active, unpaced_inserts, unpaced_deletes),
    {
        let c = &self.counters;
        NicLatencyStats {
            active,
            configured: true,
            trace_ops: self.ops.len(),
            scale_bits: self.scale_bits,
            tsc_hz: self.tsc_hz,
            paced_inserts: c.paced_inserts,
            paced_deletes: c.paced_deletes,
            requested_ns_insert: c.requested_ns_insert,
            requested_ns_delete: c.requested_ns_delete,
            spun_cycles_insert: c.spun_cycles_insert,
            spun_cycles_delete: c.spun_cycles_delete,
            trace_wraps: c.trace_wraps,
            unpaced_teardown_inserts: unpaced_inserts,
            unpaced_teardown_deletes: unpaced_deletes,
        }
    }

    /// The snapshot that the pacer gives.
    pub open spec fn stats_with(
        self,
        active: bool,
        unpaced_inserts: u64,
        unpaced_deletes: u64,
    ) -> NicLatencyStats {
        NicLatencyStats {
            active,
            configured: true,
            trace_ops: self.ops@.len() as usize,
            scale_bits: self.scale_bits,
            tsc_hz: self.tsc_hz,
            paced_inserts: self.counters.paced_inserts,
            paced_deletes: self.counters.paced_deletes,
            requested_ns_insert: self.counters.requested_ns_insert,
            requested_ns_delete: self.counters.requested_ns_delete,
            spun_cycles_insert: self.counters.spun_cycles_insert,
            spun_cycles_delete: self.counters.spun_cycles_delete,
            trace_wraps: self.counters.trace_wraps,
            unpaced_teardown_inserts: unpaced_inserts,
            unpaced_teardown_deletes: unpaced_deletes,
        }
    }
}

/// The cycles that have elapsed at `now` since `start`, if they are `target` or more.
pub open spec fn over_at(start: u64, now: u64, target: u64) -> Option<u64> {
    if now.wrapping_sub(start) < target {
        None
    } else {
        Some(now.wrapping_sub(start))
    }
}

/// Whether a spin of `target` cycles that began at clock reading `start` is over at `now`, and the
/// cycles that have elapsed if it is: never fewer than asked for.
pub fn spun(start: u64, now: u64, target: u64) -> (elapsed: Option<u64>)
    ensures
        elapsed == (if now.wrapping_sub(start) >= target {
            Some(now.wrapping_sub(start))
        } else {
            None
        }),
        elapsed matches Some(e) ==> e >= target,
        elapsed == over_at(start, now, target),
{
    let elapsed: u64 = now.wrapping_sub(start);
    if elapsed >= target {
        Some(elapsed)
    } else {
        None
    }
}

fn is_usable_scale(scale_bits: u64) -> (usable: bool)
    ensures
        usable == usable_scale(scale_bits),
{
    scale_bits < 0x7ff0_0000_0000_0000 || scale_bits == 0x8000_0000_0000_0000
}

fn scaled(amount: u64, tsc_hz: u64, per: u64) -> (cycles: u64)
    requires
        per > 0,
    ensures
        cycles == in_cycles(amount as nat, tsc_hz, per as nat),
{
    proof {
        assert(0 <= amount * tsc_hz <= 0xffff_ffff_ffff_ffff * 0xffff_ffff_ffff_ffff)
            by (nonlinear_arith)
            requires
                0 <= amount <= 0xffff_ffff_ffff_ffff,
                0 <= tsc_hz <= 0xffff_ffff_ffff_ffff,
        ;
    }
    let product: u128 = amount as u128 * tsc_hz as u128;
    (product / per as u128 % 0x1_0000_0000_0000_0000) as u64
}

fn scaled_down(cycles: u64, tsc_hz: u64) -> (ns: u64)
    requires
        tsc_hz > 0,
    ensures
        ns == in_ns(cycles, tsc_hz),
{
    let product: u128 = cycles as u128 * 1_000_000_000;
    (product / tsc_hz as u128 % 0x1_0000_0000_0000_0000) as u64
}

/// Snapshot of the emulation's activity.
#[derive(Debug, Clone, Copy, PartialEq, Eq, Structural)]
pub struct NicLatencyStats {
    /// True while operations are being paced.
    pub active: bool,
    /// True once a trace is loaded, whether or not pacing is active.
    pub configured: bool,
    pub trace_ops: usize,
    /// The scale as the bits of a double.
    pub scale_bits: u64,
    pub tsc_hz: u64,
    pub paced_inserts: u64,
    pub paced_deletes: u64,
    /// Sum of the latencies requested. Over the op count this reproduces the trace's mean.
    pub requested_ns_insert: u64,
    pub requested_ns_delete: u64,
    /// Cycles actually spun; against the latencies requested, the overshoot.
    pub spun_cycles_insert: u64,
    pub spun_cycles_delete: u64,
    /// Times the cursor ran off the end of the trace and restarted.
    pub trace_wraps: u64,
    /// Operations that ran at native speed because teardown had begun.
    pub unpaced_teardown_inserts: u64,
    pub unpaced_teardown_deletes: u64,
}

impl NicLatencyStats {
    /// No trace was ever loaded.
    pub open spec fn zero() -> NicLatencyStats {
        NicLatencyStats {
            active: false,
            configured: false,
            trace_ops: 0,
            scale_bits: 0,
            tsc_hz: 0,
            paced_inserts: 0,
            paced_deletes: 0,
            requested_ns_insert: 0,
            requested_ns_delete: 0,
            spun_cycles_insert: 0,
            spun_cycles_delete: 0,
            trace_wraps: 0,
            unpaced_teardown_inserts: 0,
            unpaced_teardown_deletes: 0,
        }
    }

    /// Operations of `phase` that were paced.
    pub open spec fn paced(self, phase: Phase) -> u64 {
        match phase {
            Phase::Insert => self.paced_inserts,
            Phase::Delete => self.paced_deletes,
        }
    }

    /// Nanoseconds requested for `phase`.
    pub open spec fn requested(self, phase: Phase) -> u64 {
        match phase {
            Phase::Insert => self.requested_ns_insert,
            Phase::Delete => self.requested_ns_delete,
        }
    }

    /// Cycles spun for `phase`.
    pub open spec fn spun(self, phase: Phase) -> u64 {
        match phase {
            Phase::Insert => self.spun_cycles_insert,
            Phase::Delete => self.spun_cycles_delete,
        }
    }

    /// Mean latency of `phase` that was requested, in microseconds.
    pub open spec fn mean_us(self, phase: Phase) -> Ratio {
        Ratio::exact(self.requested(phase) as int, self.paced(phase) * 1000)
    }

    /// Cycles spun over cycles requested.
    pub open spec fn overshoot(self) -> Ratio {
        Ratio::exact(
            (self.spun_cycles_insert + self.spun_cycles_delete) * 1_000_000_000,
            (self.requested_ns_insert + self.requested_ns_delete) * self.tsc_hz,
        )
    }

    /// Cycles spun over the cycles of `worker_cores` cores in `wall_cycles`.
    pub open spec fn busy_share(self, wall_cycles: u64, worker_cores: u64) -> Ratio {
        Ratio::exact(
            self.spun_cycles_insert + self.spun_cycles_delete,
            wall_cycles * worker_cores,
        )
    }

    /// Mean insert latency requested, in microseconds; compare with the trace's own mean.
    pub fn mean_insert_us(&self) -> (mean: Ratio)
        ensures
            mean == Ratio::exact(self.requested_ns_insert as int, self.paced_inserts * 1000),
            mean == self.mean_us(Phase::Insert),
    {
        Ratio::of(self.requested_ns_insert as u128, self.paced_inserts as u128 * 1000)
    }

    /// Mean delete latency requested, in microseconds.
    pub fn mean_delete_us(&self) -> (mean: Ratio)
        ensures
            mean == Ratio::exact(self.requested_ns_delete as int, self.paced_deletes * 1000),
            mean == self.mean_us(Phase::Delete),
    {
        Ratio::of(self.requested_ns_delete as u128, self.paced_deletes as u128 * 1000)
    }

    /// Cycles spun over cycles requested, zero if nothing was requested.
    pub fn spin_overshoot_ratio(&self) -> (r: Ratio)
        requires
            self.requested_ns_insert + self.requested_ns_delete <= u64::MAX,
            self.spun_cycles_insert + self.spun_cycles_delete <= u64::MAX,
        ensures
            r == Ratio::exact(
                (self.spun_cycles_insert + self.spun_cycles_delete) * 1_000_000_000,
                (self.requested_ns_insert + self.requested_ns_delete) * self.tsc_hz,
            ),
            r == self.overshoot(),
    {
        let requested: u64 = self.requested_ns_insert + self.requested_ns_delete;
        let spun: u64 = self.spun_cycles_insert + self.spun_cycles_delete;
        proof {
            assert(0 <= requested * self.tsc_hz <= 0xffff_ffff_ffff_ffff * 0xffff_ffff_ffff_ffff)
                by (nonlinear_arith)
                requires
                    0 <= requested <= 0xffff_ffff_ffff_ffff,
                    0 <= self.tsc_hz <= 0xffff_ffff_ffff_ffff,
            ;
        }
        Ratio::of(spun as u128 * 1_000_000_000, requested as u128 * self.tsc_hz as u128)
    }

    /// Emulated cycles as a fraction of `wall_cycles * worker_cores`. Near one the install worker
    /// is saturated.
    pub fn worker_busy_fraction(&self, wall_cycles: u64, worker_cores: u64) -> (r: Ratio)
        requires
            self.spun_cycles_insert + self.spun_cycles_delete <= u64::MAX,
        ensures
            r == Ratio::exact(
                self.spun_cycles_insert + self.spun_cycles_delete,
                wall_cycles * worker_cores,
            ),
            r == self.busy_share(wall_cycles, worker_cores),
    {
        let spun: u64 = self.spun_cycles_insert + self.spun_cycles_delete;
        proof {
            assert(0 <= wall_cycles * worker_cores <= 0xffff_ffff_ffff_ffff
                * 0xffff_ffff_ffff_ffff) by (nonlinear_arith)
                requires
                    0 <= wall_cycles <= 0xffff_ffff_ffff_ffff,
                    0 <= worker_cores <= 0xffff_ffff_ffff_ffff,
            ;
        }
        Ratio::of(spun as u128, wall_cycles as u128 * worker_cores as u128)
    }
}

impl Default for NicLatencyStats {
    fn default() -> (stats: NicLatencyStats)
        ensures
            stats == NicLatencyStats::zero(),
    {
        NicLatencyStats {
            active: false,
            configured: false,
            trace_ops: 0,
            scale_bits: 0,
            tsc_hz: 0,
            paced_inserts: 0,
            paced_deletes: 0,
            requested_ns_insert: 0,
            requested_ns_delete: 0,
            spun_cycles_insert: 0,
            spun_cycles_delete: 0,
            trace_wraps: 0,
            unpaced_teardown_inserts: 0,
            unpaced_teardown_deletes: 0,
        }
    }
}

/// Whether operations are paced, and why not.
#[derive(Debug, Clone, Copy, PartialEq, Eq, Structural)]
pub enum State {
    /// No trace was loaded.
    Unconfigured,
    /// Operations are paced.
    Active,
    /// A trace was loaded, but pacing is switched off.
    Off,
    /// Teardown has begun.
    Suspended,
}

/// The emulation of one process.
#[derive(Debug)]
pub struct NicLatency {
    pub state: State,
    pub pacer: Option<Pacer>,
    /// Operations that ran at native speed because teardown had begun.
    pub unpaced_teardown_inserts: u64,
    pub unpaced_teardown_deletes: u64,
}

/// The emulation's settings.
#[derive(Debug, Clone, Copy, PartialEq, Eq, Structural)]
pub struct NicLatencyConfig {
    /// Whether to pace at all.
    pub enabled: bool,
    /// Multiplies every latency of the trace; the bits of a double.
    pub scale_bits: u64,
    /// Cut the trace off at this operation; zero for all of it.
    pub limit_ops: usize,
    /// Sleep through waits longer than this; zero for a pure spin.
    pub sleep_threshold_us: u64,
}

/// Why the emulation could not be set up.
#[derive(Debug, Clone, PartialEq, Eq)]
pub enum InitError {
    /// The clock has no frequency yet.
    NoClock,
    /// The trace is refused.
    Trace(TraceError),
    /// The emulation was set up before.
    AlreadyInitialised,
}

impl NicLatency {
    /// A pacer exists exactly once the emulation is configured, and it is valid.
    pub open spec fn wf(self) -> bool {
        &&& self.state == State::Unconfigured <==> self.pacer is None
        &&& self.pacer matches Some(p) ==> p.wf()
    }

    /// The emulation once `pacer` has been installed.
    pub open spec fn installed(self, pacer: Pacer, enabled: bool) -> NicLatency {
        NicLatency {
            pacer: Some(pacer),
            state: if enabled {
                State::Active
            } else {
                State::Off
            },
            ..self
        }
    }

    /// The emulation once teardown has begun.
    pub open spec fn suspended(self) -> NicLatency {
        NicLatency {
            state: if self.state == State::Active {
                State::Suspended
            } else {
                self.state
            },
            ..self
        }
    }

    /// The emulation once an operation of `phase` has come in.
    pub open spec fn met(self, phase: Phase) -> NicLatency {
        match self.state {
            State::Active => NicLatency {
                pacer: match self.pacer {
                    Some(p) => Some(p.claimed()),
                    None => None,
                },
                ..self
            },
            State::Suspended => match phase {
                Phase::Insert => NicLatency {
                    unpaced_teardown_inserts: self.unpaced_teardown_inserts.wrapping_add(1),
                    ..self
                },
                Phase::Delete => NicLatency {
                    unpaced_teardown_deletes: self.unpaced_teardown_deletes.wrapping_add(1),
                    ..self
                },
            },
            _ => self,
        }
    }

    /// What an operation of `phase` that comes in is charged.
    pub open spec fn charge_for(self, phase: Phase) -> Option<Charge> {
        match self.pacer {
            Some(p) => if self.state == State::Active {
                Some(Charge { ns: p.next_ns(phase), cycles: p.cycles_of(p.next_ns(phase)) })
            } else {
                None
            },
            None => None,
        }
    }

    /// What a reader sees.
    pub open spec fn cost(self) -> NicLatencyStats {
        match self.pacer {
            Some(p) => p.stats_with(
                self.state == State::Active,
                self.unpaced_teardown_inserts,
                self.unpaced_teardown_deletes,
            ),
            None => NicLatencyStats::zero(),
        }
    }

    /// Nothing is configured yet.
    pub fn new() -> (latency: NicLatency)
        ensures
            latency == (NicLatency {
                state: State::Unconfigured,
                pacer: None,
                unpaced_teardown_inserts: 0,
                unpaced_teardown_deletes: 0,
            }),
            latency.wf(),
    {
        NicLatency {
            state: State::Unconfigured,
            pacer: None,
            unpaced_teardown_inserts: 0,
            unpaced_teardown_deletes: 0,
        }
    }
}

/// Install `pacer` and leave the unconfigured state. There is one pacer per process.
pub fn install(latency: &mut NicLatency, pacer: Pacer, enabled: bool) -> (done: Result<
    (),
    InitError,
>)
    requires
        old(latency).wf(),
        pacer.wf(),
    ensures
        old(latency).pacer is Some ==> done == Err::<(), InitError>(InitError::AlreadyInitialised)
            && *final(latency) == *old(latency),
        old(latency).pacer is None ==> done == Ok::<(), InitError>(()) && *final(latency) == old(
            latency,
        ).installed(pacer, enabled),
        done is Ok <==> old(latency).pacer is None,
        *final(latency) == old(latency).after_install(pacer, enabled),
        final(latency).wf(),
{
    if latency.pacer.is_some() {
        return Err(InitError::AlreadyInitialised);
    }
    latency.pacer = Some(pacer);
    latency.state = if enabled {
        State::Active
    } else {
        State::Off
    };
    Ok(())
}

/// Load a trace and arm the emulation, `readings` giving what each row's `us` field says at the
/// configured scale. Errors rather than degrading: a run that silently skipped pacing could not be
/// told from one without emulation.
///
/// `None`, with nothing changed, if there is not one reading per row, or if an operation's number
/// is too large for any table.
pub fn init(
    latency: &mut NicLatency,
    cfg: &NicLatencyConfig,
    bytes: &[u8],
    readings: &Vec<UsReading>,
    tsc_hz: u64,
) -> (done: Option<Result<(), InitError>>)
    requires
        old(latency).wf(),
    ensures
        ({
            let outcome = trace::loaded(trace::csv_rows_of(bytes@), readings@, cfg.limit_ops);
            match done {
                None => {
                    &&& tsc_hz != 0
                    &&& readings@.len() != trace::csv_rows_of(bytes@).len() || out_of_bounds(
                        outcome,
                        tsc_hz,
                        cfg.scale_bits,
                    )
                    &&& *final(latency) == *old(latency)
                },
                Some(Ok(())) => exists|pacer: Pacer|
                    {
                        &&& readings@.len() == trace::csv_rows_of(bytes@).len()
                        &&& #[trigger] paced_by(
                            Ok(pacer),
                            outcome,
                            tsc_hz,
                            cfg.scale_bits,
                            cfg.sleep_threshold_us,
                        )
                        &&& old(latency).pacer is None
                        &&& *final(latency) == old(latency).installed(pacer, cfg.enabled)
                        &&& *final(latency) == old(latency).armed(pacer, *cfg)
                    },
                Some(Err(InitError::NoClock)) => tsc_hz == 0 && *final(latency) == *old(latency),
                Some(Err(InitError::Trace(error))) => {
                    &&& tsc_hz != 0
                    &&& readings@.len() == trace::csv_rows_of(bytes@).len()
                    &&& paced_by(
                        Err(error),
                        outcome,
                        tsc_hz,
                        cfg.scale_bits,
                        cfg.sleep_threshold_us,
                    )
                    &&& *final(latency) == *old(latency)
                },
                Some(Err(InitError::AlreadyInitialised)) => {
                    &&& old(latency).pacer is Some
                    &&& readings@.len() == trace::csv_rows_of(bytes@).len()
                    &&& outcome is Ops && usable_scale(cfg.scale_bits) && tsc_hz != 0
                    &&& *final(latency) == *old(latency)
                },
            }
        }),
        final(latency).wf(),
{
    if tsc_hz == 0 {
        return Some(Err(InitError::NoClock));
    }
    match Pacer::from_reader(
        bytes,
        readings,
        tsc_hz,
        cfg.scale_bits,
        cfg.limit_ops,
        cfg.sleep_threshold_us,
    ) {
        None => None,
        Some(Err(error)) => Some(Err(InitError::Trace(error))),
        Some(Ok(pacer)) => Some(install(latency, pacer, cfg.enabled)),
    }
}

/// Stop pacing, permanently. The off and unconfigured states are left alone, so that the reported
/// state still says why nothing was paced.
pub fn suspend(latency: &mut NicLatency)
    requires
        old(latency).wf(),
    ensures
        *final(latency) == old(latency).suspended(),
        final(latency).wf(),
{
    if latency.state == State::Active {
        latency.state = State::Suspended;
    }
}

/// Charge an operation of `phase`: what to spin for before the real operation, if anything. Report
/// the spin with [`charged`] once it is over.
pub fn charge(latency: &mut NicLatency, phase: Phase) -> (charge: Option<Charge>)
    requires
        old(latency).wf(),
    ensures
        charge == (match (old(latency).state, old(latency).pacer) {
            (State::Active, Some(p)) => Some(
                Charge {
                    ns: p.next_ns(phase),
                    cycles: in_cycles(p.next_ns(phase) as nat, p.tsc_hz, 1_000_000_000),
                },
            ),
            _ => None,
        }),
        charge == old(latency).charge_for(phase),
        *final(latency) == old(latency).met(phase),
        final(latency).wf(),
{
    match latency.state {
        State::Active => match &mut latency.pacer {
            Some(pacer) => Some(pacer.charge(phase)),
            None => None,
        },
        State::Suspended => {
            match phase {
                Phase::Insert => {
                    latency.unpaced_teardown_inserts =
                    latency.unpaced_teardown_inserts.wrapping_add(1);
                },
                Phase::Delete => {
                    latency.unpaced_teardown_deletes =
                    latency.unpaced_teardown_deletes.wrapping_add(1);
                },
            }
            None
        },
        _ => None,
    }
}

/// Count an operation of `phase` that was charged `ns` and spun `spun` cycles. Pacing may have been
/// suspended meanwhile.
pub fn charged(latency: &mut NicLatency, phase: Phase, ns: u32, spun: u64)
    requires
        old(latency).wf(),
        old(latency).pacer is Some,
    ensures
        *final(latency) == (NicLatency {
            pacer: Some(old(latency).pacer->0.recorded(phase, ns, spun)),
            ..*old(latency)
        }),
        *final(latency) == old(latency).reported(phase, ns, spun),
        final(latency).wf(),
{
    if let Some(pacer) = &mut latency.pacer {
        pacer.record(phase, ns, spun);
    }
}

/// Snapshot of the emulation's counters. All zero, and `configured` false, if no trace loaded.
pub fn nic_latency_cost(latency: &NicLatency) -> (stats: NicLatencyStats)
    ensures
        stats == latency.cost(),
{
    match &latency.pacer {
        Some(pacer) => pacer.stats(
            latency.state == State::Active,
            latency.unpaced_teardown_inserts,
            latency.unpaced_teardown_deletes,
        ),
        None => NicLatencyStats::default(),
    }
}

/// Nanoseconds of `phase` in the first `k` operations of a trace replayed over and over.
pub open spec fn total_ns(ops: Seq<TraceOp>, phase: Phase, k: nat) -> nat
    decreases k,
{
    if k == 0 {
        0
    } else {
        total_ns(ops, phase, (k - 1) as nat) + ops[((k - 1) as nat % ops.len()) as int].of(
            phase,
        ) as nat
    }
}

impl Pacer {
    /// The pacer once operations of the given phases have been charged one after the other and have
    /// spun the given cycles.
    pub open spec fn replayed(self, phases: Seq<Phase>, spun: Seq<u64>) -> Pacer
        decreases phases.len(),
    {
        if phases.len() == 0 {
            self
        } else {
            let before = self.replayed(phases.drop_last(), spun);
            before.claimed().recorded(
                phases.last(),
                before.next_ns(phases.last()),
                spun[phases.len() - 1],
            )
        }
    }
}

impl Pacer {
    /// The pacer once `k` positions have been claimed one after the other.
    pub open spec fn claimed_times(self, k: nat) -> Pacer
        decreases k,
    {
        if k == 0 {
            self
        } else {
            self.claimed_times((k - 1) as nat).claimed()
        }
    }

    /// The position to be claimed next.
    pub open spec fn next_index(self) -> nat {
        self.cursor as nat % self.ops@.len()
    }
}

/// On a pacer that has not claimed anything, the claim after `k` others gives position `k` modulo
/// the length of the trace, which is always a position of it, and leaves the reuse count at the
/// number of full passes made before: zero through the first pass, one more with each further one.
pub proof fn law_claims_walk_the_trace(p: Pacer, k: nat)
    requires
        p.wf(),
        p.cursor == 0,
        p.counters.trace_wraps == 0,
        k < usize::MAX,
    ensures
        p.claimed_times(k).ops == p.ops,
        p.claimed_times(k).cursor == k,
        p.claimed_times(k).next_index() == k % p.ops@.len(),
        p.claimed_times(k).next_index() < p.ops@.len(),
        p.claimed_times(k + 1).counters.trace_wraps == k / p.ops@.len(),
    decreases k,
{
    let n = p.ops@.len() as int;
    vstd::arithmetic::div_mod::lemma_mod_bound(k as int, n);
    if k > 0 {
        law_claims_walk_the_trace(p, (k - 1) as nat);
        lemma_next_quotient(k - 1, n);
    } else {
        vstd::arithmetic::div_mod::lemma_div_basics(n);
        reveal_with_fuel(Pacer::claimed_times, 2);
    }
}

/// Operations of `phase` among `phases`.
pub open spec fn count_of(phases: Seq<Phase>, phase: Phase) -> nat
    decreases phases.len(),
{
    if phases.len() == 0 {
        0
    } else {
        count_of(phases.drop_last(), phase) + if phases.last() == phase {
            1nat
        } else {
            0
        }
    }
}

/// Nanoseconds that the operations of `phase` among `phases` are charged when each operation takes
/// the next entry of the trace.
pub open spec fn charged_ns(ops: Seq<TraceOp>, phases: Seq<Phase>, phase: Phase) -> nat
    decreases phases.len(),
{
    if phases.len() == 0 {
        0
    } else {
        charged_ns(ops, phases.drop_last(), phase) + if phases.last() == phase {
            ops[((phases.len() - 1) as nat % ops.len()) as int].of(phase) as nat
        } else {
            0
        }
    }
}

/// Every charge takes the next operation of the trace, whatever its phase, and starts over at the
/// end. Reuse is counted, and so is every operation with what it asked for.
pub proof fn law_every_charge_takes_the_next_op(p: Pacer, phases: Seq<Phase>, spun: Seq<u64>, next: Phase)
    requires
        p.wf(),
        p.cursor == 0,
        p.counters == PacerCounters::zero(),
        phases.len() <= usize::MAX,
        phases.len() <= u64::MAX,
        charged_ns(p.ops@, phases, Phase::Insert) <= u64::MAX,
        charged_ns(p.ops@, phases, Phase::Delete) <= u64::MAX,
    ensures
        p.replayed(phases, spun).ops == p.ops,
        p.replayed(phases, spun).cursor == phases.len(),
        p.replayed(phases, spun).next_ns(next) == p.ops@[(phases.len() % p.ops@.len()) as int].of(
            next,
        ),
        p.replayed(phases, spun).counters.trace_wraps == if phases.len() == 0 {
            0
        } else {
            (phases.len() - 1) / p.ops@.len() as int
        },
        forall|phase: Phase|
            #![auto]
            p.replayed(phases, spun).counters.paced(phase) == count_of(phases, phase)
                && p.replayed(phases, spun).counters.requested(phase) == charged_ns(
                p.ops@,
                phases,
                phase,
            ),
    decreases phases.len(),
{
    if phases.len() > 0 {
        let init = phases.drop_last();
        let n = p.ops@.len() as int;
        let k = phases.len() - 1;
        law_every_charge_takes_the_next_op(p, init, spun, phases.last());
        lemma_counts_fit(init);
        lemma_counts_fit(phases);
        if k > 0 {
            lemma_next_quotient(k - 1, n);
        } else {
            vstd::arithmetic::div_mod::lemma_div_basics(n);
        }
    }
}

proof fn lemma_counts_fit(phases: Seq<Phase>)
    ensures
        count_of(phases, Phase::Insert) + count_of(phases, Phase::Delete) == phases.len(),
    decreases phases.len(),
{
    if phases.len() > 0 {
        lemma_counts_fit(phases.drop_last());
    }
}

/// The quotient steps up exactly when the next number is a multiple of the divisor.
proof fn lemma_next_quotient(k: int, n: int)
    requires
        k >= 0,
        n > 0,
    ensures
        (k + 1) / n == k / n + if (k + 1) % n == 0 {
            1int
        } else {
            0
        },
        0 <= k / n <= k,
{
    vstd::arithmetic::div_mod::lemma_fundamental_div_mod(k, n);
    vstd::arithmetic::div_mod::lemma_div_nonincreasing(k, n);
    vstd::arithmetic::div_mod::lemma_div_pos_is_pos(k, n);
    let q = k / n;
    assert(n * (q + 1) == n * q + n) by (nonlinear_arith);
    assert(q * n == n * q) by (nonlinear_arith);
    assert((q + 1) * n == n * q + n) by (nonlinear_arith);
    if k % n + 1 == n {
        vstd::arithmetic::div_mod::lemma_fundamental_div_mod_converse(k + 1, n, q + 1, 0);
    } else {
        vstd::arithmetic::div_mod::lemma_fundamental_div_mod_converse(k + 1, n, q, k % n + 1);
    }
}

/// Replaying a whole trace with operations of one phase reproduces the trace's mean for it.
pub proof fn law_a_whole_replay_has_the_traces_mean(p: Pacer, phase: Phase, spun: Seq<u64>)
    requires
        p.wf(),
        p.cursor == 0,
        p.counters == PacerCounters::zero(),
        p.ops@.len() <= usize::MAX,
        total_ns(p.ops@, phase, p.ops@.len()) <= u64::MAX,
    ensures
        ({
            let c = p.replayed(Seq::new(p.ops@.len(), |i: int| phase), spun).counters;
            &&& c.requested(phase) == total_ns(p.ops@, phase, p.ops@.len())
            &&& c.paced(phase) == p.ops@.len()
            &&& c.trace_wraps == 0
        }),
{
    let n = p.ops@.len();
    let phases = Seq::new(n, |i: int| phase);
    lemma_one_phase(p.ops@, phase, phases, n);
    let other = match phase {
        Phase::Insert => Phase::Delete,
        Phase::Delete => Phase::Insert,
    };
    lemma_no_other_phase(p.ops@, phases, other);
    law_every_charge_takes_the_next_op(p, phases, spun, phase);
    vstd::arithmetic::div_mod::lemma_basic_div(n - 1, n as int);
}

proof fn lemma_one_phase(ops: Seq<TraceOp>, phase: Phase, phases: Seq<Phase>, k: nat)
    requires
        phases.len() == k,
        forall|i: int| 0 <= i < k ==> phases[i] == phase,
    ensures
        count_of(phases, phase) == k,
        charged_ns(ops, phases, phase) == total_ns(ops, phase, k),
    decreases k,
{
    if k > 0 {
        lemma_one_phase(ops, phase, phases.drop_last(), (k - 1) as nat);
    }
}

proof fn lemma_no_other_phase(ops: Seq<TraceOp>, phases: Seq<Phase>, other: Phase)
    requires
        forall|i: int| 0 <= i < phases.len() ==> phases[i] != other,
    ensures
        charged_ns(ops, phases, other) == 0,
    decreases phases.len(),
{
    if phases.len() > 0 {
        lemma_no_other_phase(ops, phases.drop_last(), other);
    }
}

/// Suspension is permanent: an operation that comes in afterwards is not paced and not charged, is
/// counted as skipped, and leaves pacing suspended; suspending again changes nothing.
pub proof fn law_suspension_is_permanent(latency: NicLatency, phase: Phase)
    requires
        latency.wf(),
        latency.state == State::Active,
    ensures
        ({
            let s = latency.suspended();
            &&& s.wf()
            &&& s.suspended() == s
            &&& s.met(phase).state == State::Suspended
            &&& s.met(phase).pacer == latency.pacer
            &&& s.met(phase).unpaced_teardown_inserts == if phase == Phase::Insert {
                latency.unpaced_teardown_inserts.wrapping_add(1)
            } else {
                latency.unpaced_teardown_inserts
            }
            &&& s.met(phase).unpaced_teardown_deletes == if phase == Phase::Delete {
                latency.unpaced_teardown_deletes.wrapping_add(1)
            } else {
                latency.unpaced_teardown_deletes
            }
            &&& !s.met(phase).cost().active
            &&& s.met(phase).cost().configured
        }),
{
}

/// Without pacing nothing is counted: switched off or unconfigured, the emulation does not change.
pub proof fn law_an_unpaced_run_counts_nothing(latency: NicLatency, phase: Phase)
    requires
        latency.wf(),
        latency.state == State::Off || latency.state == State::Unconfigured,
    ensures
        latency.met(phase) == latency,
        latency.suspended() == latency,
        !latency.cost().active,
        latency.cost().configured == (latency.state == State::Off),
{
}

/// An eviction, a delete followed by an insert, is charged the delete of one operation of the trace
/// and the insert of the next one.
pub proof fn law_an_eviction_pays_for_both(p: Pacer)
    requires
        p.wf(),
        p.cursor < usize::MAX,
    ensures
        p.next_ns(Phase::Delete) == p.ops@[(p.cursor as nat % p.ops@.len()) as int].delete_ns,
        p.claimed().next_ns(Phase::Insert) == p.ops@[((p.cursor as nat + 1)
            % p.ops@.len()) as int].insert_ns,
{
}

/// A time given in units of which `per` make a second comes to the cycles that the clock completes
/// in it, whatever its frequency: not one more, and less than one short. Where they do not fit in
/// 64 bits, the low 64 bits are kept.
pub proof fn law_cycles_stand_for_the_time(amount: nat, tsc_hz: u64, per: nat)
    requires
        per > 0,
    ensures
        amount * tsc_hz < per * 0x1_0000_0000_0000_0000 ==> {
            let c = in_cycles(amount, tsc_hz, per) as int;
            c * per <= amount * tsc_hz < (c + 1) * per
        },
        exists|c: int|
            #![trigger c * per]
            c * per <= amount * tsc_hz < (c + 1) * per && in_cycles(amount, tsc_hz, per) == c
                % 0x1_0000_0000_0000_0000,
{
    lemma_whole_units(amount as int, tsc_hz as int, per as int);
    let q = (amount * tsc_hz) / per as int;
    assert(in_cycles(amount, tsc_hz, per) == q % 0x1_0000_0000_0000_0000);
    assert(q * per <= amount * tsc_hz < (q + 1) * per);
}

/// The quotient of a product is the number of whole divisors in it.
proof fn lemma_whole_units(a: int, b: int, per: int)
    requires
        a >= 0,
        b >= 0,
        per > 0,
    ensures
        (a * b) / per >= 0,
        (a * b) / per * per <= a * b < ((a * b) / per + 1) * per,
        a * b < per * 0x1_0000_0000_0000_0000 ==> (a * b) / per < 0x1_0000_0000_0000_0000,
{
    let p = a * b;
    let q = p / per;
    assert(p >= 0) by (nonlinear_arith)
        requires
            p == a * b,
            a >= 0,
            b >= 0,
    ;
    vstd::arithmetic::div_mod::lemma_fundamental_div_mod(p, per);
    vstd::arithmetic::div_mod::lemma_mod_bound(p, per);
    vstd::arithmetic::div_mod::lemma_div_pos_is_pos(p, per);
    assert(q * per == per * q) by (nonlinear_arith);
    assert((q + 1) * per == per * q + per) by (nonlinear_arith);
    if p < per * 0x1_0000_0000_0000_0000 && q >= 0x1_0000_0000_0000_0000 {
        assert(per * q >= per * 0x1_0000_0000_0000_0000) by (nonlinear_arith)
            requires
                q >= 0x1_0000_0000_0000_0000,
                per > 0,
        ;
    }
}

/// What an operation is charged is the latency of the next entry of the trace, and the cycles are
/// that time to within one cycle, at any clock frequency. Nothing is charged unless pacing is on.
pub proof fn law_a_charge_is_the_traces_latency(latency: NicLatency, phase: Phase)
    requires
        latency.wf(),
    ensures
        latency.charge_for(phase) is Some <==> latency.state == State::Active,
        latency.charge_for(phase) matches Some(charge) ==> {
            let p = latency.pacer->0;
            &&& charge.ns == p.ops@[(p.cursor as int) % (p.ops@.len() as int)].of(phase)
            &&& charge.ns * p.tsc_hz < 1_000_000_000 * 0x1_0000_0000_0000_0000 ==> charge.cycles
                * 1_000_000_000 <= charge.ns * p.tsc_hz < (charge.cycles + 1) * 1_000_000_000
        },
{
    if latency.pacer is Some {
        let p = latency.pacer->0;
        law_cycles_stand_for_the_time(p.next_ns(phase) as nat, p.tsc_hz, 1_000_000_000);
    }
}

/// The cycles that a pacer spins for a latency are that time to within one cycle.
pub proof fn law_a_pacer_spins_for_the_time(p: Pacer, ns: u32)
    requires
        ns * p.tsc_hz < 1_000_000_000 * 0x1_0000_0000_0000_0000,
    ensures
        p.cycles_of(ns) * 1_000_000_000 <= ns * p.tsc_hz < (p.cycles_of(ns) + 1) * 1_000_000_000,
{
    law_cycles_stand_for_the_time(ns as nat, p.tsc_hz, 1_000_000_000);
}

/// A fresh pacer stands before the first operation of its trace with nothing counted, and its
/// threshold is the given microseconds to within one cycle.
pub proof fn law_a_fresh_pacer_starts_at_the_first_op(
    p: Pacer,
    ops: Seq<TraceOp>,
    tsc_hz: u64,
    scale_bits: u64,
    us: u64,
    phase: Phase,
)
    requires
        is_fresh(p, ops, tsc_hz, scale_bits, us),
        ops.len() > 0,
        us * tsc_hz < 1_000_000 * 0x1_0000_0000_0000_0000,
    ensures
        p.next_ns(phase) == ops[0].of(phase),
        p.tsc_hz == tsc_hz,
        p.scale_bits == scale_bits,
        p.sleep_threshold_cycles * 1_000_000 <= us * tsc_hz < (p.sleep_threshold_cycles + 1)
            * 1_000_000,
        us == 0 ==> p.sleep_threshold_cycles == 0,
        p.counters.paced(phase) == 0,
        p.counters.requested(phase) == 0,
        p.counters.spun(phase) == 0,
        p.counters.trace_wraps == 0,
{
    law_cycles_stand_for_the_time(us as nat, tsc_hz, 1_000_000);
    vstd::arithmetic::div_mod::lemma_small_mod(0, ops.len());
    if us == 0 {
        assert(us * tsc_hz == 0) by (nonlinear_arith)
            requires
                us == 0,
        ;
    }
}

/// A wait begins with a sleep only if it is longer than the threshold and there is one. The sleep
/// leaves the threshold to be spun, and lasts to within a nanosecond as long as that allows: it
/// never runs past the wait. Only a wait for nothing is not spun at all.
pub proof fn law_a_sleep_leaves_the_threshold(p: Pacer, target: u64)
    requires
        p.wf(),
    ensures
        p.spin_for(target) == Spin::Nothing <==> target == 0,
        p.spin_for(target) matches Spin::Watch { sleep_ns } ==> {
            &&& sleep_ns is Some <==> 0 < p.sleep_threshold_cycles < target
            &&& sleep_ns matches Some(ns) ==> (target * 1_000_000_000 < p.tsc_hz
                * 0x1_0000_0000_0000_0000 ==> {
                &&& ns * p.tsc_hz + p.sleep_threshold_cycles * 1_000_000_000 <= target
                    * 1_000_000_000
                &&& target * 1_000_000_000 < (ns + 1) * p.tsc_hz + p.sleep_threshold_cycles
                    * 1_000_000_000
            })
        },
{
    if 0 < p.sleep_threshold_cycles < target {
        let coarse = target - p.sleep_threshold_cycles;
        lemma_whole_units(coarse, 1_000_000_000, p.tsc_hz as int);
    }
}

/// Cycles turned into nanoseconds are the whole nanoseconds in them.
pub proof fn law_nanoseconds_stand_for_the_cycles(cycles: u64, tsc_hz: u64)
    requires
        tsc_hz > 0,
        cycles * 1_000_000_000 < tsc_hz * 0x1_0000_0000_0000_0000,
    ensures
        in_ns(cycles, tsc_hz) * tsc_hz <= cycles * 1_000_000_000 < (in_ns(cycles, tsc_hz) + 1)
            * tsc_hz,
{
    lemma_whole_units(cycles as int, 1_000_000_000, tsc_hz as int);
}

/// A spin is over once as many cycles as asked for have gone by since it began, the clock starting
/// over or not, and what it took is reported in full.
pub proof fn law_a_spin_lasts_as_long_as_asked(start: u64, gone_by: u64, target: u64)
    ensures
        over_at(start, start.wrapping_add(gone_by), target) == if gone_by >= target {
            Some(gone_by)
        } else {
            None
        },
{
}

impl PacerCounters {
    /// Cycles spun for `phase`.
    pub open spec fn spun(self, phase: Phase) -> u64 {
        match phase {
            Phase::Insert => self.spun_cycles_insert,
            Phase::Delete => self.spun_cycles_delete,
        }
    }
}

/// Cycles that the operations of `phase` among `phases` have spun.
pub open spec fn spun_cycles(phases: Seq<Phase>, spun: Seq<u64>, phase: Phase) -> nat
    decreases phases.len(),
{
    if phases.len() == 0 {
        0
    } else {
        spun_cycles(phases.drop_last(), spun, phase) + if phases.last() == phase {
            spun[phases.len() - 1] as nat
        } else {
            0
        }
    }
}

/// What was spun is summed up per phase, in 64 bits.
pub proof fn law_spins_are_summed_per_phase(p: Pacer, phases: Seq<Phase>, spun: Seq<u64>, phase: Phase)
    ensures
        p.replayed(phases, spun).counters.spun(phase) == (p.counters.spun(phase) + spun_cycles(
            phases,
            spun,
            phase,
        )) % 0x1_0000_0000_0000_0000,
        p.replayed(phases, spun).ops == p.ops,
        p.replayed(phases, spun).tsc_hz == p.tsc_hz,
        p.replayed(phases, spun).scale_bits == p.scale_bits,
        p.replayed(phases, spun).sleep_threshold_cycles == p.sleep_threshold_cycles,
    decreases phases.len(),
{
    if phases.len() > 0 {
        law_spins_are_summed_per_phase(p, phases.drop_last(), spun, phase);
    }
}

/// A reader sees of a replay what it did: per phase the operations paced, what they asked for and
/// what they spun, how often the trace was reused, and the trace, scale and clock that it ran on.
pub proof fn law_a_reader_sees_the_replay(
    latency: NicLatency,
    p: Pacer,
    phases: Seq<Phase>,
    spun: Seq<u64>,
    phase: Phase,
)
    requires
        p.wf(),
        p.ops@.len() <= usize::MAX,
        p.cursor == 0,
        p.counters == PacerCounters::zero(),
        phases.len() <= usize::MAX,
        phases.len() <= u64::MAX,
        charged_ns(p.ops@, phases, Phase::Insert) <= u64::MAX,
        charged_ns(p.ops@, phases, Phase::Delete) <= u64::MAX,
        latency.pacer == Some(p.replayed(phases, spun)),
    ensures
        ({
            let seen = latency.cost();
            &&& seen.configured
            &&& seen.active <==> latency.state == State::Active
            &&& seen.trace_ops == p.ops@.len()
            &&& seen.scale_bits == p.scale_bits
            &&& seen.tsc_hz == p.tsc_hz
            &&& seen.paced(phase) == count_of(phases, phase)
            &&& seen.requested(phase) == charged_ns(p.ops@, phases, phase)
            &&& seen.spun(phase) == spun_cycles(phases, spun, phase) % 0x1_0000_0000_0000_0000
            &&& seen.trace_wraps == if phases.len() == 0 {
                0
            } else {
                (phases.len() - 1) / p.ops@.len() as int
            }
            &&& seen.unpaced_teardown_inserts == latency.unpaced_teardown_inserts
            &&& seen.unpaced_teardown_deletes == latency.unpaced_teardown_deletes
        }),
{
    law_every_charge_takes_the_next_op(p, phases, spun, phase);
    law_spins_are_summed_per_phase(p, phases, spun, phase);
    let c = p.replayed(phases, spun).counters;
    assert(c.paced(phase) == count_of(phases, phase));
    assert(c.requested(phase) == charged_ns(p.ops@, phases, phase));
    assert(c.spun(phase) == spun_cycles(phases, spun, phase) % 0x1_0000_0000_0000_0000);
}

/// A mean is what was requested over the operations paced, a thousand nanoseconds to the
/// microsecond; it is zero where nothing was paced.
pub proof fn law_a_mean_times_its_count_is_the_sum(stats: NicLatencyStats, phase: Phase)
    ensures
        stats.paced(phase) > 0 ==> {
            let mean = stats.mean_us(phase);
            mean.den > 0 && mean.num * (stats.paced(phase) * 1000) == stats.requested(phase)
                * mean.den
        },
        stats.paced(phase) == 0 ==> stats.mean_us(phase).num == 0 && stats.mean_us(phase).den > 0,
{
}

/// A replay of the whole trace with operations of one phase is reported with the trace's own mean.
pub proof fn law_a_whole_replay_reports_the_traces_mean(
    latency: NicLatency,
    p: Pacer,
    phase: Phase,
    spun: Seq<u64>,
)
    requires
        p.wf(),
        p.cursor == 0,
        p.counters == PacerCounters::zero(),
        p.ops@.len() <= usize::MAX,
        total_ns(p.ops@, phase, p.ops@.len()) <= u64::MAX,
        latency.pacer == Some(p.replayed(Seq::new(p.ops@.len(), |i: int| phase), spun)),
    ensures
        latency.cost().mean_us(phase) == p.mean_us(phase),
        latency.cost().trace_wraps == 0,
{
    law_a_whole_replay_has_the_traces_mean(p, phase, spun);
    let c = p.replayed(Seq::new(p.ops@.len(), |i: int| phase), spun).counters;
    assert(latency.cost().requested(phase) == c.requested(phase));
    assert(latency.cost().paced(phase) == c.paced(phase));
}

/// The total of a trace is the sum of its operations' latencies.
pub proof fn law_a_traces_total_is_the_sum_of_its_ops(ops: Seq<TraceOp>, phase: Phase, op: TraceOp)
    ensures
        total_ns(Seq::empty(), phase, 0) == 0,
        total_ns(ops.push(op), phase, ops.len() + 1) == total_ns(ops, phase, ops.len()) + (
        match phase {
            Phase::Insert => op.insert_ns,
            Phase::Delete => op.delete_ns,
        }),
{
    vstd::arithmetic::div_mod::lemma_small_mod(ops.len(), ops.len() + 1);
    lemma_totals_agree(ops, ops.push(op), phase, ops.len());
}

proof fn lemma_totals_agree(a: Seq<TraceOp>, b: Seq<TraceOp>, phase: Phase, k: nat)
    requires
        k <= a.len() <= b.len(),
        forall|i: int| 0 <= i < a.len() ==> a[i] == b[i],
    ensures
        total_ns(a, phase, k) == total_ns(b, phase, k),
    decreases k,
{
    if k > 0 {
        lemma_totals_agree(a, b, phase, (k - 1) as nat);
        vstd::arithmetic::div_mod::lemma_small_mod((k - 1) as nat, a.len());
        vstd::arithmetic::div_mod::lemma_small_mod((k - 1) as nat, b.len());
    }
}

/// A run that spun exactly the time it asked for has an overshoot of one, one that spun longer has
/// more, and one that asked for nothing has none.
pub proof fn law_overshoot_is_spun_over_requested(stats: NicLatencyStats)
    requires
        stats.requested_ns_insert + stats.requested_ns_delete <= u64::MAX,
        stats.spun_cycles_insert + stats.spun_cycles_delete <= u64::MAX,
    ensures
        ({
            let r = stats.overshoot();
            let spun = (stats.spun_cycles_insert + stats.spun_cycles_delete) * 1_000_000_000;
            let requested = (stats.requested_ns_insert + stats.requested_ns_delete) * stats.tsc_hz;
            &&& r.den > 0
            &&& requested > 0 ==> r.num * requested == spun * r.den
            &&& requested > 0 ==> (r.num > r.den <==> spun > requested)
            &&& requested > 0 ==> (r.num == r.den <==> spun == requested)
            &&& requested == 0 ==> r.num == 0
        }),
{
    let ns = stats.requested_ns_insert + stats.requested_ns_delete;
    assert(0 <= ns * stats.tsc_hz <= 0xffff_ffff_ffff_ffff * 0xffff_ffff_ffff_ffff)
        by (nonlinear_arith)
        requires
            0 <= ns <= 0xffff_ffff_ffff_ffff,
            0 <= stats.tsc_hz <= 0xffff_ffff_ffff_ffff,
    ;
    let spun = (stats.spun_cycles_insert + stats.spun_cycles_delete) * 1_000_000_000;
    assert(spun * stats.overshoot().den == stats.overshoot().den * spun) by (nonlinear_arith);
}

/// The share of the workers' cycles that was spun.
pub proof fn law_busy_share_is_spun_over_wall(stats: NicLatencyStats, wall: u64, cores: u64)
    requires
        stats.spun_cycles_insert + stats.spun_cycles_delete <= u64::MAX,
        wall * cores > 0,
    ensures
        ({
            let r = stats.busy_share(wall, cores);
            &&& r.den > 0
            &&& r.num * (wall * cores) == (stats.spun_cycles_insert + stats.spun_cycles_delete)
                * r.den
        }),
{
    assert(0 <= wall * cores <= 0xffff_ffff_ffff_ffff * 0xffff_ffff_ffff_ffff) by (nonlinear_arith)
        requires
            0 <= wall <= 0xffff_ffff_ffff_ffff,
            0 <= cores <= 0xffff_ffff_ffff_ffff,
    ;
}

/// A usable scale is a double that is not negative and not infinite or undefined: its exponent is
/// not all ones, and its sign is set only on zero.
pub proof fn law_a_usable_scale_is_finite_and_not_negative(bits: u64)
    ensures
        usable_scale(bits) <==> {
            let exponent = (bits as int / 0x10_0000_0000_0000) % 0x800;
            let fraction = bits as int % 0x10_0000_0000_0000;
            let negative = bits as int / 0x8000_0000_0000_0000 == 1;
            exponent != 0x7ff && (negative ==> exponent == 0 && fraction == 0)
        },
{
}

/// Installing a pacer starts pacing exactly if it is enabled; either way a reader sees that a trace
/// is loaded, and nothing has been skipped by it.
pub proof fn law_installing_arms_if_enabled(latency: NicLatency, pacer: Pacer, enabled: bool, phase: Phase)
    requires
        latency.wf(),
        pacer.wf(),
    ensures
        ({
            let s = latency.installed(pacer, enabled);
            &&& s.wf()
            &&& s.pacer == Some(pacer)
            &&& s.cost().configured
            &&& s.cost().active <==> enabled
            &&& s.charge_for(phase) is Some <==> enabled
            &&& s.suspended().charge_for(phase) is None
            &&& s.unpaced_teardown_inserts == latency.unpaced_teardown_inserts
            &&& s.unpaced_teardown_deletes == latency.unpaced_teardown_deletes
        }),
{
}

/// While pacing is on, an operation moves the pacer on by one position and nothing else.
pub proof fn law_a_paced_operation_takes_one_position(latency: NicLatency, phase: Phase)
    requires
        latency.wf(),
        latency.state == State::Active,
        latency.pacer->0.cursor < usize::MAX,
    ensures
        ({
            let after = latency.met(phase);
            &&& after.state == State::Active
            &&& after.pacer->0.cursor == latency.pacer->0.cursor + 1
            &&& after.pacer->0.ops == latency.pacer->0.ops
            &&& after.unpaced_teardown_inserts == latency.unpaced_teardown_inserts
            &&& after.unpaced_teardown_deletes == latency.unpaced_teardown_deletes
        }),
{
}

/// A pacer is built only where the scale and the clock are usable and the trace loads, and it is
/// over the operations of the trace. A bad scale is reported before a missing clock, and either
/// before anything that is wrong with the trace.
pub proof fn law_a_pacer_is_over_the_loaded_trace(
    result: Result<Pacer, TraceError>,
    outcome: trace::Loading,
    tsc_hz: u64,
    scale_bits: u64,
    us: u64,
)
    requires
        paced_by(result, outcome, tsc_hz, scale_bits, us),
    ensures
        result is Ok <==> usable_scale(scale_bits) && tsc_hz != 0 && outcome is Ops,
        result matches Ok(p) ==> p.ops@ == outcome->Ops_0 && p.tsc_hz == tsc_hz && p.scale_bits
            == scale_bits && p.cursor == 0,
        result matches Err(e) ==> {
            &&& !usable_scale(scale_bits) ==> e@ == trace::Refusal::BadScale
            &&& usable_scale(scale_bits) && tsc_hz == 0 ==> e@ == trace::Refusal::NoClock
            &&& usable_scale(scale_bits) && tsc_hz != 0 ==> outcome == trace::Loading::Refused(e@)
        },
{
}

impl NicLatency {
    /// The emulation once the spin of an operation has been reported.
    pub open spec fn reported(self, phase: Phase, ns: u32, spun: u64) -> NicLatency {
        match self.pacer {
            Some(p) => NicLatency { pacer: Some(p.recorded(phase, ns, spun)), ..self },
            None => self,
        }
    }
}

/// A spin that is reported is seen by a reader: one operation of its phase more, with what it asked
/// for and what it spun, in 64 bits. Nothing of the other phase moves, and neither do the trace's
/// position and reuse, the state or the skips.
pub proof fn law_a_reported_spin_is_counted(
    latency: NicLatency,
    phase: Phase,
    other: Phase,
    ns: u32,
    spun: u64,
)
    requires
        latency.pacer is Some,
    ensures
        ({
            let before = latency.cost();
            let after = latency.reported(phase, ns, spun).cost();
            &&& after.paced(phase) == (before.paced(phase) + 1) % 0x1_0000_0000_0000_0000
            &&& after.requested(phase) == (before.requested(phase) + ns) % 0x1_0000_0000_0000_0000
            &&& after.spun(phase) == (before.spun(phase) + spun) % 0x1_0000_0000_0000_0000
            &&& other != phase ==> after.paced(other) == before.paced(other) && after.requested(
                other,
            ) == before.requested(other) && after.spun(other) == before.spun(other)
            &&& after.trace_wraps == before.trace_wraps
            &&& after.active == before.active && after.configured == before.configured
            &&& after.unpaced_teardown_inserts == before.unpaced_teardown_inserts
            &&& after.unpaced_teardown_deletes == before.unpaced_teardown_deletes
            &&& latency.reported(phase, ns, spun).pacer->0.cursor == latency.pacer->0.cursor
            &&& latency.reported(phase, ns, spun).state == latency.state
        }),
{
}

/// Per phase, a reader is shown the counts of that phase.
pub proof fn law_a_phase_is_shown_its_own_counts(stats: NicLatencyStats, c: PacerCounters)
    ensures
        stats.paced(Phase::Insert) == stats.paced_inserts,
        stats.paced(Phase::Delete) == stats.paced_deletes,
        stats.requested(Phase::Insert) == stats.requested_ns_insert,
        stats.requested(Phase::Delete) == stats.requested_ns_delete,
        stats.spun(Phase::Insert) == stats.spun_cycles_insert,
        stats.spun(Phase::Delete) == stats.spun_cycles_delete,
        c.paced(Phase::Insert) == c.paced_inserts && c.paced(Phase::Delete) == c.paced_deletes,
        c.requested(Phase::Insert) == c.requested_ns_insert,
        c.requested(Phase::Delete) == c.requested_ns_delete,
        c.spun(Phase::Insert) == c.spun_cycles_insert,
        c.spun(Phase::Delete) == c.spun_cycles_delete,
{
}

impl NicLatency {
    /// The emulation once it has been asked to install `pacer`.
    pub open spec fn after_install(self, pacer: Pacer, enabled: bool) -> NicLatency {
        match self.pacer {
            Some(_) => self,
            None => self.installed(pacer, enabled),
        }
    }
}

/// There is one pacer per process: the first one installed stays, whatever is installed after it.
pub proof fn law_the_first_pacer_stays(
    latency: NicLatency,
    first: Pacer,
    second: Pacer,
    a: bool,
    b: bool,
)
    ensures
        latency.after_install(first, a).after_install(second, b) == latency.after_install(first, a),
        latency.pacer is None ==> latency.after_install(first, a).pacer == Some(first),
        latency.pacer is None ==> latency.after_install(first, a).state == if a {
            State::Active
        } else {
            State::Off
        },
{
}

impl NicLatency {
    /// The emulation once it has been set up with `pacer` under the given settings.
    pub open spec fn armed(self, pacer: Pacer, cfg: NicLatencyConfig) -> NicLatency {
        self.after_install(pacer, cfg.enabled)
    }
}

/// An emulation that is set up paces exactly if its settings say so, and otherwise leaves every
/// operation alone while showing that a trace is loaded.
pub proof fn law_settings_decide_whether_to_pace(
    latency: NicLatency,
    pacer: Pacer,
    cfg: NicLatencyConfig,
    phase: Phase,
)
    requires
        latency.wf(),
        latency.pacer is None,
        pacer.wf(),
    ensures
        latency.armed(pacer, cfg).charge_for(phase) is Some <==> cfg.enabled,
        latency.armed(pacer, cfg).cost().active <==> cfg.enabled,
        latency.armed(pacer, cfg).cost().configured,
        !cfg.enabled ==> latency.armed(pacer, cfg).met(phase) == latency.armed(pacer, cfg),
        latency.armed(pacer, cfg).pacer == Some(pacer),
{
}

} // verus!
