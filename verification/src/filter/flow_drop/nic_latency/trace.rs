//! The latency trace: its format and how it is loaded.
//!
//! CSV with a header `op_id,phase,us` and three rows per `op_id`: `replace`, `delete` and
//! `insert`. `replace` is exactly `delete + insert`, so it is skipped and each primitive is charged
//! from its own row. A trace with a gap is refused, never filled with zeros: zero delay could not
//! be told from no pacing.

use crate::filter::flow_drop::nic_latency::Phase;
use crate::text;
use vstd::prelude::*;

verus! {

/// Marks a phase that no row has given yet. Refused as a real value.
pub const UNSET: u32 = 0xffff_ffff;

/// One measured operation.
#[derive(Debug, Clone, Copy, PartialEq, Eq, Structural)]
pub struct TraceOp {
    pub delete_ns: u32,
    pub insert_ns: u32,
}

impl TraceOp {
    /// An operation that no row has described yet.
    pub open spec fn blank() -> TraceOp {
        TraceOp { delete_ns: UNSET, insert_ns: UNSET }
    }

    /// The latency of `phase`.
    pub open spec fn of(self, phase: Phase) -> u32 {
        match phase {
            Phase::Insert => self.insert_ns,
            Phase::Delete => self.delete_ns,
        }
    }

    /// The operation with the latency of `phase` set to `ns`.
    pub open spec fn with(self, phase: Phase, ns: u32) -> TraceOp {
        match phase {
            Phase::Insert => TraceOp { insert_ns: ns, ..self },
            Phase::Delete => TraceOp { delete_ns: ns, ..self },
        }
    }

    /// Both latencies are known.
    pub open spec fn complete(self) -> bool {
        self.insert_ns != UNSET && self.delete_ns != UNSET
    }

    /// An operation that no row has described yet.
    pub fn unset() -> (op: TraceOp)
        ensures
            op == TraceOp::blank(),
    {
        TraceOp { delete_ns: UNSET, insert_ns: UNSET }
    }

    /// The latency of `phase`.
    pub fn ns(&self, phase: Phase) -> (ns: u32)
        ensures
            ns == self.of(phase),
    {
        match phase {
            Phase::Insert => self.insert_ns,
            Phase::Delete => self.delete_ns,
        }
    }
}

/// What the `us` field of a row says once scaled, rounded to whole nanoseconds.
#[derive(Debug, Clone, Copy, PartialEq, Eq, Structural)]
pub enum UsValue {
    /// The field is not a number.
    Unparsable,
    /// The field is infinite, negative or not a number at all.
    NotAQuantity,
    /// The scaled latency does not fit.
    TooLong,
    /// The scaled latency.
    Ns(u32),
}

/// What the `us` field of a row says, with the number as it is printed before scaling.
#[derive(Debug, Clone, PartialEq, Eq)]
pub struct UsReading {
    /// The number in decimal, for an error to show; of no account if the field is not a number.
    pub shown: String,
    pub value: UsValue,
}

/// Why a trace is refused.
#[derive(Debug, Clone, PartialEq, Eq)]
pub enum TraceError {
    /// The scale is not finite or is negative.
    BadScale,
    /// The clock has no frequency.
    NoClock,
    /// The row is not valid CSV.
    Malformed { row: u64 },
    /// The row has fewer than three fields.
    TooFewFields { row: u64, got: usize },
    /// The phase is none of the three; `phase` is what the field says.
    UnknownPhase { row: u64, phase: String },
    /// The operation's number cannot be read.
    BadOpId { row: u64 },
    /// The latency cannot be read.
    BadUs { row: u64 },
    /// The latency, printed as `us`, is not finite or is negative.
    NotAQuantity { row: u64, us: String },
    /// The scaled latency does not fit in 32 bits of nanoseconds; unscaled it is printed as `us`.
    TooLong { row: u64, us: String },
    /// The phase was already given for the operation.
    Duplicate { row: u64, phase: Phase, op_id: usize },
    /// No row describes a primitive.
    Empty,
    /// The operation has no insert row.
    NoInsertRow { op_id: usize },
    /// The operation has no delete row.
    NoDeleteRow { op_id: usize },
}

/// Why a trace is refused, over mathematical values.
pub enum Refusal {
    /// The scale is not finite or is negative.
    BadScale,
    /// The clock has no frequency.
    NoClock,
    /// The row is not valid CSV.
    Malformed { row: u64 },
    /// The row has fewer than three fields.
    TooFewFields { row: u64, got: usize },
    /// The phase is none of the three; `phase` is what the field says.
    UnknownPhase { row: u64, phase: Seq<char> },
    /// The operation's number cannot be read.
    BadOpId { row: u64 },
    /// The latency cannot be read.
    BadUs { row: u64 },
    /// The latency, printed as `us`, is not finite or is negative.
    NotAQuantity { row: u64, us: Seq<char> },
    /// The scaled latency does not fit in 32 bits of nanoseconds; unscaled it is printed as `us`.
    TooLong { row: u64, us: Seq<char> },
    /// The phase was already given for the operation.
    Duplicate { row: u64, phase: Phase, op_id: usize },
    /// No row describes a primitive.
    Empty,
    /// The operation has no insert row.
    NoInsertRow { op_id: usize },
    /// The operation has no delete row.
    NoDeleteRow { op_id: usize },
}

impl View for TraceError {
    type V = Refusal;

    open spec fn view(&self) -> Refusal {
        match *self {
            TraceError::BadScale => Refusal::BadScale,
            TraceError::NoClock => Refusal::NoClock,
            TraceError::Malformed { row } => Refusal::Malformed { row },
            TraceError::TooFewFields { row, got } => Refusal::TooFewFields { row, got },
            TraceError::UnknownPhase { row, phase } => Refusal::UnknownPhase { row, phase: phase@ },
            TraceError::BadOpId { row } => Refusal::BadOpId { row },
            TraceError::BadUs { row } => Refusal::BadUs { row },
            TraceError::NotAQuantity { row, us } => Refusal::NotAQuantity { row, us: us@ },
            TraceError::TooLong { row, us } => Refusal::TooLong { row, us: us@ },
            TraceError::Duplicate { row, phase, op_id } => Refusal::Duplicate { row, phase, op_id },
            TraceError::Empty => Refusal::Empty,
            TraceError::NoInsertRow { op_id } => Refusal::NoInsertRow { op_id },
            TraceError::NoDeleteRow { op_id } => Refusal::NoDeleteRow { op_id },
        }
    }
}

/// What the phase field of a row says.
#[derive(Debug, Clone, Copy, PartialEq, Eq, Structural)]
pub enum RowKind {
    /// A sum of the other two: skipped.
    Replace,
    /// A primitive.
    Primitive(Phase),
    /// None of these.
    Unknown,
}

/// The phases differ in their first letter, and only that is looked at.
pub open spec fn kind_of(field: Seq<char>) -> RowKind {
    if field.len() == 0 {
        RowKind::Unknown
    } else if field[0] == 'r' {
        RowKind::Replace
    } else if field[0] == 'i' {
        RowKind::Primitive(Phase::Insert)
    } else if field[0] == 'd' {
        RowKind::Primitive(Phase::Delete)
    } else {
        RowKind::Unknown
    }
}

/// The operation's number that a field gives.
pub open spec fn op_id_of(field: Seq<char>) -> Option<nat> {
    text::unsigned_value(text::trimmed(field), 10, usize::MAX as nat)
}

/// Where loading a trace has got to.
pub enum Loading {
    /// The operations so far.
    Ops(Seq<TraceOp>),
    /// The trace is refused.
    Refused(Refusal),
    /// An operation's number is too large for any table.
    Unbounded,
}

/// `ops` with blank operations appended up to `len`.
pub open spec fn grown(ops: Seq<TraceOp>, len: nat) -> Seq<TraceOp> {
    if ops.len() >= len {
        ops
    } else {
        ops + Seq::new((len - ops.len()) as nat, |i: int| TraceOp::blank())
    }
}

/// The table once row number `row` has given `phase` of operation `op_id` as `reading`.
pub open spec fn stored(
    ops: Seq<TraceOp>,
    row: u64,
    phase: Phase,
    op_id: nat,
    reading: UsReading,
) -> Loading {
    match reading.value {
        UsValue::Unparsable => Loading::Refused(Refusal::BadUs { row }),
        UsValue::NotAQuantity => Loading::Refused(
            Refusal::NotAQuantity { row, us: reading.shown@ },
        ),
        UsValue::TooLong => Loading::Refused(Refusal::TooLong { row, us: reading.shown@ }),
        UsValue::Ns(ns) => if ns == UNSET {
            Loading::Refused(Refusal::TooLong { row, us: reading.shown@ })
        } else if op_id >= usize::MAX {
            Loading::Unbounded
        } else {
            let table = grown(ops, op_id + 1);
            if table[op_id as int].of(phase) != UNSET {
                Loading::Refused(Refusal::Duplicate { row, phase, op_id: op_id as usize })
            } else {
                Loading::Ops(table.update(op_id as int, table[op_id as int].with(phase, ns)))
            }
        },
    }
}

/// The table once row number `row` has been taken in. `limit_ops`, if not zero, cuts the trace off
/// at that operation.
pub open spec fn taken_in(
    ops: Seq<TraceOp>,
    row: u64,
    fields: Option<Seq<Seq<char>>>,
    reading: UsReading,
    limit_ops: usize,
) -> Loading {
    match fields {
        None => Loading::Refused(Refusal::Malformed { row }),
        Some(f) => if f.len() < 3 {
            Loading::Refused(Refusal::TooFewFields { row, got: f.len() as usize })
        } else {
            match kind_of(f[1]) {
                RowKind::Replace => Loading::Ops(ops),
                RowKind::Unknown => Loading::Refused(Refusal::UnknownPhase { row, phase: f[1] }),
                RowKind::Primitive(phase) => match op_id_of(f[0]) {
                    None => Loading::Refused(Refusal::BadOpId { row }),
                    Some(op_id) => if limit_ops != 0 && op_id >= limit_ops {
                        Loading::Ops(ops)
                    } else {
                        stored(ops, row, phase, op_id, reading)
                    },
                },
            }
        },
    }
}

/// Where loading has got to after the first `n` rows. Rows count from one, after the header.
pub open spec fn loading(
    rows: Seq<Option<Seq<Seq<char>>>>,
    readings: Seq<UsReading>,
    limit_ops: usize,
    n: nat,
) -> Loading
    decreases n,
{
    if n == 0 {
        Loading::Ops(Seq::empty())
    } else {
        match loading(rows, readings, limit_ops, (n - 1) as nat) {
            Loading::Ops(ops) => taken_in(ops, n as u64, rows[n - 1], readings[n - 1], limit_ops),
            stopped => stopped,
        }
    }
}

/// The first gap in `ops` from operation `k` on.
pub open spec fn first_gap(ops: Seq<TraceOp>, k: nat) -> Option<Refusal>
    decreases ops.len() - k,
{
    if k >= ops.len() {
        None
    } else if ops[k as int].insert_ns == UNSET {
        Some(Refusal::NoInsertRow { op_id: k as usize })
    } else if ops[k as int].delete_ns == UNSET {
        Some(Refusal::NoDeleteRow { op_id: k as usize })
    } else {
        first_gap(ops, k + 1)
    }
}

/// What loading a trace comes to.
pub open spec fn loaded(
    rows: Seq<Option<Seq<Seq<char>>>>,
    readings: Seq<UsReading>,
    limit_ops: usize,
) -> Loading {
    match loading(rows, readings, limit_ops, rows.len()) {
        Loading::Ops(ops) => if ops.len() == 0 {
            Loading::Refused(Refusal::Empty)
        } else {
            match first_gap(ops, 0) {
                Some(error) => Loading::Refused(error),
                None => Loading::Ops(ops),
            }
        },
        stopped => stopped,
    }
}

/// The fields of a row.
pub open spec fn row_view(row: Option<Vec<String>>) -> Option<Seq<Seq<char>>> {
    match row {
        Some(fields) => Some(text::string_views(fields@)),
        None => None,
    }
}

/// The fields of every row.
pub open spec fn row_views(rows: Seq<Option<Vec<String>>>) -> Seq<Option<Seq<Seq<char>>>> {
    Seq::new(rows.len(), |i: int| row_view(rows[i]))
}

/// The rows that `csv` finds in `bytes` after the header, `None` standing for a row that it
/// rejects.
pub uninterp spec fn csv_rows_of(bytes: Seq<u8>) -> Seq<Option<Seq<Seq<char>>>>;

/// Reads `bytes` with `csv::ReaderBuilder::new().has_headers(true)` and its `into_records`: the
/// header is left out, and every other record comes as its fields, or as `None` where `csv` gives
/// an error (a field that is not UTF-8, or a number of fields unlike the first record's). What the
/// rows are is a function of the bytes alone; how CSV is quoted and delimited is not stated.
#[verifier::external_body]
fn csv_rows(bytes: &[u8]) -> (rows: Vec<Option<Vec<String>>>)
    ensures
        row_views(rows@) == csv_rows_of(bytes@),
{
    csv::ReaderBuilder::new()
        .has_headers(true)
        .from_reader(bytes)
        .into_records()
        .map(|row| row.ok().map(|fields| fields.iter().map(String::from).collect()))
        .collect()
}

/// The rows of a trace, read but not yet understood.
#[derive(Debug)]
pub struct TraceRows {
    pub rows: Vec<Option<Vec<String>>>,
}

impl TraceRows {
    /// The fields of every row.
    pub open spec fn fields(self) -> Seq<Option<Seq<Seq<char>>>> {
        row_views(self.rows@)
    }

    /// The `us` field of a row, trimmed; empty if the row has none.
    pub open spec fn us_field(fields: Option<Seq<Seq<char>>>) -> Seq<char> {
        match fields {
            Some(f) => if f.len() < 3 {
                Seq::empty()
            } else {
                text::trimmed(f[2])
            },
            None => Seq::empty(),
        }
    }

    /// Read the rows of a trace.
    pub fn read(bytes: &[u8]) -> (rows: TraceRows)
        ensures
            rows.fields() == csv_rows_of(bytes@),
    {
        TraceRows { rows: csv_rows(bytes) }
    }

    /// The `us` field of every row, for a caller that reads decimal fractions.
    pub fn us_fields(&self) -> (fields: Vec<String>)
        ensures
            text::string_views(fields@) == self.fields().map_values(
                |f: Option<Seq<Seq<char>>>| TraceRows::us_field(f),
            ),
    {
        let mut fields: Vec<String> = Vec::new();
        let mut i: usize = 0;
        while i < self.rows.len()
            invariant
                i <= self.rows@.len(),
                fields@.len() == i,
                forall|j: int|
                    0 <= j < i ==> (#[trigger] fields@[j])@ == TraceRows::us_field(
                        self.fields()[j],
                    ),
            decreases self.rows@.len() - i,
        {
            let field = match &self.rows[i] {
                Some(row) => if row.len() < 3 {
                    String::new()
                } else {
                    text::string_of(&text::trim(&text::chars_of(row[2].as_str())))
                },
                None => String::new(),
            };
            proof {
                assert(field@ =~= TraceRows::us_field(self.fields()[i as int]));
            }
            fields.push(field);
            i = i + 1;
        }
        proof {
            assert(text::string_views(fields@) =~= self.fields().map_values(
                |f: Option<Seq<Seq<char>>>| TraceRows::us_field(f),
            ));
        }
        fields
    }
}

/// What loading a trace comes to.
#[derive(Debug)]
pub enum Load {
    /// The operations of the trace.
    Ops(Vec<TraceOp>),
    /// The trace is refused.
    Refused(TraceError),
    /// An operation's number is too large for any table.
    Unbounded,
}

impl Load {
    /// The outcome over mathematical sequences.
    pub open spec fn outcome(self) -> Loading {
        match self {
            Load::Ops(ops) => Loading::Ops(ops@),
            Load::Refused(error) => Loading::Refused(error@),
            Load::Unbounded => Loading::Unbounded,
        }
    }
}

fn row_kind(field: &str) -> (kind: RowKind)
    ensures
        kind == kind_of(field@),
{
    let chars = text::chars_of(field);
    if chars.len() == 0 {
        RowKind::Unknown
    } else if chars[0] == 'r' {
        RowKind::Replace
    } else if chars[0] == 'i' {
        RowKind::Primitive(Phase::Insert)
    } else if chars[0] == 'd' {
        RowKind::Primitive(Phase::Delete)
    } else {
        RowKind::Unknown
    }
}

fn store(
    ops: Vec<TraceOp>,
    row: u64,
    phase: Phase,
    op_id: usize,
    reading: &UsReading,
) -> (load: Load)
    ensures
        load.outcome() == stored(ops@, row, phase, op_id as nat, *reading),
{
    let ns: u32 = match reading.value {
        UsValue::Unparsable => {
            return Load::Refused(TraceError::BadUs { row });
        },
        UsValue::NotAQuantity => {
            let us = text::copied(reading.shown.as_str());
            return Load::Refused(TraceError::NotAQuantity { row, us });
        },
        UsValue::TooLong => {
            let us = text::copied(reading.shown.as_str());
            return Load::Refused(TraceError::TooLong { row, us });
        },
        UsValue::Ns(ns) => ns,
    };
    if ns == UNSET {
        let us = text::copied(reading.shown.as_str());
        return Load::Refused(TraceError::TooLong { row, us });
    }
    if op_id == usize::MAX {
        return Load::Unbounded;
    }
    let mut table = ops;
    proof {
        assert(table@ =~= grown(ops@, 0));
    }
    while table.len() <= op_id
        invariant
            op_id < usize::MAX,
            ops@.len() <= table@.len(),
            table@.len() <= op_id + 1 || table@ == ops@,
            table@ == grown(ops@, table@.len()),
        decreases op_id + 1 - table@.len(),
    {
        table.push(TraceOp::unset());
        proof {
            assert(table@ =~= grown(ops@, table@.len()));
        }
    }
    proof {
        assert(table@ =~= grown(ops@, (op_id + 1) as nat));
    }
    let op = table[op_id];
    if op.ns(phase) != UNSET {
        return Load::Refused(TraceError::Duplicate { row, phase, op_id });
    }
    let filled = match phase {
        Phase::Insert => TraceOp { insert_ns: ns, delete_ns: op.delete_ns },
        Phase::Delete => TraceOp { insert_ns: op.insert_ns, delete_ns: ns },
    };
    table[op_id] = filled;
    Load::Ops(table)
}

fn take_in(
    ops: Vec<TraceOp>,
    row: u64,
    fields: &Option<Vec<String>>,
    reading: &UsReading,
    limit_ops: usize,
) -> (load: Load)
    ensures
        load.outcome() == taken_in(ops@, row, row_view(*fields), *reading, limit_ops),
{
    let fields = match fields {
        None => {
            return Load::Refused(TraceError::Malformed { row });
        },
        Some(fields) => fields,
    };
    let got: usize = fields.len();
    if got < 3 {
        return Load::Refused(TraceError::TooFewFields { row, got });
    }
    // Replace rows are a third of the file, so the phase is looked at before anything is parsed.
    let phase = match row_kind(fields[1].as_str()) {
        RowKind::Replace => {
            return Load::Ops(ops);
        },
        RowKind::Unknown => {
            return Load::Refused(
                TraceError::UnknownPhase { row, phase: text::copied(fields[1].as_str()) },
            );
        },
        RowKind::Primitive(phase) => phase,
    };
    let op_id: usize = match text::parse_usize(
        &text::trim(&text::chars_of(fields[0].as_str())),
    ) {
        None => {
            return Load::Refused(TraceError::BadOpId { row });
        },
        Some(op_id) => op_id,
    };
    if limit_ops != 0 && op_id >= limit_ops {
        return Load::Ops(ops);
    }
    store(ops, row, phase, op_id, reading)
}

/// Load the rows of a trace, `readings` giving what each row's `us` field says.
pub fn load(trace: &TraceRows, readings: &Vec<UsReading>, limit_ops: usize) -> (load: Load)
    requires
        readings@.len() == trace.rows@.len(),
    ensures
        load.outcome() == loaded(trace.fields(), readings@, limit_ops),
{
    let mut ops: Vec<TraceOp> = Vec::new();
    let mut i: usize = 0;
    let count: usize = trace.rows.len();
    while i < count
        invariant
            i <= count == trace.rows@.len(),
            readings@.len() == count,
            loading(trace.fields(), readings@, limit_ops, i as nat) == Loading::Ops(ops@),
        decreases count - i,
    {
        let next = take_in(ops, i as u64 + 1, &trace.rows[i], &readings[i], limit_ops);
        proof {
            assert(loading(trace.fields(), readings@, limit_ops, (i + 1) as nat)
                == next.outcome());
        }
        match next {
            Load::Ops(more) => {
                ops = more;
            },
            stopped => {
                proof {
                    lemma_stays_stopped(trace.fields(), readings@, limit_ops, (i + 1) as nat, count as nat);
                }
                return stopped;
            },
        }
        i = i + 1;
    }
    if ops.len() == 0 {
        return Load::Refused(TraceError::Empty);
    }
    let mut k: usize = 0;
    while k < ops.len()
        invariant
            k <= ops@.len(),
            ops@.len() > 0,
            first_gap(ops@, 0) == first_gap(ops@, k as nat),
            loading(trace.fields(), readings@, limit_ops, trace.fields().len()) == Loading::Ops(
                ops@,
            ),
        decreases ops@.len() - k,
    {
        if ops[k].insert_ns == UNSET {
            return Load::Refused(TraceError::NoInsertRow { op_id: k });
        }
        if ops[k].delete_ns == UNSET {
            return Load::Refused(TraceError::NoDeleteRow { op_id: k });
        }
        k = k + 1;
    }
    Load::Ops(ops)
}

proof fn lemma_stays_stopped(
    rows: Seq<Option<Seq<Seq<char>>>>,
    readings: Seq<UsReading>,
    limit_ops: usize,
    n: nat,
    m: nat,
)
    requires
        n <= m,
        !(loading(rows, readings, limit_ops, n) is Ops),
    ensures
        loading(rows, readings, limit_ops, m) == loading(rows, readings, limit_ops, n),
    decreases m - n,
{
    if n < m {
        lemma_stays_stopped(rows, readings, limit_ops, n, (m - 1) as nat);
    }
}

/// How Rust's `Debug` prints a string: quoted and escaped.
pub uninterp spec fn debug_text(s: Seq<char>) -> Seq<char>;

/// Prints `s` with std's `Debug` for `str`, as `{:?}` does. What comes out is a function of the
/// string alone; which characters are escaped, and how, is not stated.
#[verifier::external_body]
fn debug_quoted(s: &str) -> (quoted: String)
    ensures
        quoted@ == debug_text(s@),
{
    format!("{:?}", s)
}

/// What is said of a phase that is none of the three, `quoted` being the field as `Debug` prints
/// it.
pub open spec fn unknown_phase_text(row: u64, quoted: Seq<char>) -> Seq<char> {
    "row "@ + text::decimal(row as nat) + ": unknown phase "@ + quoted
}

/// What is said of a phase that is none of the three, `quoted` being the field as `Debug` prints
/// it.
pub fn unknown_phase_message(row: u64, quoted: &str) -> (message: String)
    ensures
        message@ == unknown_phase_text(row, quoted@),
{
    followed_by(text::numbered("row ", row, ": unknown phase "), quoted)
}

fn followed_by(before: String, after: &str) -> (joined: String)
    ensures
        joined@ == before@ + after@,
{
    let mut chars = text::chars_of(before.as_str());
    text::append(&mut chars, &text::chars_of(after));
    text::string_of(&chars)
}

impl Refusal {
    /// What the error says, `scale` being the scale as it is printed.
    pub open spec fn text(self, scale: Seq<char>) -> Seq<char> {
        match self {
            Refusal::BadScale => "scale must be finite and non-negative, got "@ + scale,
            Refusal::NoClock => "tsc_hz must be non-zero"@,
            Refusal::Malformed { row } => "malformed CSV at row "@ + text::decimal(row as nat)
                + " (after the header)"@,
            Refusal::TooFewFields { row, got } => "row "@ + text::decimal(row as nat)
                + ": expected 3 fields `op_id,phase,us`, got "@ + text::decimal(got as nat),
            Refusal::UnknownPhase { row, phase } => unknown_phase_text(row, debug_text(phase)),
            Refusal::BadOpId { row } => "row "@ + text::decimal(row as nat) + ": bad op_id"@,
            Refusal::BadUs { row } => "row "@ + text::decimal(row as nat) + ": bad us value"@,
            Refusal::NotAQuantity { row, us } => "row "@ + text::decimal(row as nat)
                + ": us must be finite and non-negative, got "@ + us,
            Refusal::TooLong { row, us } => "row "@ + text::decimal(row as nat) + ": "@ + us
                + " us at scale "@ + scale + " does not fit in u32 nanoseconds"@,
            Refusal::Duplicate { row, phase, op_id } => "row "@ + text::decimal(row as nat) + (
            match phase {
                Phase::Insert => ": duplicate Insert row for op_id "@,
                Phase::Delete => ": duplicate Delete row for op_id "@,
            }) + text::decimal(op_id as nat),
            Refusal::Empty => "trace contains no insert or delete rows"@,
            Refusal::NoInsertRow { op_id } => "op_id "@ + text::decimal(op_id as nat)
                + " has no insert row"@,
            Refusal::NoDeleteRow { op_id } => "op_id "@ + text::decimal(op_id as nat)
                + " has no delete row"@,
        }
    }
}

impl TraceError {
    /// What the error says, `scale` being the scale as it is printed.
    pub fn message(&self, scale: &str) -> (message: String)
        ensures
            message@ == self@.text(scale@),
    {
        match self {
            TraceError::BadScale => followed_by(
                text::copied("scale must be finite and non-negative, got "),
                scale,
            ),
            TraceError::NoClock => text::copied("tsc_hz must be non-zero"),
            TraceError::Malformed { row } => text::numbered(
                "malformed CSV at row ",
                *row,
                " (after the header)",
            ),
            TraceError::TooFewFields { row, got } => text::ending_in(
                text::numbered("row ", *row, ": expected 3 fields `op_id,phase,us`, got ").as_str(),
                *got as u64,
            ),
            TraceError::UnknownPhase { row, phase } => unknown_phase_message(
                *row,
                debug_quoted(phase.as_str()).as_str(),
            ),
            TraceError::BadOpId { row } => text::numbered("row ", *row, ": bad op_id"),
            TraceError::BadUs { row } => text::numbered("row ", *row, ": bad us value"),
            TraceError::NotAQuantity { row, us } => followed_by(
                text::numbered("row ", *row, ": us must be finite and non-negative, got "),
                us.as_str(),
            ),
            TraceError::TooLong { row, us } => {
                let value = followed_by(text::numbered("row ", *row, ": "), us.as_str());
                let scaled = followed_by(followed_by(value, " us at scale "), scale);
                followed_by(scaled, " does not fit in u32 nanoseconds")
            },
            TraceError::Duplicate { row, phase, op_id } => text::ending_in(
                text::numbered(
                    "row ",
                    *row,
                    match phase {
                        Phase::Insert => ": duplicate Insert row for op_id ",
                        Phase::Delete => ": duplicate Delete row for op_id ",
                    },
                ).as_str(),
                *op_id as u64,
            ),
            TraceError::Empty => text::copied("trace contains no insert or delete rows"),
            TraceError::NoInsertRow { op_id } => text::numbered(
                "op_id ",
                *op_id as u64,
                " has no insert row",
            ),
            TraceError::NoDeleteRow { op_id } => text::numbered(
                "op_id ",
                *op_id as u64,
                " has no delete row",
            ),
        }
    }
}

/// Row `i`, counting from zero, gives `phase` of operation `op_id` as `ns` nanoseconds and is not
/// cut off.
pub open spec fn row_gives(
    rows: Seq<Option<Seq<Seq<char>>>>,
    readings: Seq<UsReading>,
    limit_ops: usize,
    i: int,
    phase: Phase,
    op_id: nat,
    ns: u32,
) -> bool {
    &&& rows[i] matches Some(f) && f.len() >= 3 && kind_of(f[1]) == RowKind::Primitive(phase)
        && op_id_of(f[0]) == Some(op_id)
    &&& !(limit_ops != 0 && op_id >= limit_ops)
    &&& readings[i].value == UsValue::Ns(ns)
}

/// Every row of a loaded trace is kept: its latency stands in the table under its operation and
/// phase.
pub proof fn law_every_row_is_kept(
    rows: Seq<Option<Seq<Seq<char>>>>,
    readings: Seq<UsReading>,
    limit_ops: usize,
    ops: Seq<TraceOp>,
    i: int,
    phase: Phase,
    op_id: nat,
    ns: u32,
)
    requires
        rows.len() == readings.len(),
        loaded(rows, readings, limit_ops) == Loading::Ops(ops),
        0 <= i < rows.len(),
        row_gives(rows, readings, limit_ops, i, phase, op_id, ns),
    ensures
        op_id < ops.len(),
        ops[op_id as int].of(phase) == ns,
{
    lemma_row_is_kept(rows, readings, limit_ops, rows.len(), i, phase, op_id, ns);
}

proof fn lemma_row_is_kept(
    rows: Seq<Option<Seq<Seq<char>>>>,
    readings: Seq<UsReading>,
    limit_ops: usize,
    n: nat,
    i: int,
    phase: Phase,
    op_id: nat,
    ns: u32,
)
    requires
        0 <= i < n,
        loading(rows, readings, limit_ops, n) is Ops,
        row_gives(rows, readings, limit_ops, i, phase, op_id, ns),
    ensures
        loading(rows, readings, limit_ops, n) matches Loading::Ops(ops) && op_id < ops.len()
            && ops[op_id as int].of(phase) == ns && ns != UNSET,
    decreases n,
{
    let before = loading(rows, readings, limit_ops, (n - 1) as nat);
    assert(before is Ops);
    if i < n - 1 {
        lemma_row_is_kept(rows, readings, limit_ops, (n - 1) as nat, i, phase, op_id, ns);
    }
}

/// Nothing else gets into the table: every latency in a loaded trace stands in one of its rows.
pub proof fn law_every_latency_has_a_row(
    rows: Seq<Option<Seq<Seq<char>>>>,
    readings: Seq<UsReading>,
    limit_ops: usize,
    ops: Seq<TraceOp>,
    op_id: nat,
    phase: Phase,
)
    requires
        rows.len() == readings.len(),
        loaded(rows, readings, limit_ops) == Loading::Ops(ops),
        op_id < ops.len(),
    ensures
        ops[op_id as int].of(phase) != UNSET,
        exists|i: int|
            0 <= i < rows.len() && #[trigger] row_gives(
                rows,
                readings,
                limit_ops,
                i,
                phase,
                op_id,
                ops[op_id as int].of(phase),
            ),
{
    law_loaded_trace_has_no_gap(rows, readings, limit_ops, ops, op_id);
    lemma_latency_has_a_row(rows, readings, limit_ops, rows.len(), op_id, phase);
}

proof fn lemma_latency_has_a_row(
    rows: Seq<Option<Seq<Seq<char>>>>,
    readings: Seq<UsReading>,
    limit_ops: usize,
    n: nat,
    op_id: nat,
    phase: Phase,
)
    requires
        loading(rows, readings, limit_ops, n) is Ops,
    ensures
        loading(rows, readings, limit_ops, n) matches Loading::Ops(ops) && (op_id < ops.len()
            && ops[op_id as int].of(phase) != UNSET ==> exists|i: int|
            0 <= i < n && #[trigger] row_gives(
                rows,
                readings,
                limit_ops,
                i,
                phase,
                op_id,
                ops[op_id as int].of(phase),
            )),
    decreases n,
{
    if n > 0 {
        let before = loading(rows, readings, limit_ops, (n - 1) as nat);
        assert(before is Ops);
        lemma_latency_has_a_row(rows, readings, limit_ops, (n - 1) as nat, op_id, phase);
        let old_ops = before->Ops_0;
        let ops = loading(rows, readings, limit_ops, n)->Ops_0;
        if op_id < ops.len() && ops[op_id as int].of(phase) != UNSET {
            if op_id < old_ops.len() && old_ops[op_id as int].of(phase) == ops[op_id as int].of(
                phase,
            ) {
                let i = choose|i: int|
                    0 <= i < n - 1 && #[trigger] row_gives(
                        rows,
                        readings,
                        limit_ops,
                        i,
                        phase,
                        op_id,
                        old_ops[op_id as int].of(phase),
                    );
                assert(row_gives(
                    rows,
                    readings,
                    limit_ops,
                    i,
                    phase,
                    op_id,
                    ops[op_id as int].of(phase),
                ));
            } else {
                assert(row_gives(
                    rows,
                    readings,
                    limit_ops,
                    n - 1,
                    phase,
                    op_id,
                    ops[op_id as int].of(phase),
                ));
            }
        }
    }
}

/// A loaded trace has no gap: both latencies of every operation are known.
pub proof fn law_loaded_trace_has_no_gap(
    rows: Seq<Option<Seq<Seq<char>>>>,
    readings: Seq<UsReading>,
    limit_ops: usize,
    ops: Seq<TraceOp>,
    op_id: nat,
)
    requires
        rows.len() == readings.len(),
        loaded(rows, readings, limit_ops) == Loading::Ops(ops),
        op_id < ops.len(),
    ensures
        ops[op_id as int].complete(),
{
    lemma_no_gap(ops, 0, op_id);
}

proof fn lemma_no_gap(ops: Seq<TraceOp>, k: nat, op_id: nat)
    requires
        k <= op_id < ops.len(),
        first_gap(ops, k) is None,
    ensures
        ops[op_id as int].complete(),
    decreases ops.len() - k,
{
    if k < op_id {
        lemma_no_gap(ops, k + 1, op_id);
    }
}

/// A replace row changes nothing.
pub proof fn law_replace_rows_are_skipped(
    ops: Seq<TraceOp>,
    row: u64,
    fields: Seq<Seq<char>>,
    reading: UsReading,
    limit_ops: usize,
)
    requires
        fields.len() >= 3,
        kind_of(fields[1]) == RowKind::Replace,
    ensures
        taken_in(ops, row, Some(fields), reading, limit_ops) == Loading::Ops(ops),
{
}

/// Each phase has its own latency: setting one leaves the other, and a latency is read where it was
/// set.
pub proof fn law_each_phase_has_its_own_latency(op: TraceOp, ns: u32)
    ensures
        op.of(Phase::Insert) == op.insert_ns,
        op.of(Phase::Delete) == op.delete_ns,
        op.with(Phase::Insert, ns).insert_ns == ns,
        op.with(Phase::Insert, ns).delete_ns == op.delete_ns,
        op.with(Phase::Delete, ns).delete_ns == ns,
        op.with(Phase::Delete, ns).insert_ns == op.insert_ns,
        op.complete() <==> op.insert_ns != u32::MAX && op.delete_ns != u32::MAX,
        TraceOp::blank().insert_ns == u32::MAX,
        TraceOp::blank().delete_ns == u32::MAX,
{
}

/// A phase is told by its first letter, whatever follows it.
pub proof fn law_a_phase_is_told_by_its_first_letter(first: char, rest: Seq<char>)
    ensures
        kind_of(seq!['i'] + rest) == RowKind::Primitive(Phase::Insert),
        kind_of(seq!['d'] + rest) == RowKind::Primitive(Phase::Delete),
        kind_of(seq!['r'] + rest) == RowKind::Replace,
        first != 'i' && first != 'd' && first != 'r' ==> kind_of(seq![first] + rest)
            == RowKind::Unknown,
        kind_of(Seq::empty()) == RowKind::Unknown,
{
    assert((seq!['i'] + rest)[0] == 'i');
    assert((seq!['d'] + rest)[0] == 'd');
    assert((seq!['r'] + rest)[0] == 'r');
    assert((seq![first] + rest)[0] == first);
}

/// An operation's number is the one in its field, white space around it or not, if a table index
/// can hold it.
pub proof fn law_an_operation_has_the_number_in_its_field(
    before: Seq<char>,
    n: nat,
    after: Seq<char>,
)
    requires
        text::all_white(before),
        text::all_white(after),
    ensures
        op_id_of(before + text::decimal(n) + after) == if n <= usize::MAX {
            Some(n)
        } else {
            None
        },
{
    text::law_numbers_have_no_margins(before, n, after);
    text::law_decimal_reads_back(n);
}

/// The row that an error names, if it names one.
pub open spec fn row_named(error: Refusal) -> Option<u64> {
    match error {
        Refusal::Malformed { row } => Some(row),
        Refusal::TooFewFields { row, .. } => Some(row),
        Refusal::UnknownPhase { row, .. } => Some(row),
        Refusal::BadOpId { row } => Some(row),
        Refusal::BadUs { row } => Some(row),
        Refusal::NotAQuantity { row, .. } => Some(row),
        Refusal::TooLong { row, .. } => Some(row),
        Refusal::Duplicate { row, .. } => Some(row),
        _ => None,
    }
}

/// The first row that cannot be taken in refuses the trace, and the error names that row, counted
/// from one after the header; what follows it does not matter.
pub proof fn law_the_first_bad_row_refuses_the_trace(
    rows: Seq<Option<Seq<Seq<char>>>>,
    readings: Seq<UsReading>,
    limit_ops: usize,
    n: nat,
    error: Refusal,
)
    requires
        n < rows.len() <= u64::MAX,
        loading(rows, readings, limit_ops, n) is Ops,
        loading(rows, readings, limit_ops, n + 1) == Loading::Refused(error),
    ensures
        loaded(rows, readings, limit_ops) == Loading::Refused(error),
        row_named(error) == Some((n + 1) as u64),
{
    lemma_stays_stopped(rows, readings, limit_ops, n + 1, rows.len());
}

/// What a row comes to. A row that is not CSV, one with fewer than three fields and one whose phase
/// is none of the three are refused whatever else they hold. Of a primitive the number is looked at
/// next, and where the trace is cut off before it, nothing else. Then a latency that cannot be
/// read, that is no quantity or that does not fit is refused, and so is a second latency for the
/// same operation and phase.
#[verifier::spinoff_prover]
#[verifier::rlimit(50)]
pub proof fn law_what_a_row_comes_to(
    ops: Seq<TraceOp>,
    row: u64,
    fields: Option<Seq<Seq<char>>>,
    reading: UsReading,
    limit_ops: usize,
)
    requires
        fields matches Some(f) ==> f.len() <= usize::MAX,
    ensures
        ({
            let outcome = taken_in(ops, row, fields, reading, limit_ops);
            match fields {
                None => outcome == Loading::Refused(Refusal::Malformed { row }),
                Some(f) => {
                    &&& f.len() < 3 <==> outcome == Loading::Refused(
                        Refusal::TooFewFields { row, got: f.len() as usize },
                    )
                    &&& f.len() >= 3 && kind_of(f[1]) == RowKind::Unknown <==> outcome
                        == Loading::Refused(Refusal::UnknownPhase { row, phase: f[1] })
                        && f.len() >= 3
                    &&& f.len() >= 3 ==> (kind_of(f[1]) matches RowKind::Primitive(phase) ==> {
                        &&& op_id_of(f[0]) is None <==> outcome == Loading::Refused(
                            Refusal::BadOpId { row },
                        )
                        &&& op_id_of(f[0]) matches Some(id) ==> {
                            let cut_off = limit_ops > 0 && id >= limit_ops;
                            let us = reading.shown@;
                            &&& cut_off ==> outcome == Loading::Ops(ops)
                            &&& !cut_off ==> {
                                &&& reading.value == UsValue::Unparsable <==> outcome
                                    == Loading::Refused(Refusal::BadUs { row })
                                &&& reading.value == UsValue::NotAQuantity <==> outcome
                                    == Loading::Refused(Refusal::NotAQuantity { row, us })
                                &&& reading.value == UsValue::TooLong || reading.value
                                    == UsValue::Ns(u32::MAX) <==> outcome == Loading::Refused(
                                    Refusal::TooLong { row, us },
                                )
                                &&& id < ops.len() <= usize::MAX && ops[id as int].of(phase)
                                    != u32::MAX && (reading.value matches UsValue::Ns(ns) && ns
                                    != u32::MAX) ==> outcome == Loading::Refused(
                                    Refusal::Duplicate { row, phase, op_id: id as usize },
                                )
                            }
                        }
                    })
                },
            }
        }),
{
}

/// A row that is taken in sets its own latency and no other: every operation before keeps what it
/// had, and operations that no row has described yet have no latencies.
pub proof fn law_a_row_sets_its_own_latency(
    ops: Seq<TraceOp>,
    row: u64,
    phase: Phase,
    id: nat,
    shown: String,
    ns: u32,
    i: int,
    other: Phase,
)
    requires
        ns != u32::MAX,
        id < usize::MAX,
        id < ops.len() ==> ops[id as int].of(phase) == u32::MAX,
    ensures
        ({
            let outcome = stored(ops, row, phase, id, UsReading { shown, value: UsValue::Ns(ns) });
            &&& outcome is Ops
            &&& outcome matches Loading::Ops(after) ==> {
                &&& after.len() == if ops.len() > id {
                    ops.len()
                } else {
                    id + 1
                }
                &&& after[id as int].of(phase) == ns
                &&& 0 <= i < ops.len() && (i != id || other != phase) ==> after[i].of(other)
                    == ops[i].of(other)
                &&& ops.len() <= i < after.len() && (i != id || other != phase) ==> after[i].of(
                    other,
                ) == u32::MAX
            }
        }),
{
}

/// A limit cuts the trace off: no more operations are loaded than it allows.
pub proof fn law_a_limit_cuts_the_trace_off(
    rows: Seq<Option<Seq<Seq<char>>>>,
    readings: Seq<UsReading>,
    limit_ops: usize,
    ops: Seq<TraceOp>,
)
    requires
        limit_ops > 0,
        loaded(rows, readings, limit_ops) == Loading::Ops(ops),
    ensures
        0 < ops.len() <= limit_ops,
{
    lemma_within_the_limit(rows, readings, limit_ops, rows.len());
}

proof fn lemma_within_the_limit(
    rows: Seq<Option<Seq<Seq<char>>>>,
    readings: Seq<UsReading>,
    limit_ops: usize,
    n: nat,
)
    requires
        limit_ops > 0,
    ensures
        loading(rows, readings, limit_ops, n) matches Loading::Ops(ops) ==> ops.len() <= limit_ops,
    decreases n,
{
    if n > 0 {
        lemma_within_the_limit(rows, readings, limit_ops, (n - 1) as nat);
    }
}

/// A trace whose rows can all be taken in is refused only for a gap: if no row describes a
/// primitive, and else for the first operation without an insert row, or with one but without a
/// delete row.
pub proof fn law_a_gap_refuses_the_trace(
    rows: Seq<Option<Seq<Seq<char>>>>,
    readings: Seq<UsReading>,
    limit_ops: usize,
    ops: Seq<TraceOp>,
    k: int,
)
    requires
        loading(rows, readings, limit_ops, rows.len()) == Loading::Ops(ops),
        ops.len() <= usize::MAX,
        0 <= k <= ops.len(),
        forall|i: int|
            0 <= i < k ==> (#[trigger] ops[i]).insert_ns != u32::MAX && ops[i].delete_ns
                != u32::MAX,
        k < ops.len() ==> ops[k].insert_ns == u32::MAX || ops[k].delete_ns == u32::MAX,
    ensures
        ops.len() == 0 ==> loaded(rows, readings, limit_ops) == Loading::Refused(Refusal::Empty),
        k < ops.len() && ops[k].insert_ns == u32::MAX ==> loaded(rows, readings, limit_ops)
            == Loading::Refused(Refusal::NoInsertRow { op_id: k as usize }),
        k < ops.len() && ops[k].insert_ns != u32::MAX ==> loaded(rows, readings, limit_ops)
            == Loading::Refused(Refusal::NoDeleteRow { op_id: k as usize }),
        0 < ops.len() == k ==> loaded(rows, readings, limit_ops) == Loading::Ops(ops),
{
    lemma_first_gap(ops, 0, k);
}

proof fn lemma_first_gap(ops: Seq<TraceOp>, from: nat, k: int)
    requires
        from <= k <= ops.len(),
        forall|i: int|
            0 <= i < k ==> (#[trigger] ops[i]).insert_ns != u32::MAX && ops[i].delete_ns
                != u32::MAX,
    ensures
        first_gap(ops, from) == first_gap(ops, k as nat),
    decreases k - from,
{
    if from < k {
        assert(ops[from as int].insert_ns != u32::MAX);
        lemma_first_gap(ops, from + 1, k);
    }
}

/// The `us` field of a row is its third, without its margins.
pub proof fn law_the_us_field_is_the_third(fields: Seq<Seq<char>>, before: Seq<char>, us: Seq<char>, after: Seq<char>)
    requires
        fields.len() >= 3,
        text::all_white(before),
        text::all_white(after),
        us.len() > 0,
        !text::is_white_space(us[0]),
        !text::is_white_space(us.last()),
        fields[2] == before + us + after,
    ensures
        TraceRows::us_field(Some(fields)) == us,
        TraceRows::us_field(None) == Seq::<char>::empty(),
{
    text::law_trimming_takes_off_the_margins(before, us, after);
}

/// An error about a row begins with the row's number.
pub proof fn law_an_error_about_a_row_names_it(error: Refusal, scale: Seq<char>)
    requires
        !(error is Malformed),
    ensures
        row_named(error) matches Some(row) ==> text::begins_with(
            error.text(scale),
            "row "@ + text::decimal(row as nat) + seq![':'],
        ),
{
    if row_named(error) is Some {
        let row = row_named(error)->0;
        let head = "row "@ + text::decimal(row as nat);
        let said = error.text(scale);
        reveal_strlit(": ");
        reveal_strlit(": expected 3 fields `op_id,phase,us`, got ");
        reveal_strlit(": unknown phase ");
        reveal_strlit(": bad op_id");
        reveal_strlit(": bad us value");
        reveal_strlit(": us must be finite and non-negative, got ");
        reveal_strlit(": duplicate Insert row for op_id ");
        reveal_strlit(": duplicate Delete row for op_id ");
        assert(said.take(head.len() as int + 1) =~= head + seq![':']);
    }
}

} // verus!
