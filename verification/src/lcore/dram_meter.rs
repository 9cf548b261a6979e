//! DRAM bandwidth meter over the CSV stream of Intel PCM's `pcm-memory`.
//!
//! `pcm-memory` samples once a second. This module reads its lines and keeps the most recent sample
//! for each socket that a monitored port is attached to; starting the tool and following its output
//! is left to the caller.
//!
//! The bytes are derived from a printed rate: converting MB/s back recovers the byte count only to
//! the precision that is printed. The conversion is the caller's, who hands over the bytes that
//! each cell stands for.

use crate::lcore::meter;
use crate::lcore::meter::Feed;
use crate::sorted;
use crate::text;
use vstd::prelude::*;

verus! {

/// `Date` and `Time` lead every data row before the first socket's columns.
pub const DEFAULT_LEAD_COLS: u64 = 2;

/// Columns printed per socket: read, write, and their total. Only used if the header cannot be
/// interpreted at all.
pub const DEFAULT_COLS_PER_SOCKET: u64 = 3;

/// One socket's read and write column positions.
#[derive(Debug, Clone, Copy, PartialEq, Eq, Structural)]
pub struct SocketColumns {
    pub socket: u32,
    pub read_col: u64,
    pub write_col: u64,
}

/// A socket whose DRAM traffic is being followed, and the ports that put it there.
#[derive(Debug, Clone)]
pub struct DramTarget {
    pub socket: u32,
    /// PCI addresses of the monitored ports on this socket. More than one is normal.
    pub devices: Vec<String>,
}

impl DramTarget {
    /// What the target is called for display.
    pub open spec fn label_text(self) -> Seq<char> {
        "socket"@ + text::decimal(self.socket as nat)
    }

    /// What the target is called for display.
    pub fn label(&self) -> (label: String)
        ensures
            label@ == self.label_text(),
    {
        text::ending_in("socket", self.socket as u64)
    }
}

/// What a column counts.
#[derive(Debug, Clone, Copy, PartialEq, Eq, Structural)]
pub enum Metric {
    Read,
    Write,
    /// Neither, such as a socket's total.
    Other,
}

/// The socket that the label of a column group names, a space after the prefix being tolerated.
pub open spec fn socket_group(field: Seq<char>) -> Option<u32> {
    let rest = match text::after_prefix(field, "SKT"@) {
        Some(rest) => Some(rest),
        None => text::after_prefix(field, "skt"@),
    };
    match rest {
        None => None,
        Some(number) => match text::unsigned_value(text::trimmed(number), 10, u32::MAX as nat) {
            Some(socket) => Some(socket as u32),
            None => None,
        },
    }
}

/// What a column's name says it counts.
pub open spec fn metric_named(field: Seq<char>) -> Metric {
    if text::contains_text(text::lowered(field), "read"@) {
        Metric::Read
    } else if text::contains_text(text::lowered(field), "write"@) {
        Metric::Write
    } else {
        Metric::Other
    }
}

/// Column `k` counts `metric` for `socket`.
pub open spec fn is_column(
    groups: Seq<Seq<char>>,
    metrics: Seq<Seq<char>>,
    socket: u32,
    metric: Metric,
    k: int,
) -> bool {
    &&& k < groups.len()
    &&& socket_group(groups[k]) == Some(socket)
    &&& metric_named(metrics[k]) == metric
}

/// The first column from `from` on that counts `metric` for `socket`.
pub open spec fn first_column(
    groups: Seq<Seq<char>>,
    metrics: Seq<Seq<char>>,
    socket: u32,
    metric: Metric,
    from: nat,
) -> Option<nat>
    decreases metrics.len() - from,
{
    if from >= metrics.len() {
        None
    } else if is_column(groups, metrics, socket, metric, from as int) {
        Some(from)
    } else {
        first_column(groups, metrics, socket, metric, from + 1)
    }
}

/// A socket has a column for reads and one for writes.
pub open spec fn has_columns(groups: Seq<Seq<char>>, metrics: Seq<Seq<char>>, socket: u32) -> bool {
    &&& first_column(groups, metrics, socket, Metric::Read, 0) is Some
    &&& first_column(groups, metrics, socket, Metric::Write, 0) is Some
}

/// The sockets of a list of columns.
pub open spec fn sockets_of(columns: Seq<SocketColumns>) -> Seq<u32> {
    columns.map_values(|c: SocketColumns| c.socket)
}

/// `columns` lists, in ascending order, exactly the sockets that have a column for reads and one
/// for writes, each with the first of either.
pub open spec fn is_layout(
    columns: Seq<SocketColumns>,
    groups: Seq<Seq<char>>,
    metrics: Seq<Seq<char>>,
) -> bool {
    &&& sorted::ascending(sockets_of(columns))
    &&& forall|socket: u32| #[trigger]
        sockets_of(columns).contains(socket) <==> has_columns(groups, metrics, socket)
    &&& forall|i: int|
        0 <= i < columns.len() ==> first_column(
            groups,
            metrics,
            (#[trigger] columns[i]).socket,
            Metric::Read,
            0,
        ) == Some(columns[i].read_col as nat) && first_column(
            groups,
            metrics,
            columns[i].socket,
            Metric::Write,
            0,
        ) == Some(columns[i].write_col as nat)
}

fn parse_socket_group_in(field: &[char]) -> (socket: Option<u32>)
    ensures
        socket == socket_group(field@),
{
    let rest = match text::strip_prefix(field, "SKT") {
        Some(rest) => rest,
        None => match text::strip_prefix(field, "skt") {
            Some(rest) => rest,
            None => {
                return None;
            },
        },
    };
    text::parse_u32(&text::trim(&rest))
}

/// Socket number of a `SKT<n>` column-group label, tolerating a space after the prefix.
pub fn parse_socket_group(field: &str) -> (socket: Option<u32>)
    ensures
        socket == socket_group(field@),
{
    parse_socket_group_in(&text::chars_of(field))
}

fn metric_of(field: &[char]) -> (metric: Metric)
    ensures
        metric == metric_named(field@),
{
    let name = text::lower(field);
    if text::contains(&name, &text::chars_of("read")) {
        Metric::Read
    } else if text::contains(&name, &text::chars_of("write")) {
        Metric::Write
    } else {
        Metric::Other
    }
}

fn find_column(
    groups: &Vec<Vec<char>>,
    metrics: &Vec<Vec<char>>,
    socket: u32,
    metric: Metric,
) -> (found: Option<usize>)
    ensures
        (match found {
            Some(k) => Some(k as nat),
            None => None,
        }) == first_column(text::views(groups@), text::views(metrics@), socket, metric, 0),
{
    let ghost g = text::views(groups@);
    let ghost m = text::views(metrics@);
    let mut k: usize = 0;
    while k < metrics.len()
        invariant
            k <= metrics@.len(),
            g == text::views(groups@),
            m == text::views(metrics@),
            first_column(g, m, socket, metric, 0) == first_column(g, m, socket, metric, k as nat),
        decreases metrics@.len() - k,
    {
        proof {
            assert(m[k as int] == metrics@[k as int]@);
        }
        if k < groups.len() {
            proof {
                assert(g[k as int] == groups@[k as int]@);
            }
            if parse_socket_group_in(&groups[k]) == Some(socket) && metric_of(&metrics[k])
                == metric {
                return Some(k);
            }
        }
        k = k + 1;
    }
    None
}

proof fn lemma_first_column(
    groups: Seq<Seq<char>>,
    metrics: Seq<Seq<char>>,
    socket: u32,
    metric: Metric,
    from: nat,
)
    ensures
        first_column(groups, metrics, socket, metric, from) matches Some(k) ==> from <= k
            < metrics.len() && is_column(groups, metrics, socket, metric, k as int),
    decreases metrics.len() - from,
{
    if from < metrics.len() {
        lemma_first_column(groups, metrics, socket, metric, from + 1);
    }
}

/// Resolve each socket's read and write columns from `pcm-memory`'s two header lines.
///
/// `groups` names the column groups (`SKT0`, `System`), `metrics` names each column
/// (`Mem Read (MB/s)`). Columns are found by name rather than position, so a change in how many
/// metrics are printed per socket does not silently shift the reading. Only `SKT<n>` groups yield
/// columns, which is what excludes the trailing `System` group.
pub fn header_columns(groups: &str, metrics: &str) -> (columns: Vec<SocketColumns>)
    ensures
        is_layout(columns@, text::trimmed_fields(groups@), text::trimmed_fields(metrics@)),
{
    let group_fields = text::fields_of(&text::chars_of(groups));
    let metric_fields = text::fields_of(&text::chars_of(metrics));
    let ghost g = text::trimmed_fields(groups@);
    let ghost m = text::trimmed_fields(metrics@);
    let mut sockets: Vec<u32> = Vec::new();
    let mut k: usize = 0;
    while k < metric_fields.len()
        invariant
            k <= metric_fields@.len(),
            g == text::views(group_fields@),
            m == text::views(metric_fields@),
            sorted::ascending(sockets@),
            forall|j: int|
                0 <= j < k && j < g.len() ==> (#[trigger] socket_group(g[j]) matches Some(s)
                    ==> sockets@.contains(s)),
        decreases metric_fields@.len() - k,
    {
        if k < group_fields.len() {
            proof {
                assert(g[k as int] == group_fields@[k as int]@);
            }
            if let Some(socket) = parse_socket_group_in(&group_fields[k]) {
                sorted::insert(&mut sockets, socket);
                proof {
                    assert(sockets@.contains(socket));
                }
            }
        }
        k = k + 1;
    }
    let mut columns: Vec<SocketColumns> = Vec::new();
    let mut i: usize = 0;
    while i < sockets.len()
        invariant
            i <= sockets@.len(),
            g == text::views(group_fields@),
            m == text::views(metric_fields@),
            sorted::ascending(sockets@),
            sorted::ascending(sockets_of(columns@)),
            forall|j: int, l: int|
                0 <= j < columns@.len() && i <= l < sockets@.len() ==> (
                #[trigger] columns@[j]).socket < #[trigger] sockets@[l],
            forall|j: int|
                0 <= j < columns@.len() ==> first_column(
                    g,
                    m,
                    (#[trigger] columns@[j]).socket,
                    Metric::Read,
                    0,
                ) == Some(columns@[j].read_col as nat) && first_column(
                    g,
                    m,
                    columns@[j].socket,
                    Metric::Write,
                    0,
                ) == Some(columns@[j].write_col as nat),
            forall|l: int|
                0 <= l < i && has_columns(g, m, #[trigger] sockets@[l]) ==> sockets_of(
                    columns@,
                ).contains(sockets@[l]),
        decreases sockets@.len() - i,
    {
        let socket: u32 = sockets[i];
        let read = find_column(&group_fields, &metric_fields, socket, Metric::Read);
        let write = find_column(&group_fields, &metric_fields, socket, Metric::Write);
        if let (Some(read_col), Some(write_col)) = (read, write) {
            let ghost before = columns@;
            columns.push(
                SocketColumns { socket, read_col: read_col as u64, write_col: write_col as u64 },
            );
            proof {
                assert(sockets_of(columns@) =~= sockets_of(before).push(socket));
                assert forall|l: int|
                    0 <= l < i + 1 && has_columns(
                        g,
                        m,
                        #[trigger] sockets@[l],
                    ) implies sockets_of(columns@).contains(sockets@[l]) by {
                    if l < i {
                        let q = choose|q: int|
                            0 <= q < sockets_of(before).len() && sockets_of(before)[q]
                                == sockets@[l];
                        assert(sockets_of(columns@)[q] == sockets@[l]);
                    } else {
                        assert(sockets_of(columns@)[before.len() as int] == socket);
                    }
                }
            }
        }
        i = i + 1;
    }
    proof {
        assert forall|socket: u32| #[trigger]
            sockets_of(columns@).contains(socket) <==> has_columns(g, m, socket) by {
            if sockets_of(columns@).contains(socket) {
                let q = choose|q: int|
                    0 <= q < sockets_of(columns@).len() && sockets_of(columns@)[q] == socket;
                assert(columns@[q].socket == socket);
            }
            if has_columns(g, m, socket) {
                lemma_first_column(g, m, socket, Metric::Read, 0);
                let c = first_column(g, m, socket, Metric::Read, 0)->0;
                assert(socket_group(g[c as int]) == Some(socket));
                assert(sockets@.contains(socket));
                let l = choose|l: int| 0 <= l < sockets@.len() && sockets@[l] == socket;
                assert(has_columns(g, m, sockets@[l]));
            }
        }
    }
    columns
}

/// One interval's DRAM traffic for one socket.
#[derive(Debug, Clone, Copy, PartialEq, Eq, Structural)]
pub struct DramSample {
    /// Bytes read from DRAM in the last interval, converted from a printed rate.
    pub read_bytes: u64,
    /// Bytes written to DRAM in the last interval, converted from a printed rate.
    pub write_bytes: u64,
}

/// What the monitor prints for one socket on a display tick.
#[derive(Debug, Clone)]
pub struct DramStats {
    pub label: String,
    /// Latest sample, if one has arrived since the previously displayed one.
    pub sample: Option<DramSample>,
    /// True once at least one sample has ever arrived for this socket.
    pub started: bool,
    pub total_read_bytes: u64,
    pub total_write_bytes: u64,
}

/// A target and what has arrived for it.
#[derive(Debug)]
pub struct DramTargetState {
    pub target: DramTarget,
    pub label: String,
    pub feed: Feed,
}

impl DramTargetState {
    /// What a look at the target shows when sample number `displayed` was shown last.
    pub open spec fn shows(self, displayed: u64, stats: DramStats) -> bool {
        &&& stats.label@ == self.label@
        &&& stats.sample == if self.feed.fresh(displayed) {
            Some(
                DramSample {
                    read_bytes: self.feed.read_bytes,
                    write_bytes: self.feed.write_bytes,
                },
            )
        } else {
            None
        }
        &&& stats.started == (self.feed.seq != 0)
        &&& stats.total_read_bytes == self.feed.total_read_bytes
        &&& stats.total_write_bytes == self.feed.total_write_bytes
    }

    /// What the target's feed is once a row has been taken in.
    pub open spec fn fed(
        self,
        fields: Seq<Seq<char>>,
        rates: Seq<Option<u64>>,
        columns: Seq<SocketColumns>,
    ) -> Feed {
        match sample_in(fields, rates, columns, self.target.socket) {
            Some((read, write)) => self.feed.after(read, write),
            None => self.feed,
        }
    }
}

/// Positional guess for a socket.
pub open spec fn guessed(socket: u32) -> SocketColumns {
    SocketColumns {
        socket,
        read_col: (DEFAULT_LEAD_COLS + DEFAULT_COLS_PER_SOCKET * socket) as u64,
        write_col: (DEFAULT_LEAD_COLS + DEFAULT_COLS_PER_SOCKET * socket + 1) as u64,
    }
}

/// Positional guess, used only when the header could not be interpreted at all.
pub fn fallback_columns(targets: &Vec<DramTargetState>) -> (columns: Vec<SocketColumns>)
    ensures
        columns@ == targets@.map_values(|t: DramTargetState| guessed(t.target.socket)),
{
    let mut columns: Vec<SocketColumns> = Vec::new();
    let mut i: usize = 0;
    while i < targets.len()
        invariant
            i <= targets@.len(),
            columns@.len() == i,
            forall|k: int|
                0 <= k < i ==> #[trigger] columns@[k] == guessed(targets@[k].target.socket),
        decreases targets@.len() - i,
    {
        let socket: u32 = targets[i].target.socket;
        let base: u64 = DEFAULT_LEAD_COLS + DEFAULT_COLS_PER_SOCKET * socket as u64;
        columns.push(SocketColumns { socket, read_col: base, write_col: base + 1 });
        i = i + 1;
    }
    proof {
        assert(columns@ =~= targets@.map_values(
            |t: DramTargetState| guessed(t.target.socket),
        ));
    }
    columns
}

/// The first columns from `from` on for `socket`.
pub open spec fn columns_for(columns: Seq<SocketColumns>, socket: u32, from: nat) -> Option<
    SocketColumns,
>
    decreases columns.len() - from,
{
    if from >= columns.len() {
        None
    } else if columns[from as int].socket == socket {
        Some(columns[from as int])
    } else {
        columns_for(columns, socket, from + 1)
    }
}

/// The bytes that the cell in column `col` stands for. An empty cell means none; a cell that cannot
/// be read means that there is no sample. `rates` gives the bytes for each cell that is a rate.
pub open spec fn bytes_at(fields: Seq<Seq<char>>, rates: Seq<Option<u64>>, col: u64) -> Option<
    u64,
> {
    if col >= fields.len() {
        None
    } else if fields[col as int].len() == 0 {
        Some(0)
    } else if col < rates.len() {
        rates[col as int]
    } else {
        None
    }
}

/// The bytes read and written that a row holds for `socket`, if it holds both.
pub open spec fn sample_in(
    fields: Seq<Seq<char>>,
    rates: Seq<Option<u64>>,
    columns: Seq<SocketColumns>,
    socket: u32,
) -> Option<(u64, u64)> {
    match columns_for(columns, socket, 0) {
        None => None,
        Some(c) => match (
            bytes_at(fields, rates, c.read_col),
            bytes_at(fields, rates, c.write_col),
        ) {
            (Some(read), Some(write)) => Some((read, write)),
            _ => None,
        },
    }
}

/// A sample that has just arrived.
#[derive(Debug, Clone, Copy, PartialEq, Eq, Structural)]
pub struct DramArrival {
    /// The target's position.
    pub target: usize,
    pub read_bytes: u64,
    pub write_bytes: u64,
}

/// The samples that a row holds for the first `n` targets.
pub open spec fn arrivals(
    targets: Seq<DramTargetState>,
    fields: Seq<Seq<char>>,
    rates: Seq<Option<u64>>,
    columns: Seq<SocketColumns>,
    n: nat,
) -> Seq<DramArrival>
    decreases n,
{
    if n == 0 {
        Seq::empty()
    } else {
        let before = arrivals(targets, fields, rates, columns, (n - 1) as nat);
        match sample_in(fields, rates, columns, targets[n - 1].target.socket) {
            Some((read_bytes, write_bytes)) => before.push(
                DramArrival { target: (n - 1) as usize, read_bytes, write_bytes },
            ),
            None => before,
        }
    }
}

/// What a line of `pcm-memory` output was.
#[derive(Debug)]
pub enum DramLine {
    /// The second header line. The columns may have had to be guessed.
    Header { guessed: bool },
    /// A line before any header.
    Preamble,
    /// A row, and the samples that it held.
    Row(Vec<DramArrival>),
}

/// The monitored sockets and what has arrived for them.
#[derive(Debug)]
pub struct DramMeter {
    pub targets: Vec<DramTargetState>,
    /// Sample number last shown per target, to spot stale samples.
    pub displayed: Vec<u64>,
    pub columns: Vec<SocketColumns>,
    /// The line before this one: the first header line, when this one is the second.
    pub prev_line: String,
}

/// The columns in use after a header: those that its two lines name, or a guess for every target if
/// they name none.
pub open spec fn laid_out(
    columns: Seq<SocketColumns>,
    guess: bool,
    targets: Seq<DramTargetState>,
    groups: Seq<Seq<char>>,
    metrics: Seq<Seq<char>>,
) -> bool {
    if guess {
        &&& is_layout(Seq::empty(), groups, metrics)
        &&& columns == targets.map_values(|t: DramTargetState| guessed(t.target.socket))
    } else {
        columns.len() > 0 && is_layout(columns, groups, metrics)
    }
}

/// The fields of a line, trimmed.
pub open spec fn line_fields(line: Seq<char>) -> Seq<Seq<char>> {
    text::trimmed_fields(text::trimmed(line))
}

impl DramMeter {
    /// A line of column names.
    pub open spec fn is_header(line: Seq<char>) -> bool {
        text::begins_with(line, "Date,Time"@)
    }

    /// One shown number per target, and every target under its own label.
    pub open spec fn wf(self) -> bool {
        &&& self.displayed@.len() == self.targets@.len()
        &&& forall|i: int|
            0 <= i < self.targets@.len() ==> (#[trigger] self.targets@[i]).label@
                == self.targets@[i].target.label_text()
    }

    /// Both meters follow the same targets and have shown the same samples.
    pub open spec fn same_targets(self, other: DramMeter) -> bool {
        &&& self.targets@.len() == other.targets@.len()
        &&& self.displayed@ == other.displayed@
        &&& forall|i: int|
            0 <= i < self.targets@.len() ==> (#[trigger] self.targets@[i]).target
                == other.targets@[i].target && self.targets@[i].label == other.targets@[i].label
    }

    /// Follow the given sockets. `None` if there are none.
    pub fn follow(targets: Vec<DramTarget>) -> (meter: Option<DramMeter>)
        ensures
            meter is None <==> targets@.len() == 0,
            meter matches Some(m) ==> {
                &&& m.wf()
                &&& m.targets@.len() == targets@.len()
                &&& forall|i: int|
                    0 <= i < targets@.len() ==> (#[trigger] m.targets@[i]).target == targets@[i]
                        && m.targets@[i].feed == Feed::zero() && m.displayed@[i] == 0
                &&& m.columns@ == Seq::<SocketColumns>::empty()
                &&& m.prev_line@ == Seq::<char>::empty()
            },
    {
        if targets.len() == 0 {
            return None;
        }
        let mut rest = targets;
        let mut states: Vec<DramTargetState> = Vec::new();
        let mut displayed: Vec<u64> = Vec::new();
        let ghost all = targets@;
        while rest.len() > 0
            invariant
                rest@ == all.skip(states@.len() as int),
                states@.len() <= all.len(),
                displayed@.len() == states@.len(),
                forall|i: int|
                    0 <= i < states@.len() ==> (#[trigger] states@[i]).target == all[i]
                        && states@[i].feed == Feed::zero() && displayed@[i] == 0
                        && states@[i].label@ == states@[i].target.label_text(),
            decreases rest@.len(),
        {
            let ghost n = states@.len() as int;
            let target = rest.remove(0);
            let label = target.label();
            states.push(DramTargetState { target, label, feed: Feed::new() });
            displayed.push(0);
            proof {
                assert(rest@ =~= all.skip(n + 1));
            }
        }
        let prev_line = String::new();
        proof {
            assert(prev_line@ =~= Seq::empty());
        }
        Some(DramMeter { targets: states, displayed, columns: Vec::new(), prev_line })
    }

    /// Take in a line. `rates` gives, for each cell, the bytes that it stands for where it is a
    /// rate.
    pub fn on_line(&mut self, line: &str, rates: &Vec<Option<u64>>) -> (event: DramLine)
        requires
            old(self).wf(),
        ensures
            final(self).wf(),
            final(self).same_targets(*old(self)),
            final(self).prev_line@ == line@,
            if DramMeter::is_header(line@) {
                &&& final(self).targets@ == old(self).targets@
                &&& event matches DramLine::Header { guessed: g } && laid_out(
                    final(self).columns@,
                    g,
                    old(self).targets@,
                    text::trimmed_fields(old(self).prev_line@),
                    text::trimmed_fields(line@),
                )
                &&& event matches DramLine::Header { guessed: g } && if g {
                    &&& is_layout(
                        Seq::empty(),
                        text::trimmed_fields(old(self).prev_line@),
                        text::trimmed_fields(line@),
                    )
                    &&& final(self).columns@ == old(self).targets@.map_values(
                        |t: DramTargetState| guessed(t.target.socket),
                    )
                } else {
                    &&& final(self).columns@.len() > 0
                    &&& is_layout(
                        final(self).columns@,
                        text::trimmed_fields(old(self).prev_line@),
                        text::trimmed_fields(line@),
                    )
                }
            } else if old(self).columns@.len() == 0 {
                &&& event == DramLine::Preamble
                &&& final(self).columns@ == old(self).columns@
                &&& final(self).targets@ == old(self).targets@
            } else {
                let fields = line_fields(line@);
                let columns = old(self).columns@;
                &&& event matches DramLine::Row(found) && found@ == arrivals(
                    old(self).targets@,
                    fields,
                    rates@,
                    columns,
                    old(self).targets@.len(),
                )
                &&& final(self).columns@ == columns
                &&& forall|i: int|
                    0 <= i < old(self).targets@.len() ==> (#[trigger] final(self).targets@[i]).feed
                        == (match sample_in(
                        fields,
                        rates@,
                        columns,
                        old(self).targets@[i].target.socket,
                    ) {
                        Some((read, write)) => old(self).targets@[i].feed.after(read, write),
                        None => old(self).targets@[i].feed,
                    })
                &&& forall|i: int|
                    0 <= i < old(self).targets@.len() ==> (#[trigger] final(self).targets@[i]).feed
                        == old(self).targets@[i].fed(fields, rates@, columns)
            },
    {
        let chars = text::chars_of(line);
        if text::starts_with(&chars, &text::chars_of("Date,Time")) {
            // The header is two lines: a group row naming the sockets, then this metric row. The
            // first is still in hand, which is where the socket numbers are.
            let columns = header_columns(self.prev_line.as_str(), line);
            let guess = columns.len() == 0;
            proof {
                if guess {
                    assert(columns@ =~= Seq::empty());
                }
            }
            self.columns = if guess {
                fallback_columns(&self.targets)
            } else {
                columns
            };
            self.prev_line = text::copied(line);
            return DramLine::Header { guessed: guess };
        }
        if self.columns.len() == 0 {
            self.prev_line = text::copied(line);
            return DramLine::Preamble;
        }
        let fields = text::fields_of(&text::trim(&chars));
        let ghost row = line_fields(line@);
        let mut found: Vec<DramArrival> = Vec::new();
        let mut i: usize = 0;
        while i < self.targets.len()
            invariant
                i <= self.targets@.len(),
                self.wf(),
                self.same_targets(*old(self)),
                self.columns@ == old(self).columns@,
                row == text::views(fields@),
                found@ == arrivals(
                    old(self).targets@,
                    row,
                    rates@,
                    old(self).columns@,
                    i as nat,
                ),
                forall|k: int|
                    i <= k < self.targets@.len() ==> self.targets@[k] == old(self).targets@[k],
                forall|k: int|
                    0 <= k < i ==> (#[trigger] self.targets@[k]).feed == (match sample_in(
                        row,
                        rates@,
                        old(self).columns@,
                        old(self).targets@[k].target.socket,
                    ) {
                        Some((read, write)) => old(self).targets@[k].feed.after(read, write),
                        None => old(self).targets@[k].feed,
                    }),
            decreases self.targets@.len() - i,
        {
            let sample = read_sample(&fields, rates, &self.columns, self.targets[i].target.socket);
            if let Some((read_bytes, write_bytes)) = sample {
                self.targets[i].feed.sample(read_bytes, write_bytes);
                found.push(DramArrival { target: i, read_bytes, write_bytes });
            }
            i = i + 1;
        }
        self.prev_line = text::copied(line);
        DramLine::Row(found)
    }

    /// Latest sample per socket, or `None` for a socket with nothing new since the previous call.
    pub fn stats(&mut self) -> (stats: Vec<DramStats>)
        requires
            old(self).wf(),
        ensures
            final(self).wf(),
            final(self).targets@ == old(self).targets@,
            final(self).columns@ == old(self).columns@,
            final(self).prev_line@ == old(self).prev_line@,
            stats@.len() == old(self).targets@.len(),
            forall|i: int|
                0 <= i < stats@.len() ==> old(self).targets@[i].shows(
                    old(self).displayed@[i],
                    #[trigger] stats@[i],
                ),
            forall|i: int|
                0 <= i < stats@.len() ==> #[trigger] final(self).displayed@[i] == old(self).targets@[i].feed.shown(old(self).displayed@[i]),
    {
        let mut stats: Vec<DramStats> = Vec::new();
        let mut i: usize = 0;
        while i < self.targets.len()
            invariant
                i <= self.targets@.len(),
                self.wf(),
                self.targets@ == old(self).targets@,
                self.columns@ == old(self).columns@,
                self.prev_line@ == old(self).prev_line@,
                self.displayed@.len() == old(self).displayed@.len(),
                stats@.len() == i,
                forall|k: int|
                    i <= k < self.displayed@.len() ==> self.displayed@[k] == old(self).displayed@[k],
                forall|k: int|
                    0 <= k < i ==> #[trigger] self.displayed@[k] == old(self).targets@[k].feed.shown(old(self).displayed@[k]),
                forall|k: int|
                    0 <= k < i ==> old(self).targets@[k].shows(
                        old(self).displayed@[k],
                        #[trigger] stats@[k],
                    ),
            decreases self.targets@.len() - i,
        {
            let feed = self.targets[i].feed;
            let fresh = feed.is_fresh(self.displayed[i]);
            if fresh {
                self.displayed[i] = feed.seq;
            }
            let sample = if fresh {
                Some(DramSample { read_bytes: feed.read_bytes, write_bytes: feed.write_bytes })
            } else {
                None
            };
            stats.push(
                DramStats {
                    label: text::copied(self.targets[i].label.as_str()),
                    sample,
                    started: feed.seq != 0,
                    total_read_bytes: feed.total_read_bytes,
                    total_write_bytes: feed.total_write_bytes,
                },
            );
            i = i + 1;
        }
        stats
    }
}

fn read_cell(fields: &Vec<Vec<char>>, rates: &Vec<Option<u64>>, col: u64) -> (bytes: Option<u64>)
    ensures
        bytes == bytes_at(text::views(fields@), rates@, col),
{
    let count: usize = fields.len();
    if col >= count as u64 {
        return None;
    }
    let k: usize = col as usize;
    proof {
        assert(text::views(fields@)[k as int] == fields@[k as int]@);
    }
    if fields[k].len() == 0 {
        Some(0)
    } else if k < rates.len() {
        rates[k]
    } else {
        None
    }
}

fn read_sample(
    fields: &Vec<Vec<char>>,
    rates: &Vec<Option<u64>>,
    columns: &Vec<SocketColumns>,
    socket: u32,
) -> (sample: Option<(u64, u64)>)
    ensures
        sample == sample_in(text::views(fields@), rates@, columns@, socket),
{
    let mut k: usize = 0;
    while k < columns.len() && columns[k].socket != socket
        invariant
            k <= columns@.len(),
            columns_for(columns@, socket, 0) == columns_for(columns@, socket, k as nat),
        decreases columns@.len() - k,
    {
        k = k + 1;
    }
    if k == columns.len() {
        return None;
    }
    match (
        read_cell(fields, rates, columns[k].read_col),
        read_cell(fields, rates, columns[k].write_col),
    ) {
        (Some(read), Some(write)) => Some((read, write)),
        _ => None,
    }
}

/// A monitored port and the socket that it is attached to, if that is known.
#[derive(Debug)]
pub struct PortSocket {
    pub device: String,
    pub socket: Option<u32>,
}

/// The devices on `socket` among the first `n` ports, in order.
pub open spec fn devices_on(ports: Seq<PortSocket>, socket: u32, n: nat) -> Seq<Seq<char>>
    decreases n,
{
    if n == 0 {
        Seq::empty()
    } else {
        let before = devices_on(ports, socket, (n - 1) as nat);
        if ports[n - 1].socket == Some(socket) {
            before.push(ports[n - 1].device@)
        } else {
            before
        }
    }
}

/// The sockets of a list of targets.
pub open spec fn target_sockets(targets: Seq<DramTarget>) -> Seq<u32> {
    targets.map_values(|t: DramTarget| t.socket)
}

/// One target per socket that hosts at least one monitored port, in ascending order. Ports whose
/// socket is not known are left out.
pub fn resolve_targets(ports: &Vec<PortSocket>) -> (targets: Vec<DramTarget>)
    ensures
        sorted::ascending(target_sockets(targets@)),
        forall|socket: u32| #[trigger]
            target_sockets(targets@).contains(socket) <==> exists|i: int|
                0 <= i < ports@.len() && (#[trigger] ports@[i]).socket == Some(socket),
        forall|i: int|
            0 <= i < targets@.len() ==> text::string_views((#[trigger] targets@[i]).devices@)
                == devices_on(ports@, targets@[i].socket, ports@.len()),
{
    let mut sockets: Vec<u32> = Vec::new();
    let mut k: usize = 0;
    while k < ports.len()
        invariant
            k <= ports@.len(),
            sorted::ascending(sockets@),
            forall|socket: u32| #[trigger]
                sockets@.contains(socket) <==> exists|i: int|
                    0 <= i < k && (#[trigger] ports@[i]).socket == Some(socket),
        decreases ports@.len() - k,
    {
        if let Some(socket) = ports[k].socket {
            let ghost before = sockets@;
            sorted::insert(&mut sockets, socket);
            proof {
                assert forall|s: u32| #[trigger]
                    sockets@.contains(s) <==> exists|i: int|
                        0 <= i < k + 1 && (#[trigger] ports@[i]).socket == Some(s) by {
                    if s == socket {
                        assert(ports@[k as int].socket == Some(s));
                    }
                    if before.contains(s) {
                        let i = choose|i: int|
                            0 <= i < k && (#[trigger] ports@[i]).socket == Some(s);
                        assert(ports@[i].socket == Some(s));
                    }
                }
            }
        } else {
            proof {
                assert(ports@[k as int].socket is None);
                assert forall|s: u32| #[trigger]
                    sockets@.contains(s) <==> exists|i: int|
                        0 <= i < k + 1 && (#[trigger] ports@[i]).socket == Some(s) by {
                    if sockets@.contains(s) {
                        let i = choose|i: int|
                            0 <= i < k && (#[trigger] ports@[i]).socket == Some(s);
                        assert(ports@[i].socket == Some(s));
                    }
                }
            }
        }
        k = k + 1;
    }
    let mut targets: Vec<DramTarget> = Vec::new();
    let mut i: usize = 0;
    while i < sockets.len()
        invariant
            i <= sockets@.len(),
            target_sockets(targets@) == sockets@.take(i as int),
            forall|j: int|
                0 <= j < targets@.len() ==> text::string_views((#[trigger] targets@[j]).devices@)
                    == devices_on(ports@, targets@[j].socket, ports@.len()),
        decreases sockets@.len() - i,
    {
        let socket: u32 = sockets[i];
        let devices = devices_of(ports, socket);
        let ghost before = targets@;
        targets.push(DramTarget { socket, devices });
        proof {
            assert(target_sockets(targets@) =~= target_sockets(before).push(socket));
            assert(sockets@.take(i + 1) =~= sockets@.take(i as int).push(socket));
        }
        i = i + 1;
    }
    proof {
        assert(sockets@.take(i as int) =~= sockets@);
    }
    targets
}

fn devices_of(ports: &Vec<PortSocket>, socket: u32) -> (devices: Vec<String>)
    ensures
        text::string_views(devices@) == devices_on(ports@, socket, ports@.len()),
{
    let mut devices: Vec<String> = Vec::new();
    let mut k: usize = 0;
    proof {
        assert(text::string_views(devices@) =~= Seq::empty());
    }
    while k < ports.len()
        invariant
            k <= ports@.len(),
            text::string_views(devices@) == devices_on(ports@, socket, k as nat),
        decreases ports@.len() - k,
    {
        if ports[k].socket == Some(socket) {
            let ghost before = text::string_views(devices@);
            devices.push(text::copied(ports[k].device.as_str()));
            proof {
                assert(text::string_views(devices@) =~= before.push(ports@[k as int].device@));
            }
        }
        k = k + 1;
    }
    devices
}

/// The names of the columns of the sample log.
pub open spec fn logged_columns() -> Seq<Seq<char>> {
    seq!["ts_ms"@, "socket"@, "devices"@, "dram_read_bytes"@, "dram_write_bytes"@]
}

/// What stands in the columns of the sample log for one sample.
pub open spec fn logged(target: DramTarget, ts_ms: u64, read_bytes: u64, write_bytes: u64) -> Seq<
    Seq<char>,
> {
    seq![
        text::decimal(ts_ms as nat),
        text::decimal(target.socket as nat),
        text::joined(text::string_views(target.devices@), ";"@),
        text::decimal(read_bytes as nat),
        text::decimal(write_bytes as nat),
    ]
}

/// The columns of the sample log.
pub fn log_header() -> (header: Vec<String>)
    ensures
        text::string_views(header@) == seq![
            "ts_ms"@,
            "socket"@,
            "devices"@,
            "dram_read_bytes"@,
            "dram_write_bytes"@,
        ],
        text::string_views(header@) == logged_columns(),
{
    let mut header: Vec<String> = Vec::new();
    header.push(text::copied("ts_ms"));
    header.push(text::copied("socket"));
    header.push(text::copied("devices"));
    header.push(text::copied("dram_read_bytes"));
    header.push(text::copied("dram_write_bytes"));
    proof {
        assert(text::string_views(header@) =~= seq![
            "ts_ms"@,
            "socket"@,
            "devices"@,
            "dram_read_bytes"@,
            "dram_write_bytes"@,
        ]);
    }
    header
}

/// One sample in the log, `ts_ms` milliseconds after the meter was started.
pub fn log_record(target: &DramTarget, ts_ms: u64, read_bytes: u64, write_bytes: u64) -> (record:
    Vec<String>)
    ensures
        text::string_views(record@) == seq![
            text::decimal(ts_ms as nat),
            text::decimal(target.socket as nat),
            text::joined(text::string_views(target.devices@), ";"@),
            text::decimal(read_bytes as nat),
            text::decimal(write_bytes as nat),
        ],
        text::string_views(record@) == logged(*target, ts_ms, read_bytes, write_bytes),
{
    let mut record: Vec<String> = Vec::new();
    record.push(text::number(ts_ms));
    record.push(text::number(target.socket as u64));
    record.push(text::join(&target.devices, ";"));
    record.push(text::number(read_bytes));
    record.push(text::number(write_bytes));
    proof {
        assert(text::string_views(record@) =~= seq![
            text::decimal(ts_ms as nat),
            text::decimal(target.socket as nat),
            text::joined(text::string_views(target.devices@), ";"@),
            text::decimal(read_bytes as nat),
            text::decimal(write_bytes as nat),
        ]);
    }
    record
}

/// Two layouts of the same header are the same: the columns are fixed by the names alone.
pub proof fn law_names_fix_the_columns(
    a: Seq<SocketColumns>,
    b: Seq<SocketColumns>,
    groups: Seq<Seq<char>>,
    metrics: Seq<Seq<char>>,
)
    requires
        is_layout(a, groups, metrics),
        is_layout(b, groups, metrics),
        metrics.len() <= u64::MAX,
    ensures
        a == b,
{
    assert forall|y: u32| #[trigger]
        sockets_of(a).contains(y) <==> sockets_of(b).contains(y) by {}
    sorted::law_members_fix_the_list(sockets_of(a), sockets_of(b));
    assert forall|i: int| 0 <= i < a.len() implies a[i] == b[i] by {
        assert(sockets_of(a)[i] == a[i].socket);
        assert(sockets_of(b)[i] == b[i].socket);
    }
    assert(a.len() == sockets_of(a).len());
    assert(b.len() == sockets_of(b).len());
    assert(a =~= b);
}

/// A column of a group that is not a socket's, such as the system's, is never read, and neither is
/// one that counts neither reads nor writes, such as a socket's total.
pub proof fn law_only_socket_columns_are_read(
    columns: Seq<SocketColumns>,
    groups: Seq<Seq<char>>,
    metrics: Seq<Seq<char>>,
    i: int,
)
    requires
        is_layout(columns, groups, metrics),
        0 <= i < columns.len(),
    ensures
        ({
            let c = columns[i];
            &&& c.read_col < metrics.len() && c.read_col < groups.len()
            &&& c.write_col < metrics.len() && c.write_col < groups.len()
            &&& socket_group(groups[c.read_col as int]) == Some(c.socket)
            &&& socket_group(groups[c.write_col as int]) == Some(c.socket)
            &&& metric_named(metrics[c.read_col as int]) == Metric::Read
            &&& metric_named(metrics[c.write_col as int]) == Metric::Write
            &&& c.read_col != c.write_col
        }),
{
    lemma_first_column(groups, metrics, columns[i].socket, Metric::Read, 0);
    lemma_first_column(groups, metrics, columns[i].socket, Metric::Write, 0);
}

/// What a look reports of a socket is what has arrived for it, each sample a pair of bytes read and
/// bytes written: the sums of either in 64 bits, whether anything has arrived at all, and the last
/// sample if it is newer than the one shown last.
pub proof fn law_a_look_reports_what_has_arrived(
    state: DramTargetState,
    samples: Seq<(u64, u64)>,
    displayed: u64,
    stats: DramStats,
)
    requires
        samples.len() <= u64::MAX,
        displayed <= samples.len(),
        state.feed == Feed::zero().after_all(samples),
        state.shows(displayed, stats),
    ensures
        stats.label@ == state.label@,
        stats.total_read_bytes == meter::sum_of(samples, true) % 0x1_0000_0000_0000_0000,
        stats.total_write_bytes == meter::sum_of(samples, false) % 0x1_0000_0000_0000_0000,
        stats.started <==> samples.len() > 0,
        stats.sample is Some <==> displayed < samples.len(),
        stats.sample matches Some(sample) ==> {
            &&& sample.read_bytes == samples.last().0
            &&& sample.write_bytes == samples.last().1
        },
{
    meter::law_totals_are_sums(samples);
    meter::law_a_look_shows_the_latest(samples, displayed);
}

/// A cell stands for the bytes of its rate. An empty cell stands for none; a cell that is not a
/// rate, and one that the row does not have, stand for nothing.
pub proof fn law_a_cell_stands_for_its_rate(
    fields: Seq<Seq<char>>,
    rates: Seq<Option<u64>>,
    col: u64,
)
    requires
        fields.len() == rates.len(),
    ensures
        col >= fields.len() ==> bytes_at(fields, rates, col) is None,
        col < fields.len() && fields[col as int].len() == 0 ==> bytes_at(fields, rates, col)
            == Some(0u64),
        col < fields.len() && fields[col as int].len() > 0 ==> bytes_at(fields, rates, col)
            == rates[col as int],
{
}

/// A row is a sample of a socket exactly if both of its cells can be read: the bytes read are those
/// of the socket's read column, the bytes written those of its write column, and each is added to
/// its own total. Otherwise the socket stays as it was.
pub proof fn law_a_row_is_the_next_sample(
    state: DramTargetState,
    fields: Seq<Seq<char>>,
    rates: Seq<Option<u64>>,
    columns: Seq<SocketColumns>,
    i: int,
)
    requires
        0 <= i < columns.len(),
        columns[i].socket == state.target.socket,
        forall|k: int| 0 <= k < i ==> (#[trigger] columns[k]).socket != state.target.socket,
    ensures
        ({
            let feed = state.fed(fields, rates, columns);
            match (
                bytes_at(fields, rates, columns[i].read_col),
                bytes_at(fields, rates, columns[i].write_col),
            ) {
                (Some(read), Some(written)) => {
                    &&& feed.read_bytes == read
                    &&& feed.write_bytes == written
                    &&& feed.total_read_bytes == (state.feed.total_read_bytes + read)
                        % 0x1_0000_0000_0000_0000
                    &&& feed.total_write_bytes == (state.feed.total_write_bytes + written)
                        % 0x1_0000_0000_0000_0000
                    &&& feed.seq == (state.feed.seq + 1) % 0x1_0000_0000_0000_0000
                },
                _ => feed == state.feed,
            }
        }),
{
    lemma_columns_for(columns, state.target.socket, 0, i);
}

proof fn lemma_columns_for(columns: Seq<SocketColumns>, socket: u32, from: nat, i: int)
    requires
        from <= i < columns.len(),
        columns[i].socket == socket,
        forall|k: int| 0 <= k < i ==> (#[trigger] columns[k]).socket != socket,
    ensures
        columns_for(columns, socket, from) == Some(columns[i]),
    decreases i - from,
{
    if from < i {
        assert(columns[from as int].socket != socket);
        lemma_columns_for(columns, socket, from + 1, i);
    }
}

/// A socket without columns gets no sample.
pub proof fn law_a_socket_without_columns_gets_no_sample(
    state: DramTargetState,
    fields: Seq<Seq<char>>,
    rates: Seq<Option<u64>>,
    columns: Seq<SocketColumns>,
)
    requires
        forall|k: int|
            0 <= k < columns.len() ==> (#[trigger] columns[k]).socket != state.target.socket,
    ensures
        state.fed(fields, rates, columns) == state.feed,
{
    lemma_no_columns_for(columns, state.target.socket, 0);
}

proof fn lemma_no_columns_for(columns: Seq<SocketColumns>, socket: u32, from: nat)
    requires
        forall|k: int| 0 <= k < columns.len() ==> (#[trigger] columns[k]).socket != socket,
    ensures
        columns_for(columns, socket, from) is None,
    decreases columns.len() - from,
{
    if from < columns.len() {
        assert(columns[from as int].socket != socket);
        lemma_no_columns_for(columns, socket, from + 1);
    }
}

/// A row arrives at exactly the targets for whose socket it holds a sample: once each, in their
/// order, with that sample's bytes.
pub proof fn law_a_row_arrives_at_the_sockets_it_samples(
    targets: Seq<DramTargetState>,
    fields: Seq<Seq<char>>,
    rates: Seq<Option<u64>>,
    columns: Seq<SocketColumns>,
    n: nat,
)
    requires
        n <= targets.len(),
        n <= usize::MAX,
    ensures
        ({
            let found = arrivals(targets, fields, rates, columns, n);
            &&& forall|j: int|
                0 <= j < found.len() ==> {
                    &&& (#[trigger] found[j]).target < n
                    &&& sample_in(
                        fields,
                        rates,
                        columns,
                        targets[found[j].target as int].target.socket,
                    ) == Some((found[j].read_bytes, found[j].write_bytes))
                }
            &&& forall|i: int, j: int|
                0 <= i < j < found.len() ==> (#[trigger] found[i]).target < (
                #[trigger] found[j]).target
            &&& forall|i: int|
                0 <= i < n && sample_in(
                    fields,
                    rates,
                    columns,
                    (#[trigger] targets[i]).target.socket,
                ) is Some ==> exists|j: int|
                    0 <= j < found.len() && (#[trigger] found[j]).target == i
        }),
    decreases n,
{
    if n > 0 {
        let m = (n - 1) as nat;
        law_a_row_arrives_at_the_sockets_it_samples(targets, fields, rates, columns, m);
        let before = arrivals(targets, fields, rates, columns, m);
        let found = arrivals(targets, fields, rates, columns, n);
        assert forall|i: int|
            0 <= i < n && sample_in(
                fields,
                rates,
                columns,
                (#[trigger] targets[i]).target.socket,
            ) is Some implies exists|j: int|
            0 <= j < found.len() && (#[trigger] found[j]).target == i by {
            if i < m {
                let j = choose|j: int|
                    0 <= j < before.len() && (#[trigger] before[j]).target == i;
                assert(found[j] == before[j]);
            } else {
                assert(found[before.len() as int].target == i);
            }
        }
    }
}

/// Of several columns that count the same for a socket the first is taken, and a socket is left out
/// only if it lacks one of the two.
pub proof fn law_the_first_column_of_a_socket_is_taken(
    columns: Seq<SocketColumns>,
    groups: Seq<Seq<char>>,
    metrics: Seq<Seq<char>>,
    socket: u32,
    read: int,
    write: int,
)
    requires
        is_layout(columns, groups, metrics),
        0 <= read < metrics.len() && read < groups.len(),
        0 <= write < metrics.len() && write < groups.len(),
        metrics.len() <= u64::MAX,
        socket_group(groups[read]) == Some(socket) && metric_named(metrics[read]) == Metric::Read,
        socket_group(groups[write]) == Some(socket) && metric_named(metrics[write])
            == Metric::Write,
        forall|k: int|
            0 <= k < read && socket_group(#[trigger] groups[k]) == Some(socket) ==> metric_named(
                metrics[k],
            ) != Metric::Read,
        forall|k: int|
            0 <= k < write && socket_group(#[trigger] groups[k]) == Some(socket) ==> metric_named(
                metrics[k],
            ) != Metric::Write,
    ensures
        exists|i: int|
            0 <= i < columns.len() && #[trigger] columns[i] == (SocketColumns {
                socket,
                read_col: read as u64,
                write_col: write as u64,
            }),
{
    lemma_first_column_is(groups, metrics, socket, Metric::Read, 0, read);
    lemma_first_column_is(groups, metrics, socket, Metric::Write, 0, write);
    assert(has_columns(groups, metrics, socket));
    assert(sockets_of(columns).contains(socket));
    let i = choose|i: int| 0 <= i < sockets_of(columns).len() && sockets_of(columns)[i] == socket;
    assert(columns[i].socket == socket);
}

proof fn lemma_first_column_is(
    groups: Seq<Seq<char>>,
    metrics: Seq<Seq<char>>,
    socket: u32,
    metric: Metric,
    from: nat,
    at: int,
)
    requires
        from <= at < metrics.len(),
        at < groups.len(),
        socket_group(groups[at]) == Some(socket) && metric_named(metrics[at]) == metric,
        forall|k: int|
            0 <= k < at && socket_group(#[trigger] groups[k]) == Some(socket) ==> metric_named(
                metrics[k],
            ) != metric,
    ensures
        first_column(groups, metrics, socket, metric, from) == Some(at as nat),
    decreases at - from,
{
    if from < at {
        assert(!is_column(groups, metrics, socket, metric, from as int)) by {
            if socket_group(groups[from as int]) == Some(socket) {
                assert(metric_named(metrics[from as int]) != metric);
            }
        }
        lemma_first_column_is(groups, metrics, socket, metric, from + 1, at);
    }
}

/// A group label names the socket whose number follows `SKT` or `skt`, white space around the
/// number or not.
pub proof fn law_a_group_names_its_socket(socket: u32, before: Seq<char>, after: Seq<char>)
    requires
        text::all_white(before),
        text::all_white(after),
    ensures
        socket_group("SKT"@ + (before + text::decimal(socket as nat) + after)) == Some(socket),
        socket_group("skt"@ + (before + text::decimal(socket as nat) + after)) == Some(socket),
{
    let rest = before + text::decimal(socket as nat) + after;
    text::law_numbers_have_no_margins(before, socket as nat, after);
    text::law_decimal_reads_back(socket as nat);
    reveal_strlit("SKT");
    reveal_strlit("skt");
    assert(("SKT"@ + rest).take(3) =~= "SKT"@);
    assert(("SKT"@ + rest).skip(3) =~= rest);
    assert(("skt"@ + rest).take(3) =~= "skt"@);
    assert(("skt"@ + rest).skip(3) =~= rest);
    assert(("skt"@ + rest)[0] == 's');
    assert(("skt"@ + rest).take(3)[0] != "SKT"@[0]);
}

/// A column is told by its name, in any case: a read column says `read`, a write column says
/// `write` and not `read`, and any other column is neither.
pub proof fn law_a_column_is_told_by_its_name(name: Seq<char>)
    ensures
        metric_named(name) == Metric::Read <==> text::contains_text(text::lowered(name), "read"@),
        metric_named(name) == Metric::Write <==> text::contains_text(text::lowered(name), "write"@)
            && !text::contains_text(text::lowered(name), "read"@),
{
}

/// The guessed columns follow the date and the time, three to a socket: reads, then writes. No two
/// sockets share one.
pub proof fn law_guessed_columns_are_three_to_a_socket(a: u32, b: u32)
    ensures
        guessed(a).socket == a,
        guessed(a).read_col == 2 + 3 * a,
        guessed(a).write_col == guessed(a).read_col + 1,
        a < b ==> guessed(a).write_col < guessed(b).read_col,
        a < u32::MAX ==> guessed((a + 1) as u32).read_col == guessed(a).read_col + 3,
{
}

/// The devices of a socket are those of the ports on it, and of no other port, each as often as
/// there are ports.
pub proof fn law_a_sockets_devices_are_those_of_its_ports(
    ports: Seq<PortSocket>,
    port: PortSocket,
    socket: u32,
)
    ensures
        devices_on(ports, socket, 0) == Seq::<Seq<char>>::empty(),
        devices_on(ports.push(port), socket, ports.len() + 1) == if port.socket == Some(socket) {
            devices_on(ports, socket, ports.len()).push(port.device@)
        } else {
            devices_on(ports, socket, ports.len())
        },
{
    lemma_devices_agree(ports, ports.push(port), socket, ports.len());
}

proof fn lemma_devices_agree(a: Seq<PortSocket>, b: Seq<PortSocket>, socket: u32, n: nat)
    requires
        n <= a.len() <= b.len(),
        forall|i: int| 0 <= i < a.len() ==> a[i] == b[i],
    ensures
        devices_on(a, socket, n) == devices_on(b, socket, n),
    decreases n,
{
    if n > 0 {
        lemma_devices_agree(a, b, socket, (n - 1) as nat);
    }
}

/// The log has a column for each thing that it says of a sample: under each name stands what the
/// name says, and what was logged as a number reads back as that number.
pub proof fn law_the_log_says_under_each_name_what_it_names(
    target: DramTarget,
    ts_ms: u64,
    read_bytes: u64,
    write_bytes: u64,
    i: int,
)
    requires
        0 <= i < logged_columns().len(),
    ensures
        ({
            let cell = logged(target, ts_ms, read_bytes, write_bytes)[i];
            let name = logged_columns()[i];
            let number = text::unsigned_value(cell, 10, u64::MAX as nat);
            &&& logged(target, ts_ms, read_bytes, write_bytes).len() == logged_columns().len()
            &&& name == "ts_ms"@ ==> number == Some(ts_ms as nat)
            &&& name == "socket"@ ==> number == Some(target.socket as nat)
            &&& name == "devices"@ && target.devices@.len() > 0 && (forall|k: int|
                0 <= k < target.devices@.len() ==> !(#[trigger] target.devices@[k])@.contains(';'))
                ==> text::split_at_char(cell, ';') == text::string_views(target.devices@)
            &&& name == "dram_read_bytes"@ ==> number == Some(read_bytes as nat)
            &&& name == "dram_write_bytes"@ ==> number == Some(write_bytes as nat)
        }),
{
    reveal_strlit("ts_ms");
    reveal_strlit("socket");
    reveal_strlit("devices");
    reveal_strlit("dram_read_bytes");
    reveal_strlit("dram_write_bytes");
    reveal_strlit(";");
    assert("ts_ms"@.len() == 5 && "socket"@.len() == 6 && "devices"@.len() == 7);
    assert("dram_read_bytes"@.len() == 15 && "dram_write_bytes"@.len() == 16);
    assert(i == 0 || i == 1 || i == 2 || i == 3 || i == 4);
    text::law_decimal_reads_back(ts_ms as nat);
    text::law_decimal_reads_back(target.socket as nat);
    text::law_decimal_reads_back(read_bytes as nat);
    text::law_decimal_reads_back(write_bytes as nat);
    let devices = text::string_views(target.devices@);
    assert(";"@ =~= seq![';']);
    if target.devices@.len() > 0 && (forall|k: int|
        0 <= k < target.devices@.len() ==> !(#[trigger] target.devices@[k])@.contains(';')) {
        assert forall|k: int| 0 <= k < devices.len() implies !(#[trigger] devices[k]).contains(
            ';',
        ) by {
            assert(devices[k] == target.devices@[k]@);
        }
        text::law_splitting_undoes_joining(devices, ';');
    }
}

/// Labels tell sockets apart.
pub proof fn law_labels_tell_sockets_apart(a: DramTarget, b: DramTarget)
    requires
        a.label_text() == b.label_text(),
    ensures
        a.socket == b.socket,
{
    let n = "socket"@.len() as int;
    assert(a.label_text().skip(n) =~= text::decimal(a.socket as nat));
    assert(b.label_text().skip(n) =~= text::decimal(b.socket as nat));
    text::law_decimal_is_unambiguous(a.socket as nat, b.socket as nat);
}

/// The columns are guessed exactly if the header names both columns of no socket, and then every
/// target has its three columns after the date and the time. Otherwise the columns are those named,
/// of every socket that has both.
pub proof fn law_columns_are_guessed_only_if_none_are_named(
    columns: Seq<SocketColumns>,
    guess: bool,
    targets: Seq<DramTargetState>,
    groups: Seq<Seq<char>>,
    metrics: Seq<Seq<char>>,
    socket: u32,
    i: int,
)
    requires
        laid_out(columns, guess, targets, groups, metrics),
    ensures
        guess ==> !has_columns(groups, metrics, socket),
        !guess ==> exists|s: u32| #[trigger] has_columns(groups, metrics, s),
        guess ==> columns.len() == targets.len(),
        guess && 0 <= i < targets.len() ==> {
            &&& columns[i].socket == targets[i].target.socket
            &&& columns[i].read_col == 2 + 3 * targets[i].target.socket
            &&& columns[i].write_col == 3 + 3 * targets[i].target.socket
        },
        !guess ==> (has_columns(groups, metrics, socket) <==> exists|k: int|
            0 <= k < columns.len() && (#[trigger] columns[k]).socket == socket),
{
    if guess {
        assert(!sockets_of(Seq::empty()).contains(socket));
    } else {
        let sockets = sockets_of(columns);
        assert(sockets[0] == columns[0].socket);
        assert(sockets.contains(columns[0].socket));
        assert(has_columns(groups, metrics, columns[0].socket));
        if has_columns(groups, metrics, socket) {
            assert(sockets.contains(socket));
            let k = choose|k: int| 0 <= k < sockets.len() && sockets[k] == socket;
            assert(columns[k].socket == socket);
        }
        if exists|k: int| 0 <= k < columns.len() && (#[trigger] columns[k]).socket == socket {
            let k = choose|k: int|
                0 <= k < columns.len() && (#[trigger] columns[k]).socket == socket;
            assert(sockets[k] == socket);
            assert(sockets.contains(socket));
        }
    }
}

/// The fields of a line are what stands between its commas, each without its margins, the line's own
/// aside.
pub proof fn law_a_lines_fields_stand_between_its_commas(
    before: Seq<char>,
    raw: Seq<Seq<char>>,
    after: Seq<char>,
    k: int,
)
    requires
        text::all_white(before),
        text::all_white(after),
        forall|j: int| 0 <= j < raw.len() ==> !(#[trigger] raw[j]).contains(','),
        0 <= k < raw.len(),
        ({
            let row = text::joined(raw, seq![',']);
            row.len() > 0 ==> !text::is_white_space(row[0]) && !text::is_white_space(row.last())
        }),
    ensures
        line_fields(before + text::joined(raw, seq![',']) + after).len() == raw.len(),
        line_fields(before + text::joined(raw, seq![',']) + after)[k] == text::trimmed(raw[k]),
{
    text::law_trimming_takes_off_the_margins(before, text::joined(raw, seq![',']), after);
    text::law_fields_stand_between_commas(raw, k);
}

} // verus!
