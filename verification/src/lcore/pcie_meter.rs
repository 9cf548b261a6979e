//! PCIe inbound-bandwidth meter over the CSV stream of Intel PCM's `pcm-iio`.
//!
//! `pcm-iio` samples once a second, so each sample is the exact number of bytes that crossed a root
//! port in the last second. This module reads its lines and keeps the most recent sample for each
//! monitored root port; starting the tool and following its output is left to the caller.
//!
//! Which root port to follow is derived from the PCI address of each monitored port.

use crate::lcore::meter;
use crate::lcore::meter::Feed;
use crate::lcore::topology;
use crate::lcore::topology::{
    root_port_of, socket_of_device, stack_index, Sysfs, TopologyError,
};
use crate::text;
use vstd::prelude::*;

verus! {

/// Column of the inbound write count when the header cannot be interpreted.
pub const DEFAULT_WRITE_COL: usize = 3;

/// Column of the inbound read count when the header cannot be interpreted.
pub const DEFAULT_READ_COL: usize = 4;

/// The `pcm-iio` row a device's traffic shows up in.
#[derive(Debug, Clone, PartialEq, Eq)]
pub struct PcieTarget {
    /// CPU package the root port hangs off.
    pub socket: u32,
    /// IIO stack index within the socket.
    pub stack: u32,
    /// Root port within the stack.
    pub part: u32,
    /// What this target was derived from, for display.
    pub device: String,
}

/// The texts of a slice of string slices.
pub open spec fn texts(fields: Seq<&str>) -> Seq<Seq<char>> {
    fields.map_values(|field: &str| field@)
}

/// The stack that the first word `stack`, in any case, from word `from` on is followed by.
pub open spec fn stack_named(tokens: Seq<Seq<char>>, from: nat) -> Option<nat>
    decreases tokens.len() - from,
{
    if from >= tokens.len() {
        None
    } else if text::lowered(tokens[from as int]) == "stack"@ {
        if from + 1 < tokens.len() {
            text::unsigned_value(tokens[from as int + 1], 10, u32::MAX as nat)
        } else {
            None
        }
    } else {
        stack_named(tokens, from + 1)
    }
}

/// `"IIO Stack 2 - PCIe2"` names stack 2, and not stack 20.
pub open spec fn names_stack(field: Seq<char>, stack: u32) -> bool {
    stack_named(text::words(field), 0) == Some(stack as nat)
}

/// `"Part0 (1st x16/x8/x4)"` names part 0, and not part 01.
pub open spec fn names_part(field: Seq<char>, part: u32) -> bool {
    text::words(field).len() > 0 && text::words(field)[0] == "Part"@ + text::decimal(part as nat)
}

/// A row describes the given root port.
pub open spec fn row_describes(fields: Seq<Seq<char>>, socket: u32, stack: u32, part: u32) -> bool {
    &&& fields.len() >= 5
    &&& fields[0] == "Socket"@ + text::decimal(socket as nat)
    &&& names_stack(fields[1], stack)
    &&& names_part(fields[2], part)
}

impl PcieTarget {
    /// What the target is called for display.
    pub open spec fn label_text(self) -> Seq<char> {
        self.device@ + " (Socket"@ + text::decimal(self.socket as nat) + " IIO Stack "@
            + text::decimal(self.stack as nat) + " Part"@ + text::decimal(self.part as nat) + ")"@
    }

    /// A row describes this target.
    pub open spec fn in_row(self, fields: Seq<Seq<char>>) -> bool {
        row_describes(fields, self.socket, self.stack, self.part)
    }

    /// The target is the root port at the given place, above the given device.
    pub open spec fn is_at(self, place: (u32, u32, u32), device: Seq<char>) -> bool {
        (self.socket, self.stack, self.part) == place && self.device@ == device
    }

    /// Derive the socket, stack and part of the root port above a PCI device.
    ///
    /// ```text
    /// /sys/bus/pci/devices/0000:3b:00.0
    ///   -> /sys/devices/pci0000:3a/0000:3a:00.0/0000:3b:00.0
    ///           root complex ^        ^ root port
    /// ```
    pub fn derive(device: &str, sysfs: &Sysfs) -> (target: Result<PcieTarget, TopologyError>)
        ensures
            match topology::placed(*sysfs) {
                Ok(place) => target matches Ok(t) && t.is_at(place, device@),
                Err(error) => target == Err::<PcieTarget, TopologyError>(error),
            },
    {
        let found = match &sysfs.device {
            Some(found) => found,
            None => {
                return Err(TopologyError::NoDevice);
            },
        };
        let (domain, bus, part) = match root_port_of(&found.path) {
            Ok(port) => port,
            Err(error) => {
                return Err(error);
            },
        };
        let socket: u32 = match socket_of_device(found) {
            Ok(socket) => socket,
            Err(error) => {
                return Err(error);
            },
        };
        match stack_index(&sysfs.entries, socket, domain, bus).index {
            Ok(stack) => Ok(PcieTarget { socket, stack, part, device: text::copied(device) }),
            Err(error) => Err(error),
        }
    }

    /// What the target is called for display.
    pub fn label(&self) -> (label: String)
        ensures
            label@ == self.label_text(),
    {
        let mut chars = text::chars_of(self.device.as_str());
        text::append(&mut chars, &text::chars_of(" (Socket"));
        text::append(&mut chars, &text::decimal_of(self.socket as u64));
        text::append(&mut chars, &text::chars_of(" IIO Stack "));
        text::append(&mut chars, &text::decimal_of(self.stack as u64));
        text::append(&mut chars, &text::chars_of(" Part"));
        text::append(&mut chars, &text::decimal_of(self.part as u64));
        text::append(&mut chars, &text::chars_of(")"));
        text::string_of(&chars)
    }

    /// Does this `pcm-iio` CSV row describe this target?
    pub fn matches(&self, fields: &[&str]) -> (found: bool)
        ensures
            found == self.in_row(texts(fields@)),
    {
        let mut row: Vec<Vec<char>> = Vec::new();
        let mut i: usize = 0;
        while i < fields.len()
            invariant
                i <= fields@.len(),
                row@.len() == i,
                forall|k: int| 0 <= k < i ==> (#[trigger] row@[k])@ == fields@[k]@,
            decreases fields@.len() - i,
        {
            row.push(text::chars_of(fields[i]));
            i = i + 1;
        }
        proof {
            assert(text::views(row@) =~= texts(fields@));
        }
        self.matches_row(&row)
    }

    fn matches_row(&self, row: &Vec<Vec<char>>) -> (found: bool)
        ensures
            found == self.in_row(text::views(row@)),
    {
        if row.len() < 5 {
            return false;
        }
        proof {
            assert(text::views(row@)[0] == row@[0]@);
            assert(text::views(row@)[1] == row@[1]@);
            assert(text::views(row@)[2] == row@[2]@);
        }
        let mut socket = text::chars_of("Socket");
        text::append(&mut socket, &text::decimal_of(self.socket as u64));
        text::same_text(&row[0], &socket) && matches_stack_in(&row[1], self.stack)
            && matches_part_in(&row[2], self.part)
    }
}

fn matches_stack_in(field: &[char], stack: u32) -> (found: bool)
    ensures
        found == names_stack(field@, stack),
{
    let tokens = text::split_words(field);
    let ghost all = text::words(field@);
    let wanted = text::chars_of("stack");
    let count: usize = tokens.len();
    let mut k: usize = 0;
    while k < count
        invariant
            k <= count == tokens@.len(),
            all == text::words(field@),
            text::views(tokens@) == all,
            wanted@ == "stack"@,
            stack_named(all, 0) == stack_named(all, k as nat),
        decreases count - k,
    {
        proof {
            assert(all[k as int] == tokens@[k as int]@);
        }
        if text::same_text(&text::lower(&tokens[k]), &wanted) {
            if k + 1 >= count {
                return false;
            }
            proof {
                assert(all[k + 1] == tokens@[k + 1]@);
            }
            return match text::parse_u32(&tokens[k + 1]) {
                Some(n) => n == stack,
                None => false,
            };
        }
        k = k + 1;
    }
    false
}

fn matches_part_in(field: &[char], part: u32) -> (found: bool)
    ensures
        found == names_part(field@, part),
{
    let tokens = text::split_words(field);
    if tokens.len() == 0 {
        proof {
            assert(text::views(tokens@).len() == 0);
        }
        return false;
    }
    proof {
        assert(text::words(field@)[0] == tokens@[0]@);
    }
    let mut wanted = text::chars_of("Part");
    text::append(&mut wanted, &text::decimal_of(part as u64));
    text::same_text(&tokens[0], &wanted)
}

/// Whether a field names a stack.
pub fn matches_stack(field: &str, stack: u32) -> (found: bool)
    ensures
        found == names_stack(field@, stack),
{
    matches_stack_in(&text::chars_of(field), stack)
}

/// Whether a field names a part.
pub fn matches_part(field: &str, part: u32) -> (found: bool)
    ensures
        found == names_part(field@, part),
{
    matches_part_in(&text::chars_of(field), part)
}

/// The first field from `from` on, other than field `except`, whose name contains `needle` in any
/// case.
pub open spec fn first_naming(
    fields: Seq<Seq<char>>,
    needle: Seq<char>,
    except: Option<nat>,
    from: nat,
) -> Option<nat>
    decreases fields.len() - from,
{
    if from >= fields.len() {
        None
    } else if except != Some(from) && text::contains_text(
        text::lowered(fields[from as int]),
        needle,
    ) {
        Some(from)
    } else {
        first_naming(fields, needle, except, from + 1)
    }
}

/// The inbound write and read columns that a header names: the first that says `write`, and the
/// first other one that says `read`.
pub open spec fn columns_in(header: Seq<char>) -> Option<(nat, nat)> {
    let fields = text::trimmed_fields(header);
    let write = first_naming(fields, "write"@, None, 0);
    let read = first_naming(fields, "read"@, write, 0);
    match (write, read) {
        (Some(w), Some(r)) => Some((w, r)),
        _ => None,
    }
}

/// The columns in use after a header, if `before` were in use.
pub open spec fn columns_after(before: (nat, nat), header: Seq<char>) -> (nat, nat) {
    match columns_in(header) {
        Some(columns) => columns,
        None => before,
    }
}

fn find_naming(fields: &Vec<Vec<char>>, needle: &str, except: Option<usize>) -> (found: Option<usize>)
    ensures
        (match found {
            Some(k) => Some(k as nat),
            None => None,
        }) == first_naming(
            text::views(fields@),
            needle@,
            match except {
                Some(k) => Some(k as nat),
                None => None,
            },
            0,
        ),
{
    let wanted = text::chars_of(needle);
    let ghost all = text::views(fields@);
    let ghost skipped: Option<nat> = match except {
        Some(k) => Some(k as nat),
        None => None,
    };
    let mut k: usize = 0;
    while k < fields.len()
        invariant
            k <= fields@.len(),
            all == text::views(fields@),
            wanted@ == needle@,
            skipped == (match except {
                Some(k) => Some(k as nat),
                None => None,
            }),
            first_naming(all, needle@, skipped, 0) == first_naming(all, needle@, skipped, k as nat),
        decreases fields@.len() - k,
    {
        proof {
            assert(all[k as int] == fields@[k as int]@);
        }
        let skip = match except {
            Some(e) => e == k,
            None => false,
        };
        if !skip && text::contains(&text::lower(&fields[k]), &wanted) {
            return Some(k);
        }
        k = k + 1;
    }
    None
}

/// Locate the inbound write and read columns from the CSV header, if it names them.
pub fn header_columns(header: &str) -> (columns: Option<(usize, usize)>)
    ensures
        match columns {
            Some((w, r)) => columns_in(header@) == Some((w as nat, r as nat)),
            None => columns_in(header@) is None,
        },
{
    let fields = text::fields_of(&text::chars_of(header));
    let write = find_naming(&fields, "write", None);
    let read = find_naming(&fields, "read", write);
    match (write, read) {
        (Some(w), Some(r)) => Some((w, r)),
        _ => None,
    }
}

/// The byte count in a cell. `float` is what the cell reads as where it is a decimal fraction.
pub open spec fn bytes_in(field: Seq<char>, float: Option<u64>) -> Option<u64> {
    if field.len() == 0 {
        Some(0)
    } else {
        match text::unsigned_value(field, 10, u64::MAX as nat) {
            Some(bytes) => Some(bytes as u64),
            None => float,
        }
    }
}

fn parse_bytes_in(field: &[char], float: Option<u64>) -> (bytes: Option<u64>)
    ensures
        bytes == bytes_in(field@, float),
{
    if field.len() == 0 {
        return Some(0);
    }
    match text::parse_u64(field) {
        Some(bytes) => Some(bytes),
        None => float,
    }
}

/// Byte count from one CSV cell. `pcm-iio` prints plain integers in CSV mode, but a float or an
/// empty cell is tolerated rather than dropping the sample: `float` is what the cell reads as where
/// it is a decimal fraction.
pub fn parse_bytes(field: &str, float: Option<u64>) -> (bytes: Option<u64>)
    ensures
        bytes == bytes_in(field@, float),
{
    parse_bytes_in(&text::chars_of(field), float)
}

/// The fields of a line, trimmed.
pub open spec fn line_fields(line: Seq<char>) -> Seq<Seq<char>> {
    text::trimmed_fields(text::trimmed(line))
}

/// The fields of a line, trimmed, for a caller that reads decimal fractions.
pub fn cells(line: &str) -> (fields: Vec<String>)
    ensures
        text::string_views(fields@) == line_fields(line@),
{
    let row = text::fields_of(&text::trim(&text::chars_of(line)));
    let mut fields: Vec<String> = Vec::new();
    let mut i: usize = 0;
    while i < row.len()
        invariant
            i <= row@.len(),
            fields@.len() == i,
            forall|k: int| 0 <= k < i ==> (#[trigger] fields@[k])@ == row@[k]@,
        decreases row@.len() - i,
    {
        fields.push(text::string_of(&row[i]));
        i = i + 1;
    }
    proof {
        assert(text::string_views(fields@) =~= text::views(row@));
    }
    fields
}

/// One `pcm-iio` sample for one root port: the bytes it moved in one second.
#[derive(Debug, Clone, Copy, PartialEq, Eq, Structural)]
pub struct PcieSample {
    /// Sample counter; unchanged between reads means no new sample.
    pub seq: u64,
    /// Inbound (device to host) write bytes, exactly as counted.
    pub write_bytes: u64,
    /// Inbound (host to device) read bytes, exactly as counted.
    pub read_bytes: u64,
}

/// What the monitor prints for one target on a display tick.
#[derive(Debug, Clone)]
pub struct PcieStats {
    pub label: String,
    /// Latest sample, if one has arrived since the previously displayed one.
    pub sample: Option<PcieSample>,
    /// True once at least one sample has ever arrived for this target.
    pub started: bool,
    pub total_write_bytes: u64,
    pub total_read_bytes: u64,
}

/// A target and what has arrived for it.
#[derive(Debug)]
pub struct PcieTargetState {
    pub target: PcieTarget,
    pub label: String,
    pub feed: Feed,
}

impl PcieTargetState {
    /// What a look at the target shows when sample number `displayed` was shown last.
    pub open spec fn shows(self, displayed: u64, stats: PcieStats) -> bool {
        &&& stats.label@ == self.label@
        &&& stats.sample == if self.feed.fresh(displayed) {
            Some(
                PcieSample {
                    seq: self.feed.seq,
                    write_bytes: self.feed.write_bytes,
                    read_bytes: self.feed.read_bytes,
                },
            )
        } else {
            None
        }
        &&& stats.started == (self.feed.seq != 0)
        &&& stats.total_write_bytes == self.feed.total_write_bytes
        &&& stats.total_read_bytes == self.feed.total_read_bytes
    }

    /// What the target's feed is once a row has been taken in, the counts standing in the given
    /// columns.
    pub open spec fn fed(
        self,
        fields: Seq<Seq<char>>,
        floats: Seq<Option<u64>>,
        write_col: int,
        read_col: int,
    ) -> Feed {
        if self.target.in_row(fields) {
            self.feed.after(
                count_in(fields, floats, read_col),
                count_in(fields, floats, write_col),
            )
        } else {
            self.feed
        }
    }
}

/// A sample that has just arrived.
#[derive(Debug, Clone, Copy, PartialEq, Eq, Structural)]
pub struct PcieArrival {
    /// The target's position.
    pub target: usize,
    pub write_bytes: u64,
    pub read_bytes: u64,
}

/// What a line of `pcm-iio` output was.
#[derive(Debug)]
pub enum PcieLine {
    /// The column header that opens each round; these columns are in use from here on.
    Header { write_col: usize, read_col: usize },
    /// A row, and the samples that it held.
    Row(Vec<PcieArrival>),
}

/// The monitored root ports and what has arrived for them.
#[derive(Debug)]
pub struct PcieMeter {
    pub targets: Vec<PcieTargetState>,
    /// Sample number last shown per target, to spot stale samples.
    pub displayed: Vec<u64>,
    pub write_col: usize,
    pub read_col: usize,
}

/// The count in column `col` of a row; zero if there is none or it cannot be read.
pub open spec fn count_in(fields: Seq<Seq<char>>, floats: Seq<Option<u64>>, col: int) -> u64 {
    if col < fields.len() {
        match bytes_in(
            fields[col],
            if col < floats.len() {
                floats[col]
            } else {
                None
            },
        ) {
            Some(bytes) => bytes,
            None => 0,
        }
    } else {
        0
    }
}

/// The samples that a row holds for the first `n` targets.
pub open spec fn arrivals(
    targets: Seq<PcieTargetState>,
    fields: Seq<Seq<char>>,
    write_bytes: u64,
    read_bytes: u64,
    n: nat,
) -> Seq<PcieArrival>
    decreases n,
{
    if n == 0 {
        Seq::empty()
    } else {
        let before = arrivals(targets, fields, write_bytes, read_bytes, (n - 1) as nat);
        if targets[n - 1].target.in_row(fields) {
            before.push(PcieArrival { target: (n - 1) as usize, write_bytes, read_bytes })
        } else {
            before
        }
    }
}

impl PcieMeter {
    /// A line of column names.
    pub open spec fn is_header(line: Seq<char>) -> bool {
        text::begins_with(line, "Socket,Name"@)
    }

    /// One shown number per target, and every target under its own label.
    pub open spec fn wf(self) -> bool {
        &&& self.displayed@.len() == self.targets@.len()
        &&& forall|i: int|
            0 <= i < self.targets@.len() ==> (#[trigger] self.targets@[i]).label@
                == self.targets@[i].target.label_text()
    }

    /// Both meters follow the same targets and have shown the same samples.
    pub open spec fn same_targets(self, other: PcieMeter) -> bool {
        &&& self.targets@.len() == other.targets@.len()
        &&& self.displayed@ == other.displayed@
        &&& forall|i: int|
            0 <= i < self.targets@.len() ==> (#[trigger] self.targets@[i]).target
                == other.targets@[i].target && self.targets@[i].label == other.targets@[i].label
    }

    /// The write count in a row.
    pub open spec fn write_in(self, fields: Seq<Seq<char>>, floats: Seq<Option<u64>>) -> u64 {
        count_in(fields, floats, self.write_col as int)
    }

    /// The read count in a row.
    pub open spec fn read_in(self, fields: Seq<Seq<char>>, floats: Seq<Option<u64>>) -> u64 {
        count_in(fields, floats, self.read_col as int)
    }

    /// Follow the given root ports. `None` if there are none.
    pub fn follow(targets: Vec<PcieTarget>) -> (meter: Option<PcieMeter>)
        ensures
            meter is None <==> targets@.len() == 0,
            meter matches Some(m) ==> {
                &&& m.wf()
                &&& m.targets@.len() == targets@.len()
                &&& forall|i: int|
                    0 <= i < targets@.len() ==> (#[trigger] m.targets@[i]).target == targets@[i]
                        && m.targets@[i].feed == Feed::zero() && m.displayed@[i] == 0
                &&& m.write_col == DEFAULT_WRITE_COL
                &&& m.read_col == DEFAULT_READ_COL
                &&& (m.write_col, m.read_col) == (3usize, 4usize)
            },
    {
        if targets.len() == 0 {
            return None;
        }
        let mut rest = targets;
        let mut states: Vec<PcieTargetState> = Vec::new();
        let mut displayed: Vec<u64> = Vec::new();
        let ghost all = targets@;
        while rest.len() > 0
            invariant
                rest@ == all.skip(states@.len() as int),
                states@.len() <= all.len(),
                displayed@.len() == states@.len(),
                forall|i: int|
                    0 <= i < states@.len() ==> (#[trigger] states@[i]).target == all[i]
                        && states@[i].feed == Feed::zero() && displayed@[i] == 0
                        && states@[i].label@ == states@[i].target.label_text(),
            decreases rest@.len(),
        {
            let ghost n = states@.len() as int;
            let target = rest.remove(0);
            let label = target.label();
            states.push(PcieTargetState { target, label, feed: Feed::new() });
            displayed.push(0);
            proof {
                assert(rest@ =~= all.skip(n + 1));
            }
        }
        Some(
            PcieMeter {
                targets: states,
                displayed,
                write_col: DEFAULT_WRITE_COL,
                read_col: DEFAULT_READ_COL,
            },
        )
    }

    /// Take in a line. `floats` gives, for each cell, what it reads as where it is a decimal
    /// fraction.
    pub fn on_line(&mut self, line: &str, floats: &Vec<Option<u64>>) -> (event: PcieLine)
        requires
            old(self).wf(),
        ensures
            final(self).wf(),
            final(self).same_targets(*old(self)),
            if PcieMeter::is_header(line@) {
                &&& event == PcieLine::Header {
                    write_col: final(self).write_col,
                    read_col: final(self).read_col,
                }
                &&& (final(self).write_col as nat, final(self).read_col as nat) == (match columns_in(
                    line@,
                ) {
                    Some(columns) => columns,
                    None => (old(self).write_col as nat, old(self).read_col as nat),
                })
                &&& (final(self).write_col as nat, final(self).read_col as nat) == columns_after(
                    (old(self).write_col as nat, old(self).read_col as nat),
                    line@,
                )
                &&& final(self).targets@ == old(self).targets@
            } else {
                let fields = line_fields(line@);
                let write = old(self).write_in(fields, floats@);
                let read = old(self).read_in(fields, floats@);
                &&& event matches PcieLine::Row(found) && found@ == arrivals(
                    old(self).targets@,
                    fields,
                    write,
                    read,
                    old(self).targets@.len(),
                )
                &&& final(self).write_col == old(self).write_col
                &&& final(self).read_col == old(self).read_col
                &&& forall|i: int|
                    0 <= i < old(self).targets@.len() ==> (#[trigger] final(self).targets@[i]).feed == if old(self).targets@[i].target.in_row(fields) {
                        old(self).targets@[i].feed.after(read, write)
                    } else {
                        old(self).targets@[i].feed
                    }
                &&& forall|i: int|
                    0 <= i < old(self).targets@.len() ==> (#[trigger] final(self).targets@[i]).feed
                        == old(self).targets@[i].fed(
                        fields,
                        floats@,
                        old(self).write_col as int,
                        old(self).read_col as int,
                    )
            },
    {
        let chars = text::chars_of(line);
        if text::starts_with(&chars, &text::chars_of("Socket,Name")) {
            if let Some((w, r)) = header_columns(line) {
                self.write_col = w;
                self.read_col = r;
            }
            return PcieLine::Header { write_col: self.write_col, read_col: self.read_col };
        }
        let fields = text::fields_of(&text::trim(&chars));
        let ghost row = line_fields(line@);
        let write_bytes: u64 = count_at(&fields, floats, self.write_col);
        let read_bytes: u64 = count_at(&fields, floats, self.read_col);
        let mut found: Vec<PcieArrival> = Vec::new();
        let mut i: usize = 0;
        while i < self.targets.len()
            invariant
                i <= self.targets@.len(),
                self.wf(),
                self.same_targets(*old(self)),
                self.write_col == old(self).write_col,
                self.read_col == old(self).read_col,
                row == text::views(fields@),
                found@ == arrivals(old(self).targets@, row, write_bytes, read_bytes, i as nat),
                forall|k: int|
                    i <= k < self.targets@.len() ==> self.targets@[k] == old(self).targets@[k],
                forall|k: int|
                    0 <= k < i ==> (#[trigger] self.targets@[k]).feed == if old(self).targets@[k].target.in_row(row) {
                        old(self).targets@[k].feed.after(read_bytes, write_bytes)
                    } else {
                        old(self).targets@[k].feed
                    },
            decreases self.targets@.len() - i,
        {
            if self.targets[i].target.matches_row(&fields) {
                self.targets[i].feed.sample(read_bytes, write_bytes);
                found.push(PcieArrival { target: i, write_bytes, read_bytes });
            }
            i = i + 1;
        }
        PcieLine::Row(found)
    }

    /// Per-target stats since the last call. `sample` is `None` when nothing new has arrived for
    /// that target, so a stale count is never shown as if it were current.
    pub fn stats(&mut self) -> (stats: Vec<PcieStats>)
        requires
            old(self).wf(),
        ensures
            final(self).wf(),
            final(self).targets@ == old(self).targets@,
            final(self).write_col == old(self).write_col,
            final(self).read_col == old(self).read_col,
            stats@.len() == old(self).targets@.len(),
            forall|i: int|
                0 <= i < stats@.len() ==> old(self).targets@[i].shows(
                    old(self).displayed@[i],
                    #[trigger] stats@[i],
                ),
            forall|i: int|
                0 <= i < stats@.len() ==> #[trigger] final(self).displayed@[i] == old(self).targets@[i].feed.shown(old(self).displayed@[i]),
    {
        let mut stats: Vec<PcieStats> = Vec::new();
        let mut i: usize = 0;
        while i < self.targets.len()
            invariant
                i <= self.targets@.len(),
                self.wf(),
                self.targets@ == old(self).targets@,
                self.write_col == old(self).write_col,
                self.read_col == old(self).read_col,
                self.displayed@.len() == old(self).displayed@.len(),
                stats@.len() == i,
                forall|k: int|
                    i <= k < self.displayed@.len() ==> self.displayed@[k] == old(self).displayed@[k],
                forall|k: int|
                    0 <= k < i ==> #[trigger] self.displayed@[k] == old(self).targets@[k].feed.shown(old(self).displayed@[k]),
                forall|k: int|
                    0 <= k < i ==> old(self).targets@[k].shows(
                        old(self).displayed@[k],
                        #[trigger] stats@[k],
                    ),
            decreases self.targets@.len() - i,
        {
            let feed = self.targets[i].feed;
            let fresh = feed.is_fresh(self.displayed[i]);
            if fresh {
                self.displayed[i] = feed.seq;
            }
            let sample = if fresh {
                Some(
                    PcieSample {
                        seq: feed.seq,
                        write_bytes: feed.write_bytes,
                        read_bytes: feed.read_bytes,
                    },
                )
            } else {
                None
            };
            stats.push(
                PcieStats {
                    label: text::copied(self.targets[i].label.as_str()),
                    sample,
                    started: feed.seq != 0,
                    total_write_bytes: feed.total_write_bytes,
                    total_read_bytes: feed.total_read_bytes,
                },
            );
            i = i + 1;
        }
        stats
    }
}

fn count_at(fields: &Vec<Vec<char>>, floats: &Vec<Option<u64>>, col: usize) -> (bytes: u64)
    ensures
        bytes == count_in(text::views(fields@), floats@, col as int),
{
    if col >= fields.len() {
        return 0;
    }
    let float: Option<u64> = if col < floats.len() {
        floats[col]
    } else {
        None
    };
    proof {
        assert(text::views(fields@)[col as int] == fields@[col as int]@);
    }
    match parse_bytes_in(&fields[col], float) {
        Some(bytes) => bytes,
        None => 0,
    }
}

/// The names of the columns of the sample log.
pub open spec fn logged_columns() -> Seq<Seq<char>> {
    seq![
        "ts_ms"@,
        "device"@,
        "socket"@,
        "stack"@,
        "part"@,
        "ib_write_bytes"@,
        "ib_read_bytes"@,
    ]
}

/// What stands in the columns of the sample log for one sample.
pub open spec fn logged(target: PcieTarget, ts_ms: u64, write_bytes: u64, read_bytes: u64) -> Seq<
    Seq<char>,
> {
    seq![
        text::decimal(ts_ms as nat),
        target.device@,
        text::decimal(target.socket as nat),
        text::decimal(target.stack as nat),
        text::decimal(target.part as nat),
        text::decimal(write_bytes as nat),
        text::decimal(read_bytes as nat),
    ]
}

/// The columns of the sample log.
pub fn log_header() -> (header: Vec<String>)
    ensures
        text::string_views(header@) == seq![
            "ts_ms"@,
            "device"@,
            "socket"@,
            "stack"@,
            "part"@,
            "ib_write_bytes"@,
            "ib_read_bytes"@,
        ],
        text::string_views(header@) == logged_columns(),
{
    let mut header: Vec<String> = Vec::new();
    header.push(text::copied("ts_ms"));
    header.push(text::copied("device"));
    header.push(text::copied("socket"));
    header.push(text::copied("stack"));
    header.push(text::copied("part"));
    header.push(text::copied("ib_write_bytes"));
    header.push(text::copied("ib_read_bytes"));
    proof {
        assert(text::string_views(header@) =~= seq![
            "ts_ms"@,
            "device"@,
            "socket"@,
            "stack"@,
            "part"@,
            "ib_write_bytes"@,
            "ib_read_bytes"@,
        ]);
    }
    header
}

/// One sample in the log, `ts_ms` milliseconds after the meter was started.
pub fn log_record(target: &PcieTarget, ts_ms: u64, write_bytes: u64, read_bytes: u64) -> (record:
    Vec<String>)
    ensures
        text::string_views(record@) == seq![
            text::decimal(ts_ms as nat),
            target.device@,
            text::decimal(target.socket as nat),
            text::decimal(target.stack as nat),
            text::decimal(target.part as nat),
            text::decimal(write_bytes as nat),
            text::decimal(read_bytes as nat),
        ],
        text::string_views(record@) == logged(*target, ts_ms, write_bytes, read_bytes),
{
    let mut record: Vec<String> = Vec::new();
    record.push(text::number(ts_ms));
    record.push(text::copied(target.device.as_str()));
    record.push(text::number(target.socket as u64));
    record.push(text::number(target.stack as u64));
    record.push(text::number(target.part as u64));
    record.push(text::number(write_bytes));
    record.push(text::number(read_bytes));
    proof {
        assert(text::string_views(record@) =~= seq![
            text::decimal(ts_ms as nat),
            target.device@,
            text::decimal(target.socket as nat),
            text::decimal(target.stack as nat),
            text::decimal(target.part as nat),
            text::decimal(write_bytes as nat),
            text::decimal(read_bytes as nat),
        ]);
    }
    record
}

/// A monitored port: its PCI address and what sysfs says of it.
#[derive(Debug)]
pub struct PortFacts {
    pub device: String,
    pub sysfs: Sysfs,
}

/// The places of the first `n` ports' root ports, leaving out those that cannot be located.
pub open spec fn places(ports: Seq<PortFacts>, n: nat) -> Seq<((u32, u32, u32), Seq<char>)>
    decreases n,
{
    if n == 0 {
        Seq::empty()
    } else {
        let before = places(ports, (n - 1) as nat);
        match topology::placed(ports[n - 1].sysfs) {
            Ok(place) => before.push((place, ports[n - 1].device@)),
            Err(_) => before,
        }
    }
}

/// The places that targets stand for.
pub open spec fn places_of(targets: Seq<PcieTarget>) -> Seq<((u32, u32, u32), Seq<char>)> {
    targets.map_values(|t: PcieTarget| ((t.socket, t.stack, t.part), t.device@))
}

/// One target per monitored port, derived from its PCI address. Ports whose root port cannot be
/// located are left out.
pub fn resolve_targets(ports: &Vec<PortFacts>) -> (targets: Vec<PcieTarget>)
    ensures
        places_of(targets@) == places(ports@, ports@.len()),
{
    let mut targets: Vec<PcieTarget> = Vec::new();
    let mut i: usize = 0;
    proof {
        assert(places_of(targets@) =~= Seq::empty());
    }
    while i < ports.len()
        invariant
            i <= ports@.len(),
            places_of(targets@) == places(ports@, i as nat),
        decreases ports@.len() - i,
    {
        if let Ok(target) = PcieTarget::derive(ports[i].device.as_str(), &ports[i].sysfs) {
            let ghost before = places_of(targets@);
            let ghost place = ((target.socket, target.stack, target.part), target.device@);
            targets.push(target);
            proof {
                assert(places_of(targets@) =~= before.push(place));
            }
        }
        i = i + 1;
    }
    targets
}

/// A row describes one root port: two targets that it matches are the same one.
pub proof fn law_a_row_describes_one_root_port(row: Seq<Seq<char>>, a: PcieTarget, b: PcieTarget)
    requires
        a.in_row(row),
        b.in_row(row),
    ensures
        (a.socket, a.stack, a.part) == (b.socket, b.stack, b.part),
{
    lemma_same_tail("Socket"@, text::decimal(a.socket as nat), text::decimal(b.socket as nat));
    lemma_same_tail("Part"@, text::decimal(a.part as nat), text::decimal(b.part as nat));
    text::law_decimal_is_unambiguous(a.socket as nat, b.socket as nat);
    text::law_decimal_is_unambiguous(a.part as nat, b.part as nat);
}

proof fn lemma_same_tail(head: Seq<char>, a: Seq<char>, b: Seq<char>)
    requires
        head + a == head + b,
    ensures
        a == b,
{
    assert((head + a).skip(head.len() as int) =~= a);
    assert((head + b).skip(head.len() as int) =~= b);
}

/// The columns that a header names are two different ones, and each says what it is taken for.
pub proof fn law_columns_follow_names(header: Seq<char>)
    requires
        columns_in(header) is Some,
    ensures
        ({
            let (write, read) = columns_in(header)->0;
            let fields = text::trimmed_fields(header);
            &&& write != read
            &&& write < fields.len() && read < fields.len()
            &&& text::contains_text(text::lowered(fields[write as int]), "write"@)
            &&& text::contains_text(text::lowered(fields[read as int]), "read"@)
        }),
{
    let fields = text::trimmed_fields(header);
    lemma_first_naming(fields, "write"@, None, 0);
    lemma_first_naming(fields, "read"@, first_naming(fields, "write"@, None, 0), 0);
}

proof fn lemma_first_naming(fields: Seq<Seq<char>>, needle: Seq<char>, except: Option<nat>, from: nat)
    ensures
        first_naming(fields, needle, except, from) matches Some(k) ==> k < fields.len() && except
            != Some(k) && text::contains_text(text::lowered(fields[k as int]), needle),
    decreases fields.len() - from,
{
    if from < fields.len() {
        lemma_first_naming(fields, needle, except, from + 1);
    }
}

/// A cell that holds a number reads as exactly that many bytes, whatever it would read as a
/// fraction, and so does one with a plus sign. An empty cell reads as none. Any other cell reads as
/// the fraction it holds, if it holds one.
pub proof fn law_a_number_reads_as_that_many_bytes(n: nat, cell: Seq<char>, float: Option<u64>)
    ensures
        n <= u64::MAX ==> bytes_in(text::decimal(n), float) == Some(n as u64),
        n <= u64::MAX ==> bytes_in(seq!['+'] + text::decimal(n), float) == Some(n as u64),
        n > u64::MAX ==> bytes_in(text::decimal(n), float) == float,
        bytes_in(Seq::empty(), float) == Some(0u64),
        cell.len() > 0 && text::unsigned_value(cell, 10, u64::MAX as nat) is None ==> bytes_in(
            cell,
            float,
        ) == float,
{
    text::law_decimal_reads_back(n);
    text::law_leading_zeros_do_not_count(text::decimal(n), 10, u64::MAX as nat);
}

/// The count in a column is what its cell says. A row without the column, and a cell that cannot be
/// read, count nothing.
pub proof fn law_a_count_is_what_its_cell_says(
    fields: Seq<Seq<char>>,
    floats: Seq<Option<u64>>,
    col: int,
    n: u64,
)
    requires
        col >= 0,
    ensures
        col < fields.len() && fields[col] == text::decimal(n as nat) ==> count_in(
            fields,
            floats,
            col,
        ) == n,
        col < fields.len() && fields[col].len() == 0 ==> count_in(fields, floats, col) == 0,
        col >= fields.len() ==> count_in(fields, floats, col) == 0,
        col < fields.len() && col < floats.len() && fields[col].len() > 0 && text::unsigned_value(
            fields[col],
            10,
            u64::MAX as nat,
        ) is None ==> count_in(fields, floats, col) == (match floats[col] {
            Some(bytes) => bytes,
            None => 0,
        }),
{
    law_a_number_reads_as_that_many_bytes(n as nat, Seq::empty(), None);
    if col < fields.len() {
        law_a_number_reads_as_that_many_bytes(
            n as nat,
            fields[col],
            if col < floats.len() {
                floats[col]
            } else {
                None
            },
        );
        if fields[col].len() == 0 {
            assert(fields[col] =~= Seq::empty());
        }
    }
}

/// A row that describes a target is its next sample: the written bytes are those in the write
/// column and the read bytes those in the read column, and each is added to its own total. A row
/// that describes another root port leaves the target as it was.
pub proof fn law_a_row_is_the_next_sample(
    state: PcieTargetState,
    fields: Seq<Seq<char>>,
    floats: Seq<Option<u64>>,
    write_col: int,
    read_col: int,
    written: u64,
    read: u64,
)
    requires
        0 <= write_col < fields.len(),
        0 <= read_col < fields.len(),
        fields[write_col] == text::decimal(written as nat),
        fields[read_col] == text::decimal(read as nat),
    ensures
        ({
            let feed = state.fed(fields, floats, write_col, read_col);
            &&& !state.target.in_row(fields) ==> feed == state.feed
            &&& state.target.in_row(fields) ==> {
                &&& feed.write_bytes == written
                &&& feed.read_bytes == read
                &&& feed.total_write_bytes == (state.feed.total_write_bytes + written)
                    % 0x1_0000_0000_0000_0000
                &&& feed.total_read_bytes == (state.feed.total_read_bytes + read)
                    % 0x1_0000_0000_0000_0000
                &&& feed.seq == (state.feed.seq + 1) % 0x1_0000_0000_0000_0000
            }
        }),
{
    law_a_count_is_what_its_cell_says(fields, floats, write_col, written);
    law_a_count_is_what_its_cell_says(fields, floats, read_col, read);
}

/// What a look reports of a target is what has arrived for it, each sample a pair of bytes read and
/// bytes written: the sums of either in 64 bits, whether anything has arrived at all, and the last
/// sample with its number if it is newer than the one shown last.
pub proof fn law_a_look_reports_what_has_arrived(
    state: PcieTargetState,
    samples: Seq<(u64, u64)>,
    displayed: u64,
    stats: PcieStats,
)
    requires
        samples.len() <= u64::MAX,
        displayed <= samples.len(),
        state.feed == Feed::zero().after_all(samples),
        state.shows(displayed, stats),
    ensures
        stats.label@ == state.label@,
        stats.total_read_bytes == meter::sum_of(samples, true) % 0x1_0000_0000_0000_0000,
        stats.total_write_bytes == meter::sum_of(samples, false) % 0x1_0000_0000_0000_0000,
        stats.started <==> samples.len() > 0,
        stats.sample is Some <==> displayed < samples.len(),
        stats.sample matches Some(sample) ==> {
            &&& sample.seq == samples.len()
            &&& sample.read_bytes == samples.last().0
            &&& sample.write_bytes == samples.last().1
        },
{
    meter::law_totals_are_sums(samples);
    meter::law_a_look_shows_the_latest(samples, displayed);
}

/// A row is a sample of exactly the targets that it describes: one for each, in their order, and
/// all with the row's counts.
pub proof fn law_a_row_arrives_at_the_targets_it_describes(
    targets: Seq<PcieTargetState>,
    fields: Seq<Seq<char>>,
    written: u64,
    read: u64,
    n: nat,
)
    requires
        n <= targets.len(),
        n <= usize::MAX,
    ensures
        ({
            let found = arrivals(targets, fields, written, read, n);
            &&& forall|j: int|
                0 <= j < found.len() ==> {
                    &&& (#[trigger] found[j]).target < n
                    &&& targets[found[j].target as int].target.in_row(fields)
                    &&& found[j].write_bytes == written
                    &&& found[j].read_bytes == read
                }
            &&& forall|i: int, j: int|
                0 <= i < j < found.len() ==> (#[trigger] found[i]).target < (
                #[trigger] found[j]).target
            &&& forall|i: int|
                0 <= i < n && (#[trigger] targets[i]).target.in_row(fields) ==> exists|j: int|
                    0 <= j < found.len() && (#[trigger] found[j]).target == i
        }),
    decreases n,
{
    if n > 0 {
        let m = (n - 1) as nat;
        law_a_row_arrives_at_the_targets_it_describes(targets, fields, written, read, m);
        let before = arrivals(targets, fields, written, read, m);
        let found = arrivals(targets, fields, written, read, n);
        assert forall|i: int|
            0 <= i < n && (#[trigger] targets[i]).target.in_row(fields) implies exists|j: int|
            0 <= j < found.len() && (#[trigger] found[j]).target == i by {
            if i < m {
                let j = choose|j: int|
                    0 <= j < before.len() && (#[trigger] before[j]).target == i;
                assert(found[j] == before[j]);
            } else {
                assert(found[before.len() as int].target == i);
            }
        }
    }
}

/// A row names its root port by the number after `Socket`, by the number after the first word
/// `stack` in any case, and by the number after `Part` at the start: it describes that root port
/// and no other.
pub proof fn law_a_row_describes_the_root_port_it_names(
    fields: Seq<Seq<char>>,
    stack_words: Seq<Seq<char>>,
    at: int,
    part_words: Seq<Seq<char>>,
    socket: u32,
    stack: u32,
    part: u32,
    other: PcieTarget,
)
    requires
        fields.len() >= 5,
        fields[0] == "Socket"@ + text::decimal(socket as nat),
        text::words(fields[1]) == stack_words,
        0 <= at,
        at + 1 < stack_words.len(),
        text::lowered(stack_words[at]) == "stack"@,
        forall|i: int| 0 <= i < at ==> text::lowered(#[trigger] stack_words[i]) != "stack"@,
        stack_words[at + 1] == text::decimal(stack as nat),
        text::words(fields[2]) == part_words,
        part_words.len() > 0,
        part_words[0] == "Part"@ + text::decimal(part as nat),
    ensures
        other.in_row(fields) <==> (other.socket, other.stack, other.part) == (socket, stack, part),
{
    lemma_stack_named(stack_words, 0, at);
    text::law_decimal_reads_back(stack as nat);
    if other.in_row(fields) {
        lemma_same_tail("Socket"@, text::decimal(other.socket as nat), text::decimal(socket as nat));
        lemma_same_tail("Part"@, text::decimal(other.part as nat), text::decimal(part as nat));
        text::law_decimal_is_unambiguous(other.socket as nat, socket as nat);
        text::law_decimal_is_unambiguous(other.part as nat, part as nat);
    }
}

proof fn lemma_stack_named(tokens: Seq<Seq<char>>, from: nat, at: int)
    requires
        from <= at,
        at + 1 < tokens.len(),
        text::lowered(tokens[at]) == "stack"@,
        forall|i: int| 0 <= i < at ==> text::lowered(#[trigger] tokens[i]) != "stack"@,
    ensures
        stack_named(tokens, from) == text::unsigned_value(tokens[at + 1], 10, u32::MAX as nat),
    decreases at - from,
{
    if from < at {
        assert(text::lowered(tokens[from as int]) != "stack"@);
        lemma_stack_named(tokens, from + 1, at);
    }
}

/// The write column is the first whose name says so, in any case, and the read column the first
/// other one that does. There are columns exactly if both can be found.
pub proof fn law_the_first_named_columns_are_taken(header: Seq<char>, write: int, read: int)
    requires
        ({
            let fields = text::trimmed_fields(header);
            &&& 0 <= write < fields.len()
            &&& 0 <= read < fields.len()
            &&& write != read
            &&& text::contains_text(text::lowered(fields[write]), "write"@)
            &&& text::contains_text(text::lowered(fields[read]), "read"@)
            &&& forall|k: int|
                0 <= k < write ==> !text::contains_text(
                    text::lowered(#[trigger] fields[k]),
                    "write"@,
                )
            &&& forall|k: int|
                0 <= k < read && k != write ==> !text::contains_text(
                    text::lowered(#[trigger] fields[k]),
                    "read"@,
                )
        }),
    ensures
        columns_in(header) == Some((write as nat, read as nat)),
{
    let fields = text::trimmed_fields(header);
    lemma_first_is(fields, "write"@, None, 0, write);
    lemma_first_is(fields, "read"@, Some(write as nat), 0, read);
}

proof fn lemma_first_is(
    fields: Seq<Seq<char>>,
    needle: Seq<char>,
    except: Option<nat>,
    from: nat,
    at: int,
)
    requires
        from <= at < fields.len(),
        except != Some(at as nat),
        text::contains_text(text::lowered(fields[at]), needle),
        forall|k: int|
            0 <= k < at && except != Some(k as nat) ==> !text::contains_text(
                text::lowered(#[trigger] fields[k]),
                needle,
            ),
    ensures
        first_naming(fields, needle, except, from) == Some(at as nat),
    decreases at - from,
{
    if from < at {
        if except != Some(from) {
            assert(!text::contains_text(text::lowered(fields[from as int]), needle));
        }
        lemma_first_is(fields, needle, except, from + 1, at);
    }
}

/// The root ports followed are those of the ports that can be located, in the order of the ports.
pub proof fn law_every_port_that_can_be_located_is_followed(ports: Seq<PortFacts>, n: nat)
    requires
        n <= ports.len(),
    ensures
        forall|i: int|
            #![trigger ports[i]]
            0 <= i < n ==> (topology::placed(ports[i].sysfs) matches Ok(place) ==> places(
                ports,
                n,
            ).contains((place, ports[i].device@))),
        forall|j: int|
            0 <= j < places(ports, n).len() ==> exists|i: int|
                0 <= i < n && topology::placed((#[trigger] ports[i]).sysfs) == Ok::<
                    (u32, u32, u32),
                    TopologyError,
                >((#[trigger] places(ports, n)[j]).0) && ports[i].device@ == places(ports, n)[j].1,
        places(ports, n).len() <= n,
        (forall|i: int| 0 <= i < n ==> topology::placed((#[trigger] ports[i]).sysfs) is Ok)
            ==> places(ports, n).len() == n,
    decreases n,
{
    if n > 0 {
        let m = (n - 1) as nat;
        law_every_port_that_can_be_located_is_followed(ports, m);
        let before = places(ports, m);
        let all = places(ports, n);
        assert forall|i: int|
            #![trigger ports[i]]
            0 <= i < n implies (topology::placed(ports[i].sysfs) matches Ok(place)
            ==> all.contains((place, ports[i].device@))) by {
            if let Ok(place) = topology::placed(ports[i].sysfs) {
                if i < m {
                    let k = choose|k: int|
                        0 <= k < before.len() && before[k] == (place, ports[i].device@);
                    assert(all[k] == before[k]);
                } else {
                    assert(all[before.len() as int] == (place, ports[i].device@));
                }
            }
        }
        assert forall|j: int| 0 <= j < all.len() implies exists|i: int|
            0 <= i < n && topology::placed((#[trigger] ports[i]).sysfs) == Ok::<
                (u32, u32, u32),
                TopologyError,
            >((#[trigger] all[j]).0) && ports[i].device@ == all[j].1 by {
            if j < before.len() {
                assert(all[j] == before[j]);
                let i = choose|i: int|
                    0 <= i < m && topology::placed((#[trigger] ports[i]).sysfs) == Ok::<
                        (u32, u32, u32),
                        TopologyError,
                    >(before[j].0) && ports[i].device@ == before[j].1;
                assert(ports[i].device@ == all[j].1);
            } else {
                assert(ports[m as int].device@ == all[j].1);
            }
        }
    }
}

/// The log has a column for each thing that it says of a sample: under each name stands what the
/// name says, and what was logged as a number reads back as that number.
pub proof fn law_the_log_says_under_each_name_what_it_names(
    target: PcieTarget,
    ts_ms: u64,
    write_bytes: u64,
    read_bytes: u64,
    i: int,
)
    requires
        0 <= i < logged_columns().len(),
    ensures
        ({
            let cell = logged(target, ts_ms, write_bytes, read_bytes)[i];
            let name = logged_columns()[i];
            &&& logged(target, ts_ms, write_bytes, read_bytes).len() == logged_columns().len()
            &&& name == "ts_ms"@ ==> text::unsigned_value(cell, 10, u64::MAX as nat) == Some(
                ts_ms as nat,
            )
            &&& name == "device"@ ==> cell == target.device@
            &&& name == "socket"@ ==> text::unsigned_value(cell, 10, u64::MAX as nat) == Some(
                target.socket as nat,
            )
            &&& name == "stack"@ ==> text::unsigned_value(cell, 10, u64::MAX as nat) == Some(
                target.stack as nat,
            )
            &&& name == "part"@ ==> text::unsigned_value(cell, 10, u64::MAX as nat) == Some(
                target.part as nat,
            )
            &&& name == "ib_write_bytes"@ ==> bytes_in(cell, None) == Some(write_bytes)
            &&& name == "ib_read_bytes"@ ==> bytes_in(cell, None) == Some(read_bytes)
        }),
{
    reveal_strlit("ts_ms");
    reveal_strlit("device");
    reveal_strlit("socket");
    reveal_strlit("stack");
    reveal_strlit("part");
    reveal_strlit("ib_write_bytes");
    reveal_strlit("ib_read_bytes");
    assert("ts_ms"@.len() == 5 && "stack"@.len() == 5 && "ts_ms"@[0] != "stack"@[0]);
    assert("device"@.len() == 6 && "socket"@.len() == 6 && "device"@[0] != "socket"@[0]);
    assert("part"@.len() == 4 && "ib_write_bytes"@.len() == 14 && "ib_read_bytes"@.len() == 13);
    assert(i == 0 || i == 1 || i == 2 || i == 3 || i == 4 || i == 5 || i == 6);
    text::law_decimal_reads_back(ts_ms as nat);
    text::law_decimal_reads_back(target.socket as nat);
    text::law_decimal_reads_back(target.stack as nat);
    text::law_decimal_reads_back(target.part as nat);
    law_a_number_reads_as_that_many_bytes(write_bytes as nat, Seq::empty(), None);
    law_a_number_reads_as_that_many_bytes(read_bytes as nat, Seq::empty(), None);
}

/// Labels tell root ports apart: those of one device differ unless socket, stack and part are the
/// same.
pub proof fn law_labels_tell_root_ports_apart(a: PcieTarget, b: PcieTarget)
    requires
        a.label_text() == b.label_text(),
        a.device@ == b.device@,
    ensures
        (a.socket, a.stack, a.part) == (b.socket, b.stack, b.part),
{
    reveal_strlit(" (Socket");
    reveal_strlit(" IIO Stack ");
    reveal_strlit(" Part");
    reveal_strlit(")");
    let head = a.device@ + " (Socket"@;
    let a3 = text::decimal(a.part as nat) + ")"@;
    let b3 = text::decimal(b.part as nat) + ")"@;
    let a2 = text::decimal(a.stack as nat) + (" Part"@ + a3);
    let b2 = text::decimal(b.stack as nat) + (" Part"@ + b3);
    let a1 = text::decimal(a.socket as nat) + (" IIO Stack "@ + a2);
    let b1 = text::decimal(b.socket as nat) + (" IIO Stack "@ + b2);
    assert(a.label_text() =~= head + a1);
    assert(b.label_text() =~= head + b1);
    lemma_same_tail(head, a1, b1);
    text::law_a_number_ends_where_its_digits_end(
        a.socket as nat,
        " IIO Stack "@ + a2,
        b.socket as nat,
        " IIO Stack "@ + b2,
    );
    lemma_same_tail(" IIO Stack "@, a2, b2);
    text::law_a_number_ends_where_its_digits_end(
        a.stack as nat,
        " Part"@ + a3,
        b.stack as nat,
        " Part"@ + b3,
    );
    lemma_same_tail(" Part"@, a3, b3);
    text::law_a_number_ends_where_its_digits_end(a.part as nat, ")"@, b.part as nat, ")"@);
}

/// A header that does not name both columns leaves those in use; one that does replaces them, and
/// reading it again changes nothing.
pub proof fn law_a_header_names_the_columns_or_leaves_them(
    before: (nat, nat),
    other: (nat, nat),
    header: Seq<char>,
)
    ensures
        columns_in(header) is None ==> columns_after(before, header) == before,
        columns_in(header) matches Some(columns) ==> columns_after(before, header) == columns,
        columns_in(header) is Some ==> columns_after(before, header) == columns_after(
            other,
            header,
        ),
        columns_after(columns_after(before, header), header) == columns_after(before, header),
{
}

/// The fields of a line are what stands between its commas, each without its margins, the line's own
/// aside.
pub proof fn law_a_lines_fields_stand_between_its_commas(
    before: Seq<char>,
    raw: Seq<Seq<char>>,
    after: Seq<char>,
    k: int,
)
    requires
        text::all_white(before),
        text::all_white(after),
        forall|j: int| 0 <= j < raw.len() ==> !(#[trigger] raw[j]).contains(','),
        0 <= k < raw.len(),
        ({
            let row = text::joined(raw, seq![',']);
            row.len() > 0 ==> !text::is_white_space(row[0]) && !text::is_white_space(row.last())
        }),
    ensures
        line_fields(before + text::joined(raw, seq![',']) + after).len() == raw.len(),
        line_fields(before + text::joined(raw, seq![',']) + after)[k] == text::trimmed(raw[k]),
{
    text::law_trimming_takes_off_the_margins(before, text::joined(raw, seq![',']), after);
    text::law_fields_stand_between_commas(raw, k);
}

} // verus!
