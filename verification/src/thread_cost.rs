//! What a thread has cost: its CPU time and its involuntary context switches.

use crate::text;
use cpu_time::ThreadTime;
use vstd::prelude::*;

verus! {

/// A reading of the calling thread's CPU clock, `cpu_time::ThreadTime`. Nothing is known of what is
/// inside.
#[verifier::external_type_specification]
#[verifier::external_body]
pub struct ExThreadTime(cpu_time::ThreadTime);

/// Reads the calling thread's CPU clock, as `ThreadTime::now` documents. What it reads rests on the
/// machine, so nothing is claimed of it. It panics where the kernel has no such clock.
pub assume_specification[ ThreadTime::now ]() -> (now: ThreadTime);

/// Nanoseconds of CPU time that the calling thread has used since `start`: `ThreadTime::elapsed`,
/// in 64 bits. What it reads rests on the machine, so nothing is claimed of it. The clock of a
/// thread does not go back, and `ThreadTime` cannot leave its thread, so the subtraction in
/// `elapsed` does not panic; like `ThreadTime::now` it panics where the kernel has no such clock.
#[verifier::external_body]
pub(crate) fn cpu_ns_since(start: &ThreadTime) -> (ns: u64) {
    start.elapsed().as_nanos() as u64
}

/// The value of the first line from `from` on whose key is `nonvoluntary_ctxt_switches`; zero if
/// there is none or it is not a number.
pub open spec fn switches_from(lines: Seq<Seq<char>>, from: nat) -> u64
    decreases lines.len() - from,
{
    if from >= lines.len() {
        0
    } else {
        match text::split_first(lines[from as int], ':') {
            Some((key, value)) => if key == "nonvoluntary_ctxt_switches"@ {
                match text::unsigned_value(text::trimmed(value), 10, u64::MAX as nat) {
                    Some(n) => n as u64,
                    None => 0,
                }
            } else {
                switches_from(lines, from + 1)
            },
            None => switches_from(lines, from + 1),
        }
    }
}

/// The involuntary context switches that a thread's status file reports; zero if it is unreadable.
pub open spec fn switches_in(status: Option<Seq<char>>) -> u64 {
    match status {
        Some(s) => switches_from(text::split_at_char(s, '\n'), 0),
        None => 0,
    }
}

/// The text that a status file holds, if it is readable.
pub open spec fn status_text(status: Option<&str>) -> Option<Seq<char>> {
    match status {
        Some(s) => Some(s@),
        None => None,
    }
}

/// Involuntary context switches, from what a thread's status file holds. Zero if it is unreadable:
/// a diagnostic should not take the budget down with it.
pub fn read_nonvoluntary_ctxt_switches(status: Option<&str>) -> (switches: u64)
    ensures
        switches == switches_in(status_text(status)),
{
    let file = match status {
        Some(file) => file,
        None => {
            return 0;
        },
    };
    let lines = text::split(&text::chars_of(file), '\n');
    let ghost all = text::split_at_char(file@, '\n');
    let wanted = text::chars_of("nonvoluntary_ctxt_switches");
    let mut k: usize = 0;
    while k < lines.len()
        invariant
            k <= lines@.len(),
            text::views(lines@) == all,
            switches_in(status_text(status)) == switches_from(all, 0),
            wanted@ == "nonvoluntary_ctxt_switches"@,
            switches_from(all, 0) == switches_from(all, k as nat),
        decreases lines@.len() - k,
    {
        proof {
            assert(all[k as int] == lines@[k as int]@);
        }
        if let Some((key, value)) = text::split_once(&lines[k], ':') {
            if text::same_text(&key, &wanted) {
                return match text::parse_u64(&text::trim(&value)) {
                    Some(n) => n,
                    None => 0,
                };
            }
        }
        k = k + 1;
    }
    0
}

/// The switches are the number on the first line that begins with the key and a colon, white space
/// around the number or not.
pub proof fn law_switches_stand_after_their_key(
    lines: Seq<Seq<char>>,
    at: int,
    before: Seq<char>,
    n: u64,
    after: Seq<char>,
)
    requires
        0 <= at < lines.len(),
        text::all_white(before),
        text::all_white(after),
        lines[at] == "nonvoluntary_ctxt_switches"@ + seq![':'] + (before + text::decimal(n as nat)
            + after),
        forall|k: int|
            0 <= k < at ==> (text::split_first(#[trigger] lines[k], ':') matches Some((key, _))
                ==> key != "nonvoluntary_ctxt_switches"@),
        forall|k: int| 0 <= k < lines.len() ==> !(#[trigger] lines[k]).contains('\n'),
    ensures
        switches_in(Some(text::joined(lines, seq!['\n']))) == n,
{
    let key = "nonvoluntary_ctxt_switches"@;
    let value = before + text::decimal(n as nat) + after;
    reveal_strlit("nonvoluntary_ctxt_switches");
    assert(!key.contains(':'));
    text::law_halves_come_back(key, value, ':');
    text::law_numbers_have_no_margins(before, n as nat, after);
    text::law_decimal_reads_back(n as nat);
    text::law_splitting_undoes_joining(lines, '\n');
    lemma_switches_from(lines, 0, at);
}

proof fn lemma_switches_from(lines: Seq<Seq<char>>, from: nat, at: int)
    requires
        from <= at < lines.len(),
        forall|k: int|
            0 <= k < at ==> (text::split_first(#[trigger] lines[k], ':') matches Some((key, _))
                ==> key != "nonvoluntary_ctxt_switches"@),
    ensures
        switches_from(lines, from) == switches_from(lines, at as nat),
    decreases at - from,
{
    if from < at {
        assert(text::split_first(lines[from as int], ':') matches Some((key, _)) ==> key
            != "nonvoluntary_ctxt_switches"@);
        lemma_switches_from(lines, from + 1, at);
    }
}

/// Where no line has the key, and where there is no file, there are no switches.
pub proof fn law_without_the_key_there_are_no_switches(lines: Seq<Seq<char>>, from: nat)
    requires
        forall|k: int|
            0 <= k < lines.len() ==> (text::split_first(#[trigger] lines[k], ':') matches Some(
                (key, _),
            ) ==> key != "nonvoluntary_ctxt_switches"@),
    ensures
        switches_from(lines, from) == 0,
        switches_in(None) == 0,
    decreases lines.len() - from,
{
    if from < lines.len() {
        assert(text::split_first(lines[from as int], ':') matches Some((key, _)) ==> key
            != "nonvoluntary_ctxt_switches"@);
        law_without_the_key_there_are_no_switches(lines, from + 1);
    }
}

} // verus!
