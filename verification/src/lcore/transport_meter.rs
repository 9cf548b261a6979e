//! Per-core on-wire TCP and UDP byte accounting.
//!
//! Each worker thread adds to counters of its own; a monitor sums them up about once a second to
//! derive throughput.

use vstd::prelude::*;

verus! {

/// One worker's counters.
#[derive(Debug, Clone, Copy, PartialEq, Eq, Structural)]
pub struct CoreCounters {
    pub tcp: u64,
    pub udp: u64,
}

impl CoreCounters {
    /// The counters once `len` TCP bytes have been added.
    pub open spec fn plus_tcp(self, len: nat) -> CoreCounters {
        CoreCounters { tcp: (self.tcp + len) as u64, ..self }
    }

    /// The counters once `len` UDP bytes have been added.
    pub open spec fn plus_udp(self, len: nat) -> CoreCounters {
        CoreCounters { udp: (self.udp + len) as u64, ..self }
    }

    /// Nothing counted yet.
    pub fn new() -> (counters: CoreCounters)
        ensures
            counters == (CoreCounters { tcp: 0, udp: 0 }),
    {
        CoreCounters { tcp: 0, udp: 0 }
    }
}

/// TCP bytes over every core.
pub open spec fn tcp_of(cores: Seq<CoreCounters>) -> nat
    decreases cores.len(),
{
    if cores.len() == 0 {
        0
    } else {
        tcp_of(cores.drop_last()) + cores.last().tcp as nat
    }
}

/// UDP bytes over every core.
pub open spec fn udp_of(cores: Seq<CoreCounters>) -> nat
    decreases cores.len(),
{
    if cores.len() == 0 {
        0
    } else {
        udp_of(cores.drop_last()) + cores.last().udp as nat
    }
}

/// Add `len` bytes to this core's TCP counter.
pub fn add_tcp(counters: &mut CoreCounters, len: usize)
    requires
        old(counters).tcp + len <= u64::MAX,
    ensures
        *final(counters) == (CoreCounters {
            tcp: (old(counters).tcp + len) as u64,
            udp: old(counters).udp,
        }),
        *final(counters) == old(counters).plus_tcp(len as nat),
{
    counters.tcp = counters.tcp + len as u64;
}

/// Add `len` bytes to this core's UDP counter.
pub fn add_udp(counters: &mut CoreCounters, len: usize)
    requires
        old(counters).udp + len <= u64::MAX,
    ensures
        *final(counters) == (CoreCounters {
            tcp: old(counters).tcp,
            udp: (old(counters).udp + len) as u64,
        }),
        *final(counters) == old(counters).plus_udp(len as nat),
{
    counters.udp = counters.udp + len as u64;
}

/// TCP and UDP bytes over every core.
pub fn totals(cores: &Vec<CoreCounters>) -> (bytes: (u64, u64))
    requires
        tcp_of(cores@) <= u64::MAX,
        udp_of(cores@) <= u64::MAX,
    ensures
        bytes.0 == tcp_of(cores@),
        bytes.1 == udp_of(cores@),
{
    let mut tcp: u64 = 0;
    let mut udp: u64 = 0;
    let mut i: usize = 0;
    while i < cores.len()
        invariant
            i <= cores@.len(),
            tcp == tcp_of(cores@.take(i as int)),
            udp == udp_of(cores@.take(i as int)),
            tcp_of(cores@) <= u64::MAX,
            udp_of(cores@) <= u64::MAX,
        decreases cores@.len() - i,
    {
        proof {
            assert(cores@.take(i + 1).drop_last() =~= cores@.take(i as int));
            lemma_parts_are_at_most_the_whole(cores@, i + 1);
        }
        tcp = tcp + cores[i].tcp;
        udp = udp + cores[i].udp;
        i = i + 1;
    }
    proof {
        assert(cores@.take(i as int) =~= cores@);
    }
    (tcp, udp)
}

proof fn lemma_parts_are_at_most_the_whole(cores: Seq<CoreCounters>, i: int)
    requires
        0 <= i <= cores.len(),
    ensures
        tcp_of(cores.take(i)) <= tcp_of(cores),
        udp_of(cores.take(i)) <= udp_of(cores),
    decreases cores.len() - i,
{
    if i < cores.len() {
        lemma_parts_are_at_most_the_whole(cores, i + 1);
        assert(cores.take(i + 1).drop_last() =~= cores.take(i));
    } else {
        assert(cores.take(i) =~= cores);
    }
}

/// Whether the totals fit in 64 bits.
pub fn totals_fit(cores: &Vec<CoreCounters>) -> (fit: bool)
    ensures
        fit == (tcp_of(cores@) <= u64::MAX && udp_of(cores@) <= u64::MAX),
{
    let mut tcp: u128 = 0;
    let mut udp: u128 = 0;
    let mut i: usize = 0;
    let count: usize = cores.len();
    while i < count
        invariant
            i <= count == cores@.len(),
            tcp == tcp_of(cores@.take(i as int)),
            udp == udp_of(cores@.take(i as int)),
            tcp <= i * 0xffff_ffff_ffff_ffff,
            udp <= i * 0xffff_ffff_ffff_ffff,
        decreases count - i,
    {
        proof {
            assert(cores@.take(i + 1).drop_last() =~= cores@.take(i as int));
        }
        tcp = tcp + cores[i].tcp as u128;
        udp = udp + cores[i].udp as u128;
        i = i + 1;
    }
    proof {
        assert(cores@.take(i as int) =~= cores@);
    }
    tcp <= 0xffff_ffff_ffff_ffff && udp <= 0xffff_ffff_ffff_ffff
}

/// What a core adds shows up in the totals once, whichever core it is, and the other protocol's
/// total stays as it was.
pub proof fn law_totals_rise_by_what_is_added(cores: Seq<CoreCounters>, i: int, len: u64)
    requires
        0 <= i < cores.len(),
    ensures
        cores[i].tcp + len <= u64::MAX ==> {
            let after = cores.update(
                i,
                CoreCounters { tcp: (cores[i].tcp + len) as u64, udp: cores[i].udp },
            );
            tcp_of(after) == tcp_of(cores) + len && udp_of(after) == udp_of(cores)
        },
        cores[i].udp + len <= u64::MAX ==> {
            let after = cores.update(
                i,
                CoreCounters { tcp: cores[i].tcp, udp: (cores[i].udp + len) as u64 },
            );
            udp_of(after) == udp_of(cores) + len && tcp_of(after) == tcp_of(cores)
        },
{
    let more_tcp = CoreCounters { tcp: (cores[i].tcp + len) as u64, udp: cores[i].udp };
    let more_udp = CoreCounters { tcp: cores[i].tcp, udp: (cores[i].udp + len) as u64 };
    lemma_update(cores, i, more_tcp);
    lemma_update(cores, i, more_udp);
}

proof fn lemma_update(cores: Seq<CoreCounters>, i: int, c: CoreCounters)
    requires
        0 <= i < cores.len(),
    ensures
        tcp_of(cores.update(i, c)) == tcp_of(cores) - cores[i].tcp + c.tcp,
        udp_of(cores.update(i, c)) == udp_of(cores) - cores[i].udp + c.udp,
    decreases cores.len(),
{
    let after = cores.update(i, c);
    if i == cores.len() - 1 {
        assert(after.drop_last() =~= cores.drop_last());
    } else {
        lemma_update(cores.drop_last(), i, c);
        assert(after.drop_last() =~= cores.drop_last().update(i, c));
    }
}

/// One step of a core: bytes of TCP, or of UDP.
pub open spec fn stepped(c: CoreCounters, tcp: bool, len: nat) -> CoreCounters {
    if tcp {
        c.plus_tcp(len)
    } else {
        c.plus_udp(len)
    }
}

/// Whatever a core adds raises the total of that protocol by as much, and leaves the other total as
/// it was, whichever core it is.
pub proof fn law_what_a_core_adds_raises_its_total(
    cores: Seq<CoreCounters>,
    i: int,
    tcp: bool,
    len: nat,
)
    requires
        0 <= i < cores.len(),
        tcp ==> cores[i].tcp + len <= u64::MAX,
        !tcp ==> cores[i].udp + len <= u64::MAX,
    ensures
        ({
            let after = cores.update(i, stepped(cores[i], tcp, len));
            &&& tcp_of(after) == tcp_of(cores) + if tcp {
                len
            } else {
                0
            }
            &&& udp_of(after) == udp_of(cores) + if tcp {
                0
            } else {
                len
            }
        }),
{
    lemma_update(cores, i, stepped(cores[i], tcp, len));
}

/// The totals are the sums over the cores, one core after the other.
pub proof fn law_totals_are_sums_over_the_cores(cores: Seq<CoreCounters>)
    ensures
        tcp_of(cores) == cores.fold_left(0int, |sum: int, c: CoreCounters| sum + c.tcp),
        udp_of(cores) == cores.fold_left(0int, |sum: int, c: CoreCounters| sum + c.udp),
    decreases cores.len(),
{
    if cores.len() > 0 {
        law_totals_are_sums_over_the_cores(cores.drop_last());
    }
}

} // verus!
