//! What a meter keeps of the samples that arrive for one target.

use vstd::prelude::*;

verus! {

/// The latest sample and the totals so far. Additions wrap at 64 bits.
#[derive(Debug, Clone, Copy, PartialEq, Eq, Structural)]
pub struct Feed {
    /// Samples that have arrived.
    pub seq: u64,
    pub read_bytes: u64,
    pub write_bytes: u64,
    pub total_read_bytes: u64,
    pub total_write_bytes: u64,
}

/// Sum of the first or of the second numbers of each pair.
pub open spec fn sum_of(samples: Seq<(u64, u64)>, reads: bool) -> nat
    decreases samples.len(),
{
    if samples.len() == 0 {
        0
    } else {
        sum_of(samples.drop_last(), reads) + if reads {
            samples.last().0 as nat
        } else {
            samples.last().1 as nat
        }
    }
}

impl Feed {
    /// Nothing has arrived.
    pub open spec fn zero() -> Feed {
        Feed {
            seq: 0,
            read_bytes: 0,
            write_bytes: 0,
            total_read_bytes: 0,
            total_write_bytes: 0,
        }
    }

    /// The feed once a sample has arrived.
    pub open spec fn after(self, read_bytes: u64, write_bytes: u64) -> Feed {
        Feed {
            seq: self.seq.wrapping_add(1),
            read_bytes,
            write_bytes,
            total_read_bytes: self.total_read_bytes.wrapping_add(read_bytes),
            total_write_bytes: self.total_write_bytes.wrapping_add(write_bytes),
        }
    }

    /// The feed once several samples have arrived, each a pair of bytes read and bytes written.
    pub open spec fn after_all(self, samples: Seq<(u64, u64)>) -> Feed
        decreases samples.len(),
    {
        if samples.len() == 0 {
            self
        } else {
            self.after_all(samples.drop_last()).after(samples.last().0, samples.last().1)
        }
    }

    /// A sample has arrived since number `displayed` was shown.
    pub open spec fn fresh(self, displayed: u64) -> bool {
        self.seq != 0 && self.seq != displayed
    }

    /// The number of the sample that has been shown once a reader has looked.
    pub open spec fn shown(self, displayed: u64) -> u64 {
        if self.fresh(displayed) {
            self.seq
        } else {
            displayed
        }
    }

    /// A feed to which nothing has arrived.
    pub fn new() -> (feed: Feed)
        ensures
            feed == Feed::zero(),
    {
        Feed {
            seq: 0,
            read_bytes: 0,
            write_bytes: 0,
            total_read_bytes: 0,
            total_write_bytes: 0,
        }
    }

    /// Take in a sample.
    pub fn sample(&mut self, read_bytes: u64, write_bytes: u64)
        ensures
            *final(self) == old(self).after(read_bytes, write_bytes),
    {
        self.read_bytes = read_bytes;
        self.write_bytes = write_bytes;
        self.total_read_bytes = self.total_read_bytes.wrapping_add(read_bytes);
        self.total_write_bytes = self.total_write_bytes.wrapping_add(write_bytes);
        self.seq = self.seq.wrapping_add(1);
    }

    /// Whether a sample has arrived since number `displayed` was shown.
    pub fn is_fresh(&self, displayed: u64) -> (fresh: bool)
        ensures
            fresh == self.fresh(displayed),
    {
        self.seq != 0 && self.seq != displayed
    }
}

/// A sample is shown once: after a look nothing is fresh until the next sample, which then is. What
/// has been shown never runs ahead of what has arrived.
pub proof fn law_a_sample_is_shown_once(
    feed: Feed,
    displayed: u64,
    read_bytes: u64,
    write_bytes: u64,
)
    ensures
        !feed.fresh(feed.shown(displayed)),
        displayed <= feed.seq ==> feed.shown(displayed) <= feed.seq,
        displayed <= feed.seq < u64::MAX ==> feed.after(read_bytes, write_bytes).fresh(
            feed.shown(displayed),
        ),
{
}

/// The totals are the sums of everything that has arrived, in 64 bits, and the latest sample is the
/// last one; a feed has started exactly once a sample has arrived.
pub proof fn law_totals_are_sums(samples: Seq<(u64, u64)>)
    requires
        samples.len() <= u64::MAX,
    ensures
        ({
            let feed = Feed::zero().after_all(samples);
            &&& feed.seq == samples.len()
            &&& feed.seq != 0 <==> samples.len() > 0
            &&& feed.total_read_bytes == sum_of(samples, true) % 0x1_0000_0000_0000_0000
            &&& feed.total_write_bytes == sum_of(samples, false) % 0x1_0000_0000_0000_0000
            &&& samples.len() > 0 ==> (feed.read_bytes, feed.write_bytes) == samples.last()
        }),
    decreases samples.len(),
{
    if samples.len() > 0 {
        law_totals_are_sums(samples.drop_last());
    }
}

/// A look finds something new exactly if samples have arrived since the last one that was shown,
/// and what has been shown from then on is the last one.
pub proof fn law_a_look_shows_the_latest(samples: Seq<(u64, u64)>, displayed: u64)
    requires
        samples.len() <= u64::MAX,
        displayed <= samples.len(),
    ensures
        ({
            let feed = Feed::zero().after_all(samples);
            &&& feed.fresh(displayed) <==> displayed < samples.len()
            &&& feed.shown(displayed) == samples.len()
        }),
{
    law_totals_are_sums(samples);
}

} // verus!
