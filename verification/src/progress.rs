//! Progress aggregator: the bytes of a transfer that the remote service has
//! acknowledged.

use vstd::prelude::*;

verus! {

/// A counter of transferred bytes that only grows, up to the size of the
/// transfer, and a mark that the transfer is over.
#[derive(Clone, Copy, Debug, PartialEq, Eq, Structural)]
pub struct Progress {
    position: u64,
    total: u64,
    finished: bool,
}

impl Progress {
    /// Bytes acknowledged so far.
    pub closed spec fn position_of(&self) -> int {
        self.position as int
    }

    /// Bytes of the whole transfer.
    pub closed spec fn total_of(&self) -> int {
        self.total as int
    }

    /// Whether the transfer was marked as over.
    pub closed spec fn finished_of(&self) -> bool {
        self.finished
    }

    /// The counter stays within the size of the transfer.
    pub open spec fn wf(&self) -> bool {
        0 <= self.position_of() <= self.total_of() <= u64::MAX
    }

    /// A counter at zero for a transfer of `total` bytes.
    pub fn new(total: u64) -> (p: Progress)
        ensures
            p.wf(),
            p.position_of() == 0,
            p.total_of() == total,
            !p.finished_of(),
    {
        Progress { position: 0, total, finished: false }
    }

    /// Counts `bytes` more as acknowledged.
    pub fn inc(&mut self, bytes: u64)
        requires
            old(self).wf(),
            old(self).position_of() + bytes <= old(self).total_of(),
        ensures
            final(self).wf(),
            final(self).position_of() == old(self).position_of() + bytes,
            final(self).total_of() == old(self).total_of(),
            final(self).finished_of() == old(self).finished_of(),
    {
        self.position = self.position + bytes;
    }

    /// Marks the transfer as over; the counter stays where it is.
    pub fn finish(&mut self)
        ensures
            final(self).finished_of(),
            final(self).position_of() == old(self).position_of(),
            final(self).total_of() == old(self).total_of(),
    {
        self.finished = true;
    }

    /// Bytes acknowledged so far.
    pub fn position(&self) -> (n: u64)
        ensures
            n == self.position_of(),
    {
        self.position
    }

    /// Bytes of the whole transfer.
    pub fn total(&self) -> (n: u64)
        ensures
            n == self.total_of(),
    {
        self.total
    }

    /// Whether the transfer was marked as over.
    pub fn is_finished(&self) -> (done: bool)
        ensures
            done == self.finished_of(),
    {
        self.finished
    }

    /// Bytes that `inc` can still take.
    pub fn remaining(&self) -> (n: u64)
        requires
            self.wf(),
        ensures
            n == self.total_of() - self.position_of(),
    {
        self.total - self.position
    }
}

} // verus!
