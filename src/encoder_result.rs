use vstd::prelude::*;

use crate::engine::shards::flatten;
use crate::rate::EncoderWork;

verus! {

// ======================================================================
// EncoderResult

/// Result of encoding. Contains the generated recovery shards;
/// [`EncoderResult::finish`] readies the work for a new round.
pub struct EncoderResult<'a> {
    work: &'a mut EncoderWork,
}

impl<'a> EncoderResult<'a> {
    /// The work whose recovery shards this result shows.
    pub closed spec fn work(&self) -> EncoderWork {
        *self.work
    }

    /// Wraps `work`, whose recovery shards have been computed.
    pub fn new(work: &'a mut EncoderWork) -> (r: Self)
        ensures
            r.work() == *old(work),
    {
        EncoderResult { work }
    }

    /// Returns recovery shard with given `index`
    /// or `None` if `index >= recovery_count`.
    pub fn recovery(&self, index: usize) -> (r: Option<&[u8]>)
        requires
            self.work().wf(),
        ensures
            index < self.work().recoveries() ==> r is Some && r->0@ == flatten(
                self.work().store().slot_of(index as int),
            ).subrange(0, self.work().bytes() as int),
            index >= self.work().recoveries() ==> r is None,
    {
        self.work.recovery(index)
    }

    /// Returns iterator over all recovery shards ordered by their indexes.
    pub fn recovery_iter(&self) -> (r: Recovery<'_>)
        requires
            self.work().wf(),
        ensures
            r.wf(),
            r.work() == self.work(),
            r.position() == 0,
    {
        Recovery::new(self.work)
    }

    /// Ends the result: forgets the received originals so that the work
    /// accepts a new round, and hands the work back.
    pub fn finish(self) -> (r: &'a mut EncoderWork)
        ensures
            self.work().wf() ==> r.wf(),
            self.work().same_counts(r),
            r.store() == self.work().store(),
            r.received() == 0,
    {
        let work = self.work;
        work.reset_received();
        work
    }
}


// ======================================================================
// Recovery

/// Iterator over generated recovery shards.
pub struct Recovery<'a> {
    ended: bool,
    next_index: usize,
    work: &'a EncoderWork,
}

impl<'a> Recovery<'a> {
    /// The work whose recovery shards are visited.
    pub closed spec fn work(&self) -> EncoderWork {
        *self.work
    }

    /// Index of the next recovery shard to visit.
    pub closed spec fn position(&self) -> nat {
        self.next_index as nat
    }

    /// The work is well formed and the position lies within its recovery
    /// shards, at their end once the iterator has ended.
    pub closed spec fn wf(&self) -> bool {
        &&& self.work.wf()
        &&& self.next_index <= self.work.recoveries()
        &&& self.ended ==> self.next_index == self.work.recoveries()
    }

    /// Number of recovery shards not yet visited.
    pub open spec fn remaining(&self) -> nat {
        (self.work().recoveries() - self.position()) as nat
    }

    /// Starts at recovery shard 0 of `work`.
    pub fn new(work: &'a EncoderWork) -> (r: Self)
        requires
            work.wf(),
        ensures
            r.wf(),
            r.work() == *work,
            r.position() == 0,
    {
        Recovery { ended: false, next_index: 0, work }
    }

    /// The next recovery shard, or `None` after the last one.
    pub fn next(&mut self) -> (r: Option<&'a [u8]>)
        requires
            old(self).wf(),
        ensures
            final(self).wf(),
            final(self).work() == old(self).work(),
            old(self).position() < old(self).work().recoveries() ==> {
                &&& r is Some
                &&& r->0@ == flatten(
                    old(self).work().store().slot_of(old(self).position() as int),
                ).subrange(0, old(self).work().bytes() as int)
                &&& final(self).position() == old(self).position() + 1
            },
            old(self).position() >= old(self).work().recoveries() ==> {
                &&& r is None
                &&& final(self).position() == old(self).position()
            },
    {
        if self.ended {
            None
        } else {
            let work: &'a EncoderWork = self.work;
            match work.recovery(self.next_index) {
                Some(next) => {
                    self.next_index = self.next_index + 1;
                    Some(next)
                },
                None => {
                    self.ended = true;
                    None
                },
            }
        }
    }

    /// Bounds on the number of shards left, both exact.
    pub fn size_hint(&self) -> (r: (usize, Option<usize>))
        requires
            self.wf(),
        ensures
            r.0 == self.remaining(),
            r.1 == Some(self.remaining() as usize),
    {
        let remaining = self.work.recovery_count() - self.next_index;
        (remaining, Some(remaining))
    }

    /// Number of shards left.
    pub fn len(&self) -> (r: usize)
        requires
            self.wf(),
        ensures
            r == self.remaining(),
    {
        self.work.recovery_count() - self.next_index
    }
}

} // verus!
