use vstd::prelude::*;

use crate::engine::shards::flatten;
use crate::rate::decoder_work::count_in;
use crate::rate::DecoderWork;

verus! {

// ======================================================================
// DecoderResult

/// Result of decoding. Contains the restored original shards;
/// [`DecoderResult::finish`] readies the work for a new round.
pub struct DecoderResult<'a> {
    work: &'a mut DecoderWork,
}

/// The bytes of original shard `index` as they stand in the store of `work`.
pub open spec fn original_bytes(work: DecoderWork, index: int) -> Seq<u8> {
    flatten(work.store().slot_of(work.original_base() + index)).subrange(0, work.bytes() as int)
}

/// Number of missing original shards of `work` from index `from` on.
pub open spec fn missing_from(work: DecoderWork, from: int) -> nat {
    count_in(work.bits(), work.original_base() as int, from, work.originals() as int, false)
}

impl<'a> DecoderResult<'a> {
    /// The work whose restored shards this result shows.
    pub closed spec fn work(&self) -> DecoderWork {
        *self.work
    }

    /// Wraps `work`, whose missing originals have been restored.
    pub fn new(work: &'a mut DecoderWork) -> (r: Self)
        ensures
            r.work() == *old(work),
    {
        DecoderResult { work }
    }

    /// Returns restored original shard with given `index`
    /// or `None` if given `index` doesn't correspond to
    /// a missing original shard.
    pub fn restored_original(&self, index: usize) -> (r: Option<&[u8]>)
        requires
            self.work().wf(),
        ensures
            r is Some <==> index < self.work().originals() && !self.work().has_original(
                index as int,
            ),
            r is Some ==> r->0@ == original_bytes(self.work(), index as int),
    {
        self.work.restored_original(index)
    }

    /// Returns iterator over all restored original shards
    /// and their indexes, ordered by indexes.
    pub fn restored_original_iter(&self) -> (r: RestoredOriginal<'_>)
        requires
            self.work().wf(),
        ensures
            r.wf(),
            r.work() == self.work(),
            r.position() == 0,
            r.remaining() == self.work().originals() - self.work().original_received(),
    {
        RestoredOriginal::new(self.work)
    }

    /// Ends the result: forgets the received shards so that the work
    /// accepts a new round, and hands the work back.
    pub fn finish(self) -> (r: &'a mut DecoderWork)
        ensures
            self.work().wf() ==> r.wf(),
            self.work().same_layout(r),
            r.store() == self.work().store(),
            r.original_received() == 0,
            r.recovery_received() == 0,
            r.bits().len() == self.work().bits().len(),
            forall|i: int| 0 <= i < r.bits().len() ==> !#[trigger] r.bits()[i],
    {
        let work = self.work;
        work.reset_received();
        work
    }
}

// ======================================================================
// RestoredOriginal

/// Iterator over restored original shards and their indexes.
pub struct RestoredOriginal<'a> {
    remaining: usize,
    next_index: usize,
    work: &'a DecoderWork,
}

impl<'a> RestoredOriginal<'a> {
    /// The work whose restored shards are visited.
    pub closed spec fn work(&self) -> DecoderWork {
        *self.work
    }

    /// Index from which the next restored shard is searched.
    pub closed spec fn position(&self) -> nat {
        self.next_index as nat
    }

    /// Number of restored shards not yet visited.
    pub closed spec fn remaining(&self) -> nat {
        self.remaining as nat
    }

    /// The work is well formed and `remaining` counts the missing originals
    /// from the position on.
    pub closed spec fn wf(&self) -> bool {
        &&& self.work.wf()
        &&& self.next_index <= self.work.originals()
        &&& self.remaining == missing_from(*self.work, self.next_index as int)
    }

    /// Starts at original index 0 of `work`.
    pub fn new(work: &'a DecoderWork) -> (r: Self)
        requires
            work.wf(),
        ensures
            r.wf(),
            r.work() == *work,
            r.position() == 0,
            r.remaining() == work.originals() - work.original_received(),
    {
        RestoredOriginal { remaining: work.missing_original_count(), next_index: 0, work }
    }

    /// The next missing original index with its restored shard, or `None`
    /// when none is left.
    pub fn next(&mut self) -> (r: Option<(usize, &'a [u8])>)
        requires
            old(self).wf(),
        ensures
            final(self).wf(),
            final(self).work() == old(self).work(),
            old(self).remaining() == 0 ==> r is None && *final(self) == *old(self),
            old(self).remaining() > 0 ==> {
                let i = (r->0).0 as int;
                let w = old(self).work();
                &&& r is Some
                &&& old(self).position() <= i < w.originals()
                &&& !w.has_original(i)
                &&& forall|j: int| old(self).position() <= j < i ==> w.has_original(j)
                &&& (r->0).1@ == original_bytes(w, i)
                &&& final(self).position() == i + 1
                &&& final(self).remaining() == old(self).remaining() - 1
            },
    {
        if self.remaining == 0 {
            return None;
        }
        let work: &'a DecoderWork = self.work;
        let mut index = self.next_index;
        while index < work.original_count()
            invariant
                self.work == work,
                old(self).work == work,
                work.wf(),
                self.next_index <= index <= work.originals(),
                self.remaining > 0,
                self.remaining == missing_from(*work, index as int),
                self.remaining == old(self).remaining,
                self.next_index == old(self).next_index,
                forall|j: int| self.next_index <= j < index ==> work.has_original(j),
            decreases work.originals() - index,
        {
            match work.restored_original(index) {
                Some(original) => {
                    self.next_index = index + 1;
                    self.remaining = self.remaining - 1;
                    return Some((index, original));
                },
                None => {},
            }
            index = index + 1;
        }
        None
    }

    /// Bounds on the number of shards left, both exact.
    pub fn size_hint(&self) -> (r: (usize, Option<usize>))
        ensures
            r.0 == self.remaining(),
            r.1 == Some(self.remaining() as usize),
    {
        (self.remaining, Some(self.remaining))
    }

    /// Number of shards left.
    pub fn len(&self) -> (r: usize)
        ensures
            r == self.remaining(),
    {
        self.remaining
    }
}

} // verus!
