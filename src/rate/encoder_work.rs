use vstd::prelude::*;

use crate::engine::shards::{chunks_for, flatten, packed, Shards, ShardsRefMut};
use crate::Error;

verus! {

/// Working space for an encoder: the shard store, the expected counts and
/// how many original shards have been received.
pub struct EncoderWork {
    original_count: usize,
    recovery_count: usize,
    shard_bytes: usize,
    original_received_count: usize,
    shards: Shards,
}

/// Chunk count for shards of `shard_bytes` bytes, rounded up.
pub fn chunk_count(shard_bytes: usize) -> (r: usize)
    ensures
        r == chunks_for(shard_bytes as int),
        shard_bytes <= r * 64,
{
    if shard_bytes % 64 == 0 {
        shard_bytes / 64
    } else {
        shard_bytes / 64 + 1
    }
}

impl EncoderWork {
    /// Number of original shards expected.
    pub closed spec fn originals(&self) -> nat {
        self.original_count as nat
    }

    /// Number of recovery shards produced.
    pub closed spec fn recoveries(&self) -> nat {
        self.recovery_count as nat
    }

    /// Length of each shard in bytes.
    pub closed spec fn bytes(&self) -> nat {
        self.shard_bytes as nat
    }

    /// Number of original shards received so far.
    pub closed spec fn received(&self) -> nat {
        self.original_received_count as nat
    }

    /// The shard store.
    pub closed spec fn store(&self) -> Shards {
        self.shards
    }

    /// The store has room for every original and recovery shard, each
    /// shard fills its chunks, and no more originals were received than
    /// expected.
    pub open spec fn wf(&self) -> bool {
        &&& self.store().wf()
        &&& self.store().len64() == chunks_for(self.bytes() as int)
        &&& self.bytes() % 2 == 0
        &&& self.received() <= self.originals()
        &&& self.originals() <= self.store().count()
        &&& self.recoveries() <= self.store().count()
    }

    /// `other` expects the same shard counts and shard size as this work.
    pub open spec fn same_counts(&self, other: &EncoderWork) -> bool {
        &&& other.originals() == self.originals()
        &&& other.recoveries() == self.recoveries()
        &&& other.bytes() == self.bytes()
    }

    /// Creates new [`EncoderWork`] which initially
    /// has no working space allocated.
    pub fn new() -> (r: Self)
        ensures
            r.wf(),
            r.originals() == 0,
            r.recoveries() == 0,
            r.bytes() == 0,
            r.received() == 0,
            r.store().count() == 0,
    {
        EncoderWork {
            original_count: 0,
            recovery_count: 0,
            shard_bytes: 0,
            original_received_count: 0,
            shards: Shards::new(),
        }
    }

    /// Stores the next original shard, at the index that follows those
    /// received before.
    pub fn add_original_shard(&mut self, original_shard: &[u8]) -> (r: Result<(), Error>)
        requires
            old(self).wf(),
        ensures
            final(self).wf(),
            old(self).received() == old(self).originals() ==> r == Err::<(), Error>(
                Error::TooManyOriginalShards { original_count: old(self).originals() as usize },
            ) && *final(self) == *old(self),
            old(self).received() < old(self).originals() && original_shard@.len() != old(
                self,
            ).bytes() ==> r == Err::<(), Error>(
                Error::DifferentShardSize {
                    shard_bytes: old(self).bytes() as usize,
                    got: original_shard@.len() as usize,
                },
            ) && *final(self) == *old(self),
            old(self).received() < old(self).originals() && original_shard@.len() == old(
                self,
            ).bytes() ==> {
                &&& r is Ok
                &&& old(self).same_counts(final(self))
                &&& final(self).received() == old(self).received() + 1
                &&& old(self).store().inserted_to(
                    final(self).store(),
                    old(self).received() as int,
                    original_shard@,
                )
            },
    {
        if self.original_received_count == self.original_count {
            Err(Error::TooManyOriginalShards { original_count: self.original_count })
        } else if original_shard.len() != self.shard_bytes {
            Err(Error::DifferentShardSize { shard_bytes: self.shard_bytes, got: original_shard.len() })
        } else {
            self.shards.insert(self.original_received_count, original_shard);
            self.original_received_count = self.original_received_count + 1;
            Ok(())
        }
    }

    /// Hands the store to the transform once every original shard is in.
    pub fn encode_begin(&mut self) -> (r: Result<(ShardsRefMut<'_>, usize, usize), Error>)
        requires
            old(self).wf(),
        ensures
            old(self).received() == old(self).originals() <==> r is Ok,
            match r {
                Ok((store, k, m)) => {
                    &&& k == old(self).originals()
                    &&& m == old(self).recoveries()
                    &&& store.wf()
                    &&& store.shard_count == old(self).store().count()
                    &&& store.shard_len_64 == old(self).store().len64()
                    &&& store.data@ == old(self).store().chunks()
                    &&& old(self).same_counts(final(self))
                    &&& final(self).received() == old(self).received()
                    &&& final(self).store().count() == old(self).store().count()
                    &&& final(self).store().len64() == old(self).store().len64()
                    &&& final(self).store().chunks() == final(store.data)@
                },
                Err(e) => {
                    &&& e == Error::TooFewOriginalShards {
                        original_count: old(self).originals() as usize,
                        original_received_count: old(self).received() as usize,
                    }
                    &&& *final(self) == *old(self)
                },
            },
    {
        if self.original_received_count == self.original_count {
            let k = self.original_count;
            let m = self.recovery_count;
            Ok((self.shards.as_ref_mut(), k, m))
        } else {
            Err(
                Error::TooFewOriginalShards {
                    original_count: self.original_count,
                    original_received_count: self.original_received_count,
                },
            )
        }
    }

    /// Recovery shard `index`, or `None` if `index >= recovery_count`.
    pub fn recovery(&self, index: usize) -> (r: Option<&[u8]>)
        requires
            self.wf(),
        ensures
            index < self.recoveries() ==> r is Some && r->0@ == flatten(
                self.store().slot_of(index as int),
            ).subrange(0, self.bytes() as int),
            index >= self.recoveries() ==> r is None,
    {
        if index < self.recovery_count {
            Some(self.shards.shard_prefix(index, self.shard_bytes))
        } else {
            None
        }
    }

    /// Prepares the work for a new round of `original_count` originals and
    /// `recovery_count` recoveries of `shard_bytes` bytes in a store of
    /// `work_count` shards.
    pub fn reset(
        &mut self,
        original_count: usize,
        recovery_count: usize,
        shard_bytes: usize,
        work_count: usize,
    )
        requires
            shard_bytes % 2 == 0,
            original_count + recovery_count <= work_count,
            work_count * chunks_for(shard_bytes as int) <= usize::MAX,
        ensures
            final(self).wf(),
            final(self).originals() == original_count,
            final(self).recoveries() == recovery_count,
            final(self).bytes() == shard_bytes,
            final(self).received() == 0,
            old(self).store().resized_to(
                final(self).store(),
                work_count as nat,
                chunks_for(shard_bytes as int) as nat,
            ),
    {
        self.original_count = original_count;
        self.recovery_count = recovery_count;
        self.shard_bytes = shard_bytes;
        self.original_received_count = 0;
        let len64 = chunk_count(shard_bytes);
        self.shards.resize(work_count, len64);
    }

    /// Forgets the received original shards, keeping the store.
    pub fn reset_received(&mut self)
        ensures
            old(self).wf() ==> final(self).wf(),
            old(self).same_counts(final(self)),
            final(self).store() == old(self).store(),
            final(self).received() == 0,
    {
        self.original_received_count = 0;
    }

    /// Moves the tail halves of the recovery shards back into place.
    pub fn undo_last_chunk_encoding(&mut self)
        requires
            old(self).wf(),
        ensures
            final(self).wf(),
            old(self).same_counts(final(self)),
            final(self).received() == old(self).received(),
            old(self).store().unpacked_to(
                final(self).store(),
                old(self).bytes() as int,
                0,
                old(self).recoveries() as int,
            ),
    {
        let r = self.recovery_count;
        self.shards.undo_last_chunk_encoding(self.shard_bytes, 0..r);
    }

    /// Number of recovery shards.
    pub fn recovery_count(&self) -> (r: usize)
        ensures
            r == self.recoveries(),
    {
        self.recovery_count
    }
}

impl Default for EncoderWork {
    fn default() -> (r: Self)
        ensures
            r.wf(),
            r.originals() == 0,
            r.recoveries() == 0,
            r.bytes() == 0,
            r.received() == 0,
            r.store().count() == 0,
    {
        Self::new()
    }
}

} // verus!
