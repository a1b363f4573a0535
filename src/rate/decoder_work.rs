use vstd::prelude::*;

use fixedbitset::FixedBitSet;

use crate::engine::shards::{chunks_for, flatten, Shards, ShardsRefMut};
use crate::rate::encoder_work::chunk_count;
use crate::Error;

verus! {

// ======================================================================
// Received bitmap

#[verifier::external_type_specification]
#[verifier::external_body]
pub struct ExFixedBitSet(FixedBitSet);

/// The bits of a bit set, its length being the set's length.
pub uninterp spec fn bits_of(b: FixedBitSet) -> Seq<bool>;

/// Relies on `FixedBitSet::new`: a set of no bits.
pub assume_specification[ FixedBitSet::new ]() -> (r: FixedBitSet)
    ensures
        bits_of(r) == Seq::<bool>::empty(),
;

/// Relies on `FixedBitSet::len`: the number of bits, set or not.
pub assume_specification[ FixedBitSet::len ](s: &FixedBitSet) -> (r: usize)
    ensures
        r == bits_of(*s).len(),
;

/// Relies on `FixedBitSet::contains`: whether `bit` is set; bits past the
/// end read as unset.
pub assume_specification[ FixedBitSet::contains ](s: &FixedBitSet, bit: usize) -> (r: bool)
    ensures
        r == bit_at(bits_of(*s), bit as int),
;

/// Relies on `FixedBitSet::set`: sets one bit, which must be in range.
pub assume_specification[ FixedBitSet::set ](s: &mut FixedBitSet, bit: usize, enabled: bool)
    requires
        bit < bits_of(*old(s)).len(),
    ensures
        bits_of(*final(s)) == bits_of(*old(s)).update(bit as int, enabled),
;

/// Relies on `FixedBitSet::clear`: every bit unset, the length kept.
pub assume_specification[ FixedBitSet::clear ](s: &mut FixedBitSet)
    ensures
        bits_of(*final(s)) == Seq::new(bits_of(*old(s)).len(), |i: int| false),
;

/// Relies on `FixedBitSet::grow`: the length becomes `bits` if that is
/// larger; the bits there were are kept.
pub assume_specification[ FixedBitSet::grow ](s: &mut FixedBitSet, bits: usize)
    ensures
        bits_of(*final(s)).len() == if bits > bits_of(*old(s)).len() {
            bits as nat
        } else {
            bits_of(*old(s)).len()
        },
        bits_of(*final(s)).subrange(0, bits_of(*old(s)).len() as int) == bits_of(*old(s)),
;

/// Whether bit `i` is set; bits outside the sequence are unset.
pub open spec fn bit_at(bits: Seq<bool>, i: int) -> bool {
    0 <= i < bits.len() && bits[i]
}

/// Number of `i` in `lo .. hi` whose bit `base + i` equals `val`.
pub open spec fn count_in(bits: Seq<bool>, base: int, lo: int, hi: int, val: bool) -> nat
    decreases hi - lo,
{
    if lo >= hi {
        0
    } else {
        (if bit_at(bits, base + lo) == val {
            1nat
        } else {
            0nat
        }) + count_in(bits, base, lo + 1, hi, val)
    }
}

proof fn lemma_count_update_outside(
    bits: Seq<bool>,
    base: int,
    lo: int,
    hi: int,
    val: bool,
    p: int,
    v: bool,
)
    requires
        0 <= p < bits.len(),
        !(base + lo <= p < base + hi),
    ensures
        count_in(bits.update(p, v), base, lo, hi, val) == count_in(bits, base, lo, hi, val),
    decreases hi - lo,
{
    if lo < hi {
        lemma_count_update_outside(bits, base, lo + 1, hi, val, p, v);
    }
}

proof fn lemma_count_set_inside(bits: Seq<bool>, base: int, lo: int, hi: int, p: int)
    requires
        0 <= p < bits.len(),
        base + lo <= p < base + hi,
        !bits[p],
    ensures
        count_in(bits.update(p, true), base, lo, hi, true) == count_in(bits, base, lo, hi, true)
            + 1,
    decreases hi - lo,
{
    if p == base + lo {
        lemma_count_update_outside(bits, base, lo + 1, hi, true, p, true);
    } else {
        lemma_count_set_inside(bits, base, lo + 1, hi, p);
    }
}

proof fn lemma_count_all_unset(bits: Seq<bool>, base: int, lo: int, hi: int)
    requires
        forall|i: int| 0 <= i < bits.len() ==> !bits[i],
    ensures
        count_in(bits, base, lo, hi, true) == 0,
    decreases hi - lo,
{
    if lo < hi {
        lemma_count_all_unset(bits, base, lo + 1, hi);
    }
}

proof fn lemma_count_le(bits: Seq<bool>, base: int, lo: int, hi: int, val: bool)
    requires
        lo <= hi,
    ensures
        count_in(bits, base, lo, hi, val) <= hi - lo,
    decreases hi - lo,
{
    if lo < hi {
        lemma_count_le(bits, base, lo + 1, hi, val);
    }
}

/// Every index of a range is counted either as set or as unset.
pub proof fn lemma_count_total(bits: Seq<bool>, base: int, lo: int, hi: int)
    requires
        lo <= hi,
    ensures
        count_in(bits, base, lo, hi, true) + count_in(bits, base, lo, hi, false) == hi - lo,
    decreases hi - lo,
{
    if lo < hi {
        lemma_count_total(bits, base, lo + 1, hi);
    }
}

// ======================================================================
// DecoderWork

/// Working space for a decoder: the shard store, where originals and
/// recoveries go in it, and which positions hold received shards.
pub struct DecoderWork {
    original_count: usize,
    recovery_count: usize,
    shard_bytes: usize,
    original_base_pos: usize,
    recovery_base_pos: usize,
    original_received_count: usize,
    recovery_received_count: usize,
    // May contain extra zero bits.
    received: FixedBitSet,
    shards: Shards,
}

impl DecoderWork {
    /// Number of original shards.
    pub closed spec fn originals(&self) -> nat {
        self.original_count as nat
    }

    /// Number of recovery shards.
    pub closed spec fn recoveries(&self) -> nat {
        self.recovery_count as nat
    }

    /// Length of each shard in bytes.
    pub closed spec fn bytes(&self) -> nat {
        self.shard_bytes as nat
    }

    /// Store position of original shard 0.
    pub closed spec fn original_base(&self) -> nat {
        self.original_base_pos as nat
    }

    /// Store position of recovery shard 0.
    pub closed spec fn recovery_base(&self) -> nat {
        self.recovery_base_pos as nat
    }

    /// Number of original shards received.
    pub closed spec fn original_received(&self) -> nat {
        self.original_received_count as nat
    }

    /// Number of recovery shards received.
    pub closed spec fn recovery_received(&self) -> nat {
        self.recovery_received_count as nat
    }

    /// Which store positions hold a received shard.
    pub closed spec fn bits(&self) -> Seq<bool> {
        bits_of(self.received)
    }

    /// The received bitmap itself.
    pub closed spec fn bitmap(&self) -> FixedBitSet {
        self.received
    }

    /// The shard store.
    pub closed spec fn store(&self) -> Shards {
        self.shards
    }

    /// Whether original shard `index` was received.
    pub open spec fn has_original(&self, index: int) -> bool {
        bit_at(self.bits(), self.original_base() + index)
    }

    /// Whether recovery shard `index` was received.
    pub open spec fn has_recovery(&self, index: int) -> bool {
        bit_at(self.bits(), self.recovery_base() + index)
    }

    /// The store has room for both regions, which do not overlap, the
    /// bitmap covers them, and the received counts are the numbers of set
    /// bits in each region.
    pub open spec fn wf(&self) -> bool {
        &&& self.store().wf()
        &&& self.store().len64() == chunks_for(self.bytes() as int)
        &&& self.bytes() % 2 == 0
        &&& self.original_base() + self.originals() <= self.store().count()
        &&& self.recovery_base() + self.recoveries() <= self.store().count()
        &&& (self.original_base() + self.originals() <= self.recovery_base()
            || self.recovery_base() + self.recoveries() <= self.original_base())
        &&& self.original_base() + self.originals() <= self.bits().len()
        &&& self.recovery_base() + self.recoveries() <= self.bits().len()
        &&& self.original_received() == count_in(
            self.bits(),
            self.original_base() as int,
            0,
            self.originals() as int,
            true,
        )
        &&& self.recovery_received() == count_in(
            self.bits(),
            self.recovery_base() as int,
            0,
            self.recoveries() as int,
            true,
        )
    }

    /// `other` has the same counts, shard size and positions as this work.
    pub open spec fn same_layout(&self, other: &DecoderWork) -> bool {
        &&& other.originals() == self.originals()
        &&& other.recoveries() == self.recoveries()
        &&& other.bytes() == self.bytes()
        &&& other.original_base() == self.original_base()
        &&& other.recovery_base() == self.recovery_base()
    }

    /// Creates new [`DecoderWork`] which initially
    /// has no working space allocated.
    pub fn new() -> (r: Self)
        ensures
            r.wf(),
            r.originals() == 0,
            r.recoveries() == 0,
            r.bytes() == 0,
            r.original_received() == 0,
            r.recovery_received() == 0,
            r.bits().len() == 0,
            r.store().count() == 0,
    {
        DecoderWork {
            original_count: 0,
            recovery_count: 0,
            shard_bytes: 0,
            original_base_pos: 0,
            recovery_base_pos: 0,
            original_received_count: 0,
            recovery_received_count: 0,
            received: FixedBitSet::new(),
            shards: Shards::new(),
        }
    }

    /// Stores original shard `index` at its store position.
    pub fn add_original_shard(&mut self, index: usize, original_shard: &[u8]) -> (r: Result<
        (),
        Error,
    >)
        requires
            old(self).wf(),
        ensures
            final(self).wf(),
            index >= old(self).originals() ==> r == Err::<(), Error>(
                Error::InvalidOriginalShardIndex {
                    original_count: old(self).originals() as usize,
                    index,
                },
            ),
            index < old(self).originals() && old(self).has_original(index as int) ==> r == Err::<
                (),
                Error,
            >(Error::DuplicateOriginalShardIndex { index }),
            index < old(self).originals() && !old(self).has_original(index as int)
                && original_shard@.len() != old(self).bytes() ==> r == Err::<(), Error>(
                Error::DifferentShardSize {
                    shard_bytes: old(self).bytes() as usize,
                    got: original_shard@.len() as usize,
                },
            ),
            r is Err ==> *final(self) == *old(self),
            r is Ok <==> index < old(self).originals() && !old(self).has_original(index as int)
                && original_shard@.len() == old(self).bytes(),
            r is Ok ==> {
                let pos = old(self).original_base() + index;
                &&& old(self).same_layout(final(self))
                &&& final(self).original_received() == old(self).original_received() + 1
                &&& final(self).recovery_received() == old(self).recovery_received()
                &&& final(self).bits() == old(self).bits().update(pos, true)
                &&& old(self).store().inserted_to(final(self).store(), pos, original_shard@)
            },
    {
        if index >= self.original_count {
            return Err(
                Error::InvalidOriginalShardIndex { original_count: self.original_count, index },
            );
        }
        let pos = self.original_base_pos + index;
        if self.received.contains(pos) {
            Err(Error::DuplicateOriginalShardIndex { index })
        } else if original_shard.len() != self.shard_bytes {
            Err(Error::DifferentShardSize { shard_bytes: self.shard_bytes, got: original_shard.len() })
        } else {
            proof {
                let bits = bits_of(self.received);
                lemma_count_set_inside(
                    bits,
                    self.original_base_pos as int,
                    0,
                    self.original_count as int,
                    pos as int,
                );
                lemma_count_update_outside(
                    bits,
                    self.recovery_base_pos as int,
                    0,
                    self.recovery_count as int,
                    true,
                    pos as int,
                    true,
                );
                lemma_count_le(
                    bits.update(pos as int, true),
                    self.original_base_pos as int,
                    0,
                    self.original_count as int,
                    true,
                );
            }
            self.shards.insert(pos, original_shard);
            self.original_received_count = self.original_received_count + 1;
            self.received.set(pos, true);
            Ok(())
        }
    }

    /// Stores recovery shard `index` at its store position.
    pub fn add_recovery_shard(&mut self, index: usize, recovery_shard: &[u8]) -> (r: Result<
        (),
        Error,
    >)
        requires
            old(self).wf(),
        ensures
            final(self).wf(),
            index >= old(self).recoveries() ==> r == Err::<(), Error>(
                Error::InvalidRecoveryShardIndex {
                    recovery_count: old(self).recoveries() as usize,
                    index,
                },
            ),
            index < old(self).recoveries() && old(self).has_recovery(index as int) ==> r == Err::<
                (),
                Error,
            >(Error::DuplicateRecoveryShardIndex { index }),
            index < old(self).recoveries() && !old(self).has_recovery(index as int)
                && recovery_shard@.len() != old(self).bytes() ==> r == Err::<(), Error>(
                Error::DifferentShardSize {
                    shard_bytes: old(self).bytes() as usize,
                    got: recovery_shard@.len() as usize,
                },
            ),
            r is Err ==> *final(self) == *old(self),
            r is Ok <==> index < old(self).recoveries() && !old(self).has_recovery(index as int)
                && recovery_shard@.len() == old(self).bytes(),
            r is Ok ==> {
                let pos = old(self).recovery_base() + index;
                &&& old(self).same_layout(final(self))
                &&& final(self).original_received() == old(self).original_received()
                &&& final(self).recovery_received() == old(self).recovery_received() + 1
                &&& final(self).bits() == old(self).bits().update(pos, true)
                &&& old(self).store().inserted_to(final(self).store(), pos, recovery_shard@)
            },
    {
        if index >= self.recovery_count {
            return Err(
                Error::InvalidRecoveryShardIndex { recovery_count: self.recovery_count, index },
            );
        }
        let pos = self.recovery_base_pos + index;
        if self.received.contains(pos) {
            Err(Error::DuplicateRecoveryShardIndex { index })
        } else if recovery_shard.len() != self.shard_bytes {
            Err(Error::DifferentShardSize { shard_bytes: self.shard_bytes, got: recovery_shard.len() })
        } else {
            proof {
                let bits = bits_of(self.received);
                lemma_count_set_inside(
                    bits,
                    self.recovery_base_pos as int,
                    0,
                    self.recovery_count as int,
                    pos as int,
                );
                lemma_count_update_outside(
                    bits,
                    self.original_base_pos as int,
                    0,
                    self.original_count as int,
                    true,
                    pos as int,
                    true,
                );
                lemma_count_le(
                    bits.update(pos as int, true),
                    self.recovery_base_pos as int,
                    0,
                    self.recovery_count as int,
                    true,
                );
            }
            self.shards.insert(pos, recovery_shard);
            self.recovery_received_count = self.recovery_received_count + 1;
            self.received.set(pos, true);
            Ok(())
        }
    }

    /// Begins decoding: fails when fewer than `original_count` shards were
    /// received, hands back nothing when every original is present, and
    /// otherwise hands the store, the counts and the received bitmap to the
    /// transform.
    pub fn decode_begin(&mut self) -> (r: Result<
        Option<(ShardsRefMut<'_>, usize, usize, &FixedBitSet)>,
        Error,
    >)
        requires
            old(self).wf(),
        ensures
            r is Err <==> old(self).original_received() + old(self).recovery_received() < old(
                self,
            ).originals(),
            r matches Ok(None) <==> old(self).original_received() == old(self).originals(),
            match r {
                Err(e) => {
                    &&& e == Error::NotEnoughShards {
                        original_count: old(self).originals() as usize,
                        original_received_count: old(self).original_received() as usize,
                        recovery_received_count: old(self).recovery_received() as usize,
                    }
                    &&& *final(self) == *old(self)
                },
                Ok(None) => *final(self) == *old(self),
                Ok(Some((store, k, m, received))) => {
                    &&& k == old(self).originals()
                    &&& m == old(self).recoveries()
                    &&& *received == old(self).bitmap()
                    &&& store.wf()
                    &&& store.shard_count == old(self).store().count()
                    &&& store.shard_len_64 == old(self).store().len64()
                    &&& store.data@ == old(self).store().chunks()
                    &&& old(self).same_layout(final(self))
                    &&& final(self).original_received() == old(self).original_received()
                    &&& final(self).recovery_received() == old(self).recovery_received()
                    &&& final(self).bitmap() == old(self).bitmap()
                    &&& final(self).store().count() == old(self).store().count()
                    &&& final(self).store().len64() == old(self).store().len64()
                    &&& final(self).store().chunks() == final(store.data)@
                },
            },
    {
        proof {
            lemma_count_le(
                bits_of(self.received),
                self.original_base_pos as int,
                0,
                self.original_count as int,
                true,
            );
            lemma_count_le(
                bits_of(self.received),
                self.recovery_base_pos as int,
                0,
                self.recovery_count as int,
                true,
            );
        }
        if self.original_received_count + self.recovery_received_count < self.original_count {
            Err(
                Error::NotEnoughShards {
                    original_count: self.original_count,
                    original_received_count: self.original_received_count,
                    recovery_received_count: self.recovery_received_count,
                },
            )
        } else if self.original_received_count == self.original_count {
            Ok(None)
        } else {
            let k = self.original_count;
            let m = self.recovery_count;
            Ok(Some((self.shards.as_ref_mut(), k, m, &self.received)))
        }
    }

    /// Number of original shards.
    pub fn original_count(&self) -> (r: usize)
        ensures
            r == self.originals(),
    {
        self.original_count
    }

    /// Prepares the work for a new round: `original_count` originals at
    /// `original_base_pos` and `recovery_count` recoveries at
    /// `recovery_base_pos`, of `shard_bytes` bytes, in a store of
    /// `work_count` shards.
    pub fn reset(
        &mut self,
        original_count: usize,
        recovery_count: usize,
        shard_bytes: usize,
        original_base_pos: usize,
        recovery_base_pos: usize,
        work_count: usize,
    )
        requires
            shard_bytes % 2 == 0,
            original_base_pos + original_count <= work_count,
            recovery_base_pos + recovery_count <= work_count,
            original_base_pos + original_count <= recovery_base_pos || recovery_base_pos
                + recovery_count <= original_base_pos,
            work_count * chunks_for(shard_bytes as int) <= usize::MAX,
        ensures
            final(self).wf(),
            final(self).originals() == original_count,
            final(self).recoveries() == recovery_count,
            final(self).bytes() == shard_bytes,
            final(self).original_base() == original_base_pos,
            final(self).recovery_base() == recovery_base_pos,
            final(self).original_received() == 0,
            final(self).recovery_received() == 0,
            final(self).bits().len() == vstd::math::max(
                old(self).bits().len() as int,
                vstd::math::max(
                    original_base_pos + original_count,
                    recovery_base_pos + recovery_count,
                ),
            ),
            forall|i: int| 0 <= i < final(self).bits().len() ==> !#[trigger] final(self).bits()[i],
            old(self).store().resized_to(
                final(self).store(),
                work_count as nat,
                chunks_for(shard_bytes as int) as nat,
            ),
    {
        self.original_count = original_count;
        self.recovery_count = recovery_count;
        self.shard_bytes = shard_bytes;
        self.original_base_pos = original_base_pos;
        self.recovery_base_pos = recovery_base_pos;
        self.original_received_count = 0;
        self.recovery_received_count = 0;
        let max_received_pos = if original_base_pos + original_count >= recovery_base_pos
            + recovery_count {
            original_base_pos + original_count
        } else {
            recovery_base_pos + recovery_count
        };
        if self.received.len() < max_received_pos {
            self.received.grow(max_received_pos);
        }
        self.received.clear();
        proof {
            let bits = bits_of(self.received);
            lemma_count_all_unset(bits, original_base_pos as int, 0, original_count as int);
            lemma_count_all_unset(bits, recovery_base_pos as int, 0, recovery_count as int);
        }
        let len64 = chunk_count(shard_bytes);
        self.shards.resize(work_count, len64);
    }

    /// Forgets every received shard, keeping the store and the layout.
    pub fn reset_received(&mut self)
        ensures
            old(self).wf() ==> final(self).wf(),
            old(self).same_layout(final(self)),
            final(self).store() == old(self).store(),
            final(self).original_received() == 0,
            final(self).recovery_received() == 0,
            final(self).bits().len() == old(self).bits().len(),
            forall|i: int| 0 <= i < final(self).bits().len() ==> !#[trigger] final(self).bits()[i],
    {
        self.original_received_count = 0;
        self.recovery_received_count = 0;
        self.received.clear();
        proof {
            let bits = bits_of(self.received);
            lemma_count_all_unset(bits, self.original_base_pos as int, 0, self.original_count as int);
            lemma_count_all_unset(bits, self.recovery_base_pos as int, 0, self.recovery_count as int);
        }
    }

    /// Restored original shard `index`, or `None` if `index` is not the
    /// index of a missing original shard.
    pub fn restored_original(&self, index: usize) -> (r: Option<&[u8]>)
        requires
            self.wf(),
        ensures
            r is Some <==> index < self.originals() && !self.has_original(index as int),
            r is Some ==> r->0@ == flatten(
                self.store().slot_of(self.original_base() + index),
            ).subrange(0, self.bytes() as int),
    {
        if index < self.original_count && !self.received.contains(self.original_base_pos + index) {
            Some(self.shards.shard_prefix(self.original_base_pos + index, self.shard_bytes))
        } else {
            None
        }
    }

    /// Moves the tail halves of the original shards back into place.
    pub fn undo_last_chunk_encoding(&mut self)
        requires
            old(self).wf(),
        ensures
            final(self).wf(),
            old(self).same_layout(final(self)),
            final(self).original_received() == old(self).original_received(),
            final(self).recovery_received() == old(self).recovery_received(),
            final(self).bitmap() == old(self).bitmap(),
            old(self).store().unpacked_to(
                final(self).store(),
                old(self).bytes() as int,
                old(self).original_base() as int,
                (old(self).original_base() + old(self).originals()) as int,
            ),
    {
        let start = self.original_base_pos;
        let end = self.original_base_pos + self.original_count;
        self.shards.undo_last_chunk_encoding(self.shard_bytes, start..end);
    }

    /// Number of original shards that were not received.
    pub fn missing_original_count(&self) -> (r: usize)
        requires
            self.wf(),
        ensures
            r == self.originals() - self.original_received(),
            r == count_in(self.bits(), self.original_base() as int, 0, self.originals() as int, false),
    {
        proof {
            lemma_count_total(
                bits_of(self.received),
                self.original_base_pos as int,
                0,
                self.original_count as int,
            );
        }
        self.original_count - self.original_received_count
    }
}

/// Once the bitmap is clear (after `reset`, `reset_received` or a result's
/// `finish`), no original or recovery index counts as received, so every
/// index can be added again.
pub proof fn lemma_cleared_accepts_all(work: DecoderWork, index: int)
    requires
        forall|i: int| 0 <= i < work.bits().len() ==> !#[trigger] work.bits()[i],
    ensures
        !work.has_original(index),
        !work.has_recovery(index),
{
}

impl Default for DecoderWork {
    fn default() -> (r: Self)
        ensures
            r.wf(),
            r.originals() == 0,
            r.recoveries() == 0,
            r.bytes() == 0,
            r.original_received() == 0,
            r.recovery_received() == 0,
            r.bits().len() == 0,
            r.store().count() == 0,
    {
        Self::new()
    }
}

} // verus!
