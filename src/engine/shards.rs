use vstd::prelude::*;

verus! {

// ======================================================================
// Byte layout of a shard inside its 64-byte chunks

/// The chunks of shard `index` in a flat store whose shards are `len64` chunks each.
pub open spec fn slot(chunks: Seq<[u8; 64]>, len64: int, index: int) -> Seq<[u8; 64]> {
    chunks.subrange(index * len64, (index + 1) * len64)
}

/// The bytes of a run of chunks, chunk after chunk.
pub open spec fn flatten(chunks: Seq<[u8; 64]>) -> Seq<u8> {
    Seq::new((chunks.len() * 64) as nat, |p: int| chunks[p / 64][p % 64])
}

/// Offset of the first byte that does not fill a whole chunk.
pub open spec fn tail_start(shard_bytes: int) -> int {
    shard_bytes - shard_bytes % 64
}

/// Length of each of the two halves of the last, partial chunk.
pub open spec fn tail_half(shard_bytes: int) -> int {
    (shard_bytes % 64) / 2
}

/// Bytes of a slot after `shard` was stored over `old`: whole chunks as they
/// are, the low half of the tail at the start of the last chunk, its high half
/// at offset 32 of that chunk; every other byte keeps its old value.
pub open spec fn packed(old: Seq<u8>, shard: Seq<u8>) -> Seq<u8> {
    let base = tail_start(shard.len() as int);
    let half = tail_half(shard.len() as int);
    Seq::new(
        old.len(),
        |p: int|
            if p < base + half {
                shard[p]
            } else if base + 32 <= p < base + 32 + half {
                shard[p - 32 + half]
            } else {
                old[p]
            },
    )
}

/// Bytes of a slot after the high half of its last chunk was moved back
/// next to the low half, for shards of `shard_bytes` bytes.
pub open spec fn unpacked(old: Seq<u8>, shard_bytes: int) -> Seq<u8> {
    let base = tail_start(shard_bytes);
    let half = tail_half(shard_bytes);
    Seq::new(
        old.len(),
        |p: int|
            if base + half <= p < base + 2 * half {
                old[p + 32 - half]
            } else {
                old[p]
            },
    )
}

/// A chunk that holds only zero bytes.
pub open spec fn is_zero_chunk(c: [u8; 64]) -> bool {
    forall|j: int| 0 <= j < 64 ==> c[j] == 0
}

/// Number of 64-byte chunks that a shard of `shard_bytes` bytes occupies.
pub open spec fn chunks_for(shard_bytes: int) -> int {
    (shard_bytes + 63) / 64
}

/// A shard stored in its slot and taken back out is the shard itself.
pub proof fn lemma_pack_unpack(old: Seq<u8>, shard: Seq<u8>)
    requires
        shard.len() % 2 == 0,
        shard.len() <= old.len(),
        old.len() % 64 == 0,
    ensures
        unpacked(packed(old, shard), shard.len() as int).subrange(0, shard.len() as int) == shard,
{
    let n = shard.len() as int;
    let base = tail_start(n);
    let half = tail_half(n);
    assert(n % 64 > 0 ==> base + 64 <= old.len()) by {
        if n % 64 > 0 {
            assert(old.len() == (old.len() / 64) * 64);
            assert(n == (n / 64) * 64 + n % 64);
            assert(base == (n / 64) * 64);
            assert(n / 64 < old.len() / 64);
        }
    }
    assert(unpacked(packed(old, shard), n).subrange(0, n) =~= shard);
}

/// Storing a shard in a slot and then unpacking that slot's last chunk
/// gives back the shard as the first bytes of the slot.
pub proof fn lemma_insert_then_undo(a: Shards, b: Shards, c: Shards, index: int, shard: Seq<u8>)
    requires
        a.wf(),
        0 <= index < a.count(),
        shard.len() % 2 == 0,
        shard.len() <= a.len64() * 64,
        a.inserted_to(b, index, shard),
        b.unpacked_to(c, shard.len() as int, index, index + 1),
    ensures
        flatten(c.slot_of(index)).subrange(0, shard.len() as int) == shard,
{
    let l = a.len64() as int;
    lemma_slot_bounds(index, l, a.count() as int);
    let old_flat = flatten(a.slot_of(index));
    assert(old_flat.len() == l * 64);
    assert((l * 64) % 64 == 0) by (nonlinear_arith);
    lemma_pack_unpack(old_flat, shard);
}

proof fn lemma_slot_offset(i: int, l: int, c: int)
    requires
        0 <= i,
        0 <= c < l,
    ensures
        (i * l + c) % l == c,
        (i * l + c) / l == i,
{
    vstd::arithmetic::div_mod::lemma_fundamental_div_mod_converse(i * l + c, l, i, c);
}

proof fn lemma_slot_bounds(i: int, l: int, n: int)
    requires
        0 <= i < n,
        0 <= l,
    ensures
        0 <= i * l,
        i * l + l <= n * l,
        (i + 1) * l == i * l + l,
{
    assert(i * l + l <= n * l) by (nonlinear_arith)
        requires
            i < n,
            0 <= l,
    ;
    assert((i + 1) * l == i * l + l) by (nonlinear_arith);
    assert(0 <= i * l) by (nonlinear_arith)
        requires
            0 <= i,
            0 <= l,
    ;
}

proof fn lemma_mul_le(a: int, b: int, l: int)
    requires
        a <= b,
        0 <= l,
    ensures
        a * l <= b * l,
{
    assert(a * l <= b * l) by (nonlinear_arith)
        requires
            a <= b,
            0 <= l,
    ;
}

/// Relies on `<[[u8; 64]]>::as_flattened`: the same bytes, chunk after chunk.
#[verifier::external_body]
fn flat_bytes(chunks: &[[u8; 64]]) -> (r: &[u8])
    ensures
        r@ == flatten(chunks@),
{
    chunks.as_flattened()
}

// ======================================================================
// Shards - owning store

/// Owning store of `shard_count` shards of `shard_len_64` chunks each.
pub struct Shards {
    shard_count: usize,
    shard_len_64: usize,
    data: Vec<[u8; 64]>,
}

impl Shards {
    /// Number of shards.
    pub closed spec fn count(&self) -> nat {
        self.shard_count as nat
    }

    /// Length of each shard in chunks.
    pub closed spec fn len64(&self) -> nat {
        self.shard_len_64 as nat
    }

    /// All chunks, shard after shard.
    pub closed spec fn chunks(&self) -> Seq<[u8; 64]> {
        self.data@
    }

    /// The chunks are exactly `count * len64`.
    pub open spec fn wf(&self) -> bool {
        &&& self.chunks().len() == self.count() * self.len64()
        &&& self.count() <= usize::MAX
        &&& self.len64() <= usize::MAX
    }

    /// The chunks of shard `index`.
    pub open spec fn slot_of(&self, index: int) -> Seq<[u8; 64]> {
        slot(self.chunks(), self.len64() as int, index)
    }

    /// `new` is this store resized to `shard_count` shards of `shard_len_64`
    /// chunks: the chunks that fit are kept, the others are zero.
    pub open spec fn resized_to(&self, new: Shards, shard_count: nat, shard_len_64: nat) -> bool {
        &&& new.wf()
        &&& new.count() == shard_count
        &&& new.len64() == shard_len_64
        &&& forall|k: int|
            0 <= k < new.chunks().len() ==> if k < self.chunks().len() {
                new.chunks()[k] == self.chunks()[k]
            } else {
                is_zero_chunk(#[trigger] new.chunks()[k])
            }
    }

    /// `new` is this store with `shard` stored in slot `index`.
    pub open spec fn inserted_to(&self, new: Shards, index: int, shard: Seq<u8>) -> bool {
        &&& new.wf()
        &&& new.count() == self.count()
        &&& new.len64() == self.len64()
        &&& flatten(new.slot_of(index)) == packed(flatten(self.slot_of(index)), shard)
        &&& forall|k: int|
            0 <= k < self.chunks().len() && !(index * self.len64() <= k < (index + 1)
                * self.len64()) ==> #[trigger] new.chunks()[k] == self.chunks()[k]
    }

    /// `new` is this store with the last chunk of each shard of
    /// `start .. end` unpacked for shards of `shard_bytes` bytes.
    pub open spec fn unpacked_to(&self, new: Shards, shard_bytes: int, start: int, end: int) -> bool {
        &&& new.wf()
        &&& new.count() == self.count()
        &&& new.len64() == self.len64()
        &&& forall|i: int|
            start <= i < end ==> flatten(#[trigger] new.slot_of(i)) == unpacked(
                flatten(self.slot_of(i)),
                shard_bytes,
            )
        &&& forall|k: int|
            0 <= k < self.chunks().len() && !(start * self.len64() <= k < end * self.len64())
                ==> #[trigger] new.chunks()[k] == self.chunks()[k]
    }

    pub fn new() -> (r: Self)
        ensures
            r.wf(),
            r.count() == 0,
            r.len64() == 0,
            r.chunks().len() == 0,
    {
        Shards { shard_count: 0, shard_len_64: 0, data: Vec::new() }
    }

    pub fn resize(&mut self, shard_count: usize, shard_len_64: usize)
        requires
            shard_count * shard_len_64 <= usize::MAX,
        ensures
            old(self).resized_to(*final(self), shard_count as nat, shard_len_64 as nat),
    {
        self.shard_count = shard_count;
        self.shard_len_64 = shard_len_64;
        let n = shard_count * shard_len_64;
        if n <= self.data.len() {
            self.data.truncate(n);
        } else {
            while self.data.len() < n
                invariant
                    self.shard_count == shard_count,
                    self.shard_len_64 == shard_len_64,
                    n == shard_count * shard_len_64,
                    n >= old(self).data@.len(),
                    self.data@.len() <= n,
                    self.data@.len() >= old(self).data@.len(),
                    forall|k: int|
                        0 <= k < self.data@.len() ==> if k < old(self).data@.len() {
                            self.data@[k] == old(self).data@[k]
                        } else {
                            is_zero_chunk(#[trigger] self.data@[k])
                        },
                decreases n - self.data@.len(),
            {
                self.data.push([0u8; 64]);
            }
        }
    }

    /// Stores `shard` in slot `index`, splitting a partial last chunk into
    /// two halves at offsets 0 and 32.
    pub fn insert(&mut self, index: usize, shard: &[u8])
        requires
            old(self).wf(),
            index < old(self).count(),
            shard@.len() % 2 == 0,
            shard@.len() <= old(self).len64() * 64,
        ensures
            old(self).inserted_to(*final(self), index as int, shard@),
    {
        let len = shard.len();
        let whole_chunk_count = len / 64;
        let tail_len = len % 64;
        let l64 = self.shard_len_64;
        let total: usize = self.data.len();
        proof {
            assert(index * l64 + l64 <= self.shard_count * l64) by (nonlinear_arith)
                requires
                    index < self.shard_count,
            ;
            assert((index + 1) * l64 == index * l64 + l64) by (nonlinear_arith);
        }
        let start = index * l64;
        let ghost old_data = self.data@;
        let mut c: usize = 0;
        while c < whole_chunk_count
            invariant
                self.data@.len() == old_data.len(),
                self.shard_count == old(self).shard_count,
                self.shard_len_64 == l64,
                self.data@.len() == self.shard_count * l64,
                start + l64 <= self.data@.len(),
                self.data@.len() == total,
                len == shard@.len(),
                whole_chunk_count == len / 64,
                whole_chunk_count <= l64,
                c <= whole_chunk_count,
                forall|cc: int, j: int|
                    0 <= cc < c && 0 <= j < 64 ==> #[trigger] self.data@[start + cc][j] == shard@[cc
                        * 64 + j],
                forall|k: int|
                    0 <= k < old_data.len() && !(start <= k < start + c) ==> #[trigger] self.data@[k]
                        == old_data[k],
            decreases whole_chunk_count - c,
        {
            let mut chunk: [u8; 64] = [0u8; 64];
            let mut j: usize = 0;
            while j < 64
                invariant
                    c < whole_chunk_count,
                    whole_chunk_count == len / 64,
                    len == shard@.len(),
                    j <= 64,
                    forall|jj: int| 0 <= jj < j ==> #[trigger] chunk[jj] == shard@[c * 64 + jj],
                decreases 64 - j,
            {
                chunk[j] = shard[c * 64 + j];
                j = j + 1;
            }
            self.data.set(start + c, chunk);
            c = c + 1;
        }
        if tail_len > 0 {
            let half = tail_len / 2;
            let base = whole_chunk_count * 64;
            let mut chunk: [u8; 64] = self.data[start + whole_chunk_count];
            let ghost before = chunk;
            let mut j: usize = 0;
            while j < half
                invariant
                    half == (len % 64) / 2,
                    base == len - len % 64,
                    len == shard@.len(),
                    len % 2 == 0,
                    j <= half,
                    forall|jj: int|
                        0 <= jj < 64 ==> #[trigger] chunk[jj] == if jj < j {
                            shard@[base + jj]
                        } else if 32 <= jj < 32 + j {
                            shard@[base + half + jj - 32]
                        } else {
                            before[jj]
                        },
                decreases half - j,
            {
                chunk[j] = shard[base + j];
                chunk[32 + j] = shard[base + half + j];
                j = j + 1;
            }
            self.data.set(start + whole_chunk_count, chunk);
        }
        proof {
            let ghost nflat = flatten(self.slot_of(index as int));
            let ghost oflat = flatten(old(self).slot_of(index as int));
            let ghost want = packed(oflat, shard@);
            assert forall|p: int| 0 <= p < nflat.len() implies nflat[p] == want[p] by {
                let cc = p / 64;
                let j = p % 64;
                assert(p == cc * 64 + j);
                assert(0 <= cc < l64);
                assert(self.data@[start + cc] == self.slot_of(index as int)[cc]);
                assert(old_data[start + cc] == old(self).slot_of(index as int)[cc]);
            }
            assert(nflat =~= want);
        }
    }

    /// Moves the high half of the last chunk back next to its low half, in
    /// each shard of `range`.
    pub fn undo_last_chunk_encoding(&mut self, shard_bytes: usize, range: core::ops::Range<usize>)
        requires
            old(self).wf(),
            range.start <= range.end <= old(self).count(),
            shard_bytes <= old(self).len64() * 64,
        ensures
            old(self).unpacked_to(
                *final(self),
                shard_bytes as int,
                range.start as int,
                range.end as int,
            ),
    {
        let whole_chunk_count = shard_bytes / 64;
        let tail_len = shard_bytes % 64;
        let half = tail_len / 2;
        let l64 = self.shard_len_64;
        let total: usize = self.data.len();
        let ghost old_data = self.data@;
        let ghost l = l64 as int;
        let ghost w = whole_chunk_count as int;
        if tail_len == 0 {
            proof {
                assert forall|i: int| range.start <= i < range.end implies flatten(
                    #[trigger] self.slot_of(i),
                ) == unpacked(flatten(old(self).slot_of(i)), shard_bytes as int) by {
                    assert(unpacked(flatten(old(self).slot_of(i)), shard_bytes as int) =~= flatten(
                        old(self).slot_of(i),
                    ));
                }
            }
            return;
        }
        assert(w < l) by (nonlinear_arith)
            requires
                w == shard_bytes / 64,
                shard_bytes % 64 > 0,
                shard_bytes <= l * 64,
        ;
        let mut idx: usize = range.start;
        while idx < range.end
            invariant
                self.shard_count == old(self).shard_count,
                self.shard_len_64 == l64,
                l == l64,
                w == whole_chunk_count,
                0 <= w < l,
                half == (shard_bytes % 64) / 2,
                self.data@.len() == old_data.len(),
                old_data == old(self).data@,
                old_data.len() == self.shard_count * l,
                total == old_data.len(),
                range.start <= idx <= range.end,
                range.end <= self.shard_count,
                forall|k: int, j: int|
                    0 <= k < old_data.len() && 0 <= j < 64 ==> #[trigger] self.data@[k][j] == if range.start
                        * l <= k < idx * l && k % l == w && half <= j < 2 * half {
                        old_data[k][j + 32 - half]
                    } else {
                        old_data[k][j]
                    },
            decreases range.end - idx,
        {
            proof {
                lemma_slot_bounds(idx as int, l, self.shard_count as int);
                lemma_mul_le(range.start as int, idx as int, l);
            }
            let pos = idx * l64 + whole_chunk_count;
            let last = self.data[pos];
            let mut chunk: [u8; 64] = last;
            let mut j: usize = 0;
            while j < half
                invariant
                    half <= 31,
                    j <= half,
                    forall|jj: int|
                        0 <= jj < 64 ==> #[trigger] chunk[jj] == if half <= jj < half + j {
                            last[jj + 32 - half]
                        } else {
                            last[jj]
                        },
                decreases half - j,
            {
                chunk[half + j] = last[32 + j];
                j = j + 1;
            }
            self.data.set(pos, chunk);
            proof {
                lemma_slot_offset(idx as int, l, w);
                assert forall|k: int, j: int|
                    0 <= k < old_data.len() && 0 <= j < 64 implies #[trigger] self.data@[k][j] == if range.start
                        * l <= k < (idx + 1) * l && k % l == w && half <= j < 2 * half {
                        old_data[k][j + 32 - half]
                    } else {
                        old_data[k][j]
                    } by {
                    if k == pos {
                    } else if idx * l <= k < (idx + 1) * l {
                        lemma_slot_offset(idx as int, l, k - idx * l);
                    } else if k < idx * l {
                    } else {
                    }
                }
            }
            idx = idx + 1;
        }
        proof {
            assert forall|i: int| range.start <= i < range.end implies flatten(
                #[trigger] self.slot_of(i),
            ) == unpacked(flatten(old(self).slot_of(i)), shard_bytes as int) by {
                let nflat = flatten(self.slot_of(i));
                let want = unpacked(flatten(old(self).slot_of(i)), shard_bytes as int);
                lemma_slot_bounds(i, l, self.shard_count as int);
                lemma_mul_le(range.start as int, i, l);
                lemma_mul_le(i + 1, idx as int, l);
                assert forall|p: int| 0 <= p < nflat.len() implies nflat[p] == want[p] by {
                    let c = p / 64;
                    let j = p % 64;
                    assert(p == c * 64 + j);
                    assert(0 <= c < l);
                    lemma_slot_offset(i, l, c);
                    assert(self.data@[i * l + c] == self.slot_of(i)[c]);
                    assert(old_data[i * l + c] == old(self).slot_of(i)[c]);
                    if c == w && half <= j < 2 * half {
                        assert(p + 32 - half == c * 64 + (j + 32 - half));
                    }
                }
                assert(nflat =~= want);
            }
            assert forall|k: int|
                0 <= k < old_data.len() && !(range.start * l <= k < range.end * l) implies #[trigger] self.data@[k]
                == old_data[k] by {
                assert(self.data@[k] =~= old_data[k]);
            }
        }
    }

    /// Chunks of shard `index`.
    pub fn shard(&self, index: usize) -> (r: &[[u8; 64]])
        requires
            self.wf(),
            index < self.count(),
        ensures
            r@ == self.slot_of(index as int),
    {
        proof {
            lemma_slot_bounds(index as int, self.shard_len_64 as int, self.shard_count as int);
        }
        let l64 = self.shard_len_64;
        let total: usize = self.data.len();
        vstd::slice::slice_subrange(self.data.as_slice(), index * l64, index * l64 + l64)
    }

    /// The first `len` bytes of shard `index`.
    pub fn shard_prefix(&self, index: usize, len: usize) -> (r: &[u8])
        requires
            self.wf(),
            index < self.count(),
            len <= self.len64() * 64,
        ensures
            r@ == flatten(self.slot_of(index as int)).subrange(0, len as int),
    {
        proof {
            lemma_slot_bounds(index as int, self.shard_len_64 as int, self.shard_count as int);
        }
        let bytes = flat_bytes(self.shard(index));
        vstd::slice::slice_subrange(bytes, 0, len)
    }

    /// Borrows the whole store as a [`ShardsRefMut`].
    pub fn as_ref_mut(&mut self) -> (r: ShardsRefMut<'_>)
        requires
            old(self).wf(),
        ensures
            r.wf(),
            r.shard_count == old(self).count(),
            r.shard_len_64 == old(self).len64(),
            r.data@ == old(self).chunks(),
            final(self).count() == old(self).count(),
            final(self).len64() == old(self).len64(),
            final(self).chunks() == final(r.data)@,
    {
        ShardsRefMut::new(self.shard_count, self.shard_len_64, self.data.as_mut_slice())
    }
}

/// `s` with the `n` elements at `at` replaced by `part`.
pub open spec fn spliced(s: Seq<[u8; 64]>, at: int, n: int, part: Seq<[u8; 64]>) -> Seq<[u8; 64]> {
    s.subrange(0, at) + part + s.subrange(at + n, s.len() as int)
}

/// `s` with the `n` elements at `a` replaced by `fa` and the `n` elements at
/// `b` replaced by `fb`, where `a + n <= b`.
pub open spec fn spliced2(
    s: Seq<[u8; 64]>,
    a: int,
    b: int,
    n: int,
    fa: Seq<[u8; 64]>,
    fb: Seq<[u8; 64]>,
) -> Seq<[u8; 64]> {
    s.subrange(0, a) + fa + s.subrange(a + n, b) + fb + s.subrange(b + n, s.len() as int)
}

/// `s` with the `n` elements at `p`, `p + d`, `p + 2 * d` and `p + 3 * d`
/// replaced by `f0`, `f1`, `f2` and `f3`, where `n <= d`.
pub open spec fn spliced4(
    s: Seq<[u8; 64]>,
    p: int,
    d: int,
    n: int,
    f0: Seq<[u8; 64]>,
    f1: Seq<[u8; 64]>,
    f2: Seq<[u8; 64]>,
    f3: Seq<[u8; 64]>,
) -> Seq<[u8; 64]> {
    s.subrange(0, p) + f0 + s.subrange(p + n, p + d) + f1 + s.subrange(p + d + n, p + 2 * d) + f2
        + s.subrange(p + 2 * d + n, p + 3 * d) + f3 + s.subrange(p + 3 * d + n, s.len() as int)
}

proof fn lemma_spliced4(
    s: Seq<[u8; 64]>,
    p: int,
    d: int,
    n: int,
    f0: Seq<[u8; 64]>,
    f1: Seq<[u8; 64]>,
    f2: Seq<[u8; 64]>,
    f3: Seq<[u8; 64]>,
)
    requires
        0 <= p,
        0 <= n <= d,
        p + 3 * d + n <= s.len(),
    ensures
        spliced4(s, p, d, n, f0, f1, f2, f3) == spliced2(
            s.subrange(0, p + 2 * d),
            p,
            p + d,
            n,
            f0,
            f1,
        ) + spliced2(s.subrange(p + 2 * d, s.len() as int), 0, d, n, f2, f3),
{
    let lo = s.subrange(0, p + 2 * d);
    let hi = s.subrange(p + 2 * d, s.len() as int);
    assert(lo.subrange(0, p) =~= s.subrange(0, p));
    assert(lo.subrange(p + n, p + d) =~= s.subrange(p + n, p + d));
    assert(lo.subrange(p + d + n, lo.len() as int) =~= s.subrange(p + d + n, p + 2 * d));
    assert(hi.subrange(0, 0) =~= Seq::<[u8; 64]>::empty());
    assert(hi.subrange(n, d) =~= s.subrange(p + 2 * d + n, p + 3 * d));
    assert(hi.subrange(d + n, hi.len() as int) =~= s.subrange(p + 3 * d + n, s.len() as int));
    assert(spliced4(s, p, d, n, f0, f1, f2, f3) =~= spliced2(lo, p, p + d, n, f0, f1) + spliced2(
        hi,
        0,
        d,
        n,
        f2,
        f3,
    ));
}

/// Mutable references to the `n` elements at `p` and at `p + d` of `data`.
fn pair_mut<'b>(data: &'b mut [[u8; 64]], p: usize, d: usize, n: usize) -> (r: (
    &'b mut [[u8; 64]],
    &'b mut [[u8; 64]],
))
    requires
        n <= d,
        p + d + n <= old(data)@.len(),
    ensures
        r.0@ == old(data)@.subrange(p as int, p + n),
        r.1@ == old(data)@.subrange(p + d, p + d + n),
        final(data)@ == spliced2(old(data)@, p as int, p + d, n as int, final(r.0)@, final(r.1)@),
{
    let (head, rest) = data.split_at_mut(p);
    let (a, b) = rest.split_at_mut(d);
    let (a0, a1) = a.split_at_mut(n);
    let (b0, b1) = b.split_at_mut(n);
    proof {
        let ghost o = old(data)@;
        assert(a1@ =~= o.subrange(p + n, p + d));
        assert(b1@ =~= o.subrange(p + d + n, o.len() as int));
        assert(head@ =~= o.subrange(0, p as int));
        assert(a0@ =~= o.subrange(p as int, p + n));
        assert(b0@ =~= o.subrange(p + d, p + d + n));
    }
    (a0, b0)
}

// ======================================================================
// ShardsRefMut - borrowed store

/// Mutable reference to a shard array of `shard_count` shards of
/// `shard_len_64` chunks each.
pub struct ShardsRefMut<'a> {
    pub shard_count: usize,
    pub shard_len_64: usize,
    pub data: &'a mut [[u8; 64]],
}

impl<'a> ShardsRefMut<'a> {
    /// The borrowed chunks are exactly `shard_count * shard_len_64`.
    pub open spec fn wf(&self) -> bool {
        self.data@.len() == self.shard_count * self.shard_len_64
    }

    /// The chunks of shard `index`.
    pub open spec fn slot_of(&self, index: int) -> Seq<[u8; 64]> {
        slot(self.data@, self.shard_len_64 as int, index)
    }

    /// Creates new [`ShardsRefMut`] that references the first
    /// `shard_count * shard_len_64` chunks of `data`.
    pub fn new(shard_count: usize, shard_len_64: usize, data: &'a mut [[u8; 64]]) -> (r: Self)
        requires
            shard_count * shard_len_64 <= old(data)@.len(),
        ensures
            r.wf(),
            r.shard_count == shard_count,
            r.shard_len_64 == shard_len_64,
            r.data@ == old(data)@.subrange(0, shard_count * shard_len_64),
            final(data)@ == final(r.data)@ + old(data)@.subrange(
                shard_count * shard_len_64,
                old(data)@.len() as int,
            ),
    {
        let total: usize = data.len();
        let n = shard_count * shard_len_64;
        let (head, _) = data.split_at_mut(n);
        ShardsRefMut { shard_count, shard_len_64, data: head }
    }

    /// Chunks of shard `index`.
    pub fn shard(&self, index: usize) -> (r: &[[u8; 64]])
        requires
            self.wf(),
            index < self.shard_count,
        ensures
            r@ == self.slot_of(index as int),
    {
        let l = self.shard_len_64;
        let total: usize = self.data.len();
        proof {
            lemma_slot_bounds(index as int, l as int, self.shard_count as int);
        }
        vstd::slice::slice_subrange(&*self.data, index * l, index * l + l)
    }

    /// Mutable chunks of shard `index`.
    pub fn shard_mut(&mut self, index: usize) -> (r: &mut [[u8; 64]])
        requires
            old(self).wf(),
            index < old(self).shard_count,
        ensures
            r@ == old(self).slot_of(index as int),
            final(self).shard_count == old(self).shard_count,
            final(self).shard_len_64 == old(self).shard_len_64,
            final(self).data@ == spliced(
                old(self).data@,
                index * old(self).shard_len_64,
                old(self).shard_len_64 as int,
                final(r)@,
            ),
    {
        let l = self.shard_len_64;
        let total: usize = self.data.len();
        proof {
            lemma_slot_bounds(index as int, l as int, self.shard_count as int);
        }
        let (head, rest) = self.data.split_at_mut(index * l);
        let (a, b) = rest.split_at_mut(l);
        proof {
            let ghost o = old(self).data@;
            assert(head@ =~= o.subrange(0, index * l));
            assert(b@ =~= o.subrange(index * l + l, o.len() as int));
        }
        a
    }

    /// Returns `true` if this contains no shards.
    pub fn is_empty(&self) -> (r: bool)
        ensures
            r == (self.shard_count == 0),
    {
        self.shard_count == 0
    }

    /// Returns number of shards.
    pub fn len(&self) -> (r: usize)
        ensures
            r == self.shard_count,
    {
        self.shard_count
    }

    /// Returns mutable references to shards at `pos` and `pos + dist`.
    pub fn dist2_mut(&mut self, pos: usize, dist: usize) -> (r: (&mut [[u8; 64]], &mut [[u8; 64]]))
        requires
            old(self).wf(),
            0 < dist,
            pos + dist < old(self).shard_count,
        ensures
            r.0@ == old(self).slot_of(pos as int),
            r.1@ == old(self).slot_of(pos + dist),
            final(self).shard_count == old(self).shard_count,
            final(self).shard_len_64 == old(self).shard_len_64,
            final(self).data@ == spliced2(
                old(self).data@,
                pos * old(self).shard_len_64,
                (pos + dist) * old(self).shard_len_64,
                old(self).shard_len_64 as int,
                final(r.0)@,
                final(r.1)@,
            ),
    {
        let l = self.shard_len_64;
        let total: usize = self.data.len();
        proof {
            lemma_slot_bounds((pos + dist) as int, l as int, self.shard_count as int);
            lemma_slot_bounds(pos as int, l as int, self.shard_count as int);
            assert((pos + dist) * l == pos * l + dist * l) by (nonlinear_arith);
            lemma_mul_le(1, dist as int, l as int);
        }
        pair_mut(self.data, pos * l, dist * l, l)
    }

    /// Returns mutable references to shards at
    /// `pos`, `pos + dist`, `pos + dist * 2` and `pos + dist * 3`.
    #[allow(clippy::type_complexity)]
    pub fn dist4_mut(&mut self, pos: usize, dist: usize) -> (r: (
        &mut [[u8; 64]],
        &mut [[u8; 64]],
        &mut [[u8; 64]],
        &mut [[u8; 64]],
    ))
        requires
            old(self).wf(),
            0 < dist,
            pos + 3 * dist < old(self).shard_count,
        ensures
            r.0@ == old(self).slot_of(pos as int),
            r.1@ == old(self).slot_of(pos + dist),
            r.2@ == old(self).slot_of(pos + 2 * dist),
            r.3@ == old(self).slot_of(pos + 3 * dist),
            final(self).shard_count == old(self).shard_count,
            final(self).shard_len_64 == old(self).shard_len_64,
            final(self).data@ == spliced4(
                old(self).data@,
                pos * old(self).shard_len_64,
                dist * old(self).shard_len_64,
                old(self).shard_len_64 as int,
                final(r.0)@,
                final(r.1)@,
                final(r.2)@,
                final(r.3)@,
            ),
    {
        let l = self.shard_len_64;
        let total: usize = self.data.len();
        proof {
            lemma_slot_bounds((pos + 3 * dist) as int, l as int, self.shard_count as int);
            lemma_slot_bounds((pos + 2 * dist) as int, l as int, self.shard_count as int);
            lemma_slot_bounds((pos + dist) as int, l as int, self.shard_count as int);
            lemma_slot_bounds(pos as int, l as int, self.shard_count as int);
            assert((pos + dist) * l == pos * l + dist * l) by (nonlinear_arith);
            assert((pos + 2 * dist) * l == pos * l + 2 * (dist * l)) by (nonlinear_arith);
            assert((pos + 3 * dist) * l == pos * l + 3 * (dist * l)) by (nonlinear_arith);
            lemma_mul_le(1, dist as int, l as int);
        }
        let p = pos * l;
        let d = dist * l;
        let (lo, hi) = self.data.split_at_mut(p + 2 * d);
        let (a, b) = pair_mut(lo, p, d, l);
        let (c, e) = pair_mut(hi, 0, d, l);
        proof {
            lemma_spliced4(
                old(self).data@,
                p as int,
                d as int,
                l as int,
                final(a)@,
                final(b)@,
                final(c)@,
                final(e)@,
            );
        }
        (a, b, c, e)
    }

    /// Splits this [`ShardsRefMut`] into two so that
    /// first includes shards `0..mid` and second includes shards `mid..`.
    pub fn split_at_mut(&mut self, mid: usize) -> (r: (ShardsRefMut<'_>, ShardsRefMut<'_>))
        requires
            old(self).wf(),
            mid <= old(self).shard_count,
        ensures
            r.0.wf(),
            r.1.wf(),
            r.0.shard_count == mid,
            r.1.shard_count == old(self).shard_count - mid,
            r.0.shard_len_64 == old(self).shard_len_64,
            r.1.shard_len_64 == old(self).shard_len_64,
            r.0.data@ == old(self).data@.subrange(0, mid * old(self).shard_len_64),
            r.1.data@ == old(self).data@.subrange(
                mid * old(self).shard_len_64,
                old(self).data@.len() as int,
            ),
            final(self).shard_count == old(self).shard_count,
            final(self).shard_len_64 == old(self).shard_len_64,
            final(self).data@ == final(r.0.data)@ + final(r.1.data)@,
    {
        let l = self.shard_len_64;
        let total: usize = self.data.len();
        proof {
            lemma_mul_le(mid as int, self.shard_count as int, l as int);
            assert((self.shard_count - mid) * l == self.shard_count * l - mid * l)
                by (nonlinear_arith);
        }
        let count = self.shard_count;
        let (a, b) = self.data.split_at_mut(mid * l);
        (ShardsRefMut::new(mid, l, a), ShardsRefMut::new(count - mid, l, b))
    }

    /// Fills the shards of `range` with `0u8`:s.
    pub fn zero(&mut self, range: core::ops::Range<usize>)
        requires
            old(self).wf(),
            range.start <= range.end <= old(self).shard_count,
        ensures
            final(self).shard_count == old(self).shard_count,
            final(self).shard_len_64 == old(self).shard_len_64,
            final(self).data@.len() == old(self).data@.len(),
            forall|k: int|
                0 <= k < old(self).data@.len() ==> if range.start * old(self).shard_len_64 <= k
                    < range.end * old(self).shard_len_64 {
                    is_zero_chunk(#[trigger] final(self).data@[k])
                } else {
                    final(self).data@[k] == old(self).data@[k]
                },
    {
        let l = self.shard_len_64;
        let total: usize = self.data.len();
        proof {
            lemma_mul_le(range.start as int, range.end as int, l as int);
            lemma_mul_le(range.end as int, self.shard_count as int, l as int);
        }
        let start = range.start * l;
        let end = range.end * l;
        let mut k: usize = start;
        while k < end
            invariant
                self.shard_count == old(self).shard_count,
                self.shard_len_64 == l,
                start == range.start * l,
                end == range.end * l,
                start <= k <= end,
                end <= self.data@.len(),
                self.data@.len() == old(self).data@.len(),
                forall|i: int|
                    0 <= i < old(self).data@.len() ==> if start <= i < k {
                        is_zero_chunk(#[trigger] self.data@[i])
                    } else {
                        self.data@[i] == old(self).data@[i]
                    },
            decreases end - k,
        {
            self.data[k] = [0u8; 64];
            k = k + 1;
        }
    }

    /// Copies shards `src .. src + count` over shards `dest .. dest + count`;
    /// the two ranges may overlap.
    pub fn copy_within(&mut self, src: usize, dest: usize, count: usize)
        requires
            old(self).wf(),
            src + count <= old(self).shard_count,
            dest + count <= old(self).shard_count,
        ensures
            final(self).shard_count == old(self).shard_count,
            final(self).shard_len_64 == old(self).shard_len_64,
            final(self).data@ == spliced(
                old(self).data@,
                dest * old(self).shard_len_64,
                count * old(self).shard_len_64,
                old(self).data@.subrange(
                    src * old(self).shard_len_64,
                    (src + count) * old(self).shard_len_64,
                ),
            ),
    {
        let l = self.shard_len_64;
        let total: usize = self.data.len();
        proof {
            lemma_mul_le((src + count) as int, self.shard_count as int, l as int);
            lemma_mul_le((dest + count) as int, self.shard_count as int, l as int);
            assert((src + count) * l == src * l + count * l) by (nonlinear_arith);
            assert((dest + count) * l == dest * l + count * l) by (nonlinear_arith);
            assert(0 <= src * l && 0 <= dest * l) by (nonlinear_arith);
        }
        let s = src * l;
        let d = dest * l;
        let n = count * l;
        let ghost old_data = self.data@;
        if d <= s {
            let mut i: usize = 0;
            while i < n
                invariant
                    self.shard_count == old(self).shard_count,
                    self.shard_len_64 == l,
                    old_data == old(self).data@,
                    d <= s,
                    total == old_data.len(),
                    s + n <= old_data.len(),
                    d + n <= old_data.len(),
                    i <= n,
                    self.data@.len() == old_data.len(),
                    forall|k: int|
                        0 <= k < old_data.len() ==> #[trigger] self.data@[k] == if d <= k < d + i {
                            old_data[k - d + s]
                        } else {
                            old_data[k]
                        },
                decreases n - i,
            {
                let c = self.data[s + i];
                self.data[d + i] = c;
                i = i + 1;
            }
        } else {
            let mut i: usize = n;
            while i > 0
                invariant
                    self.shard_count == old(self).shard_count,
                    self.shard_len_64 == l,
                    old_data == old(self).data@,
                    s < d,
                    total == old_data.len(),
                    s + n <= old_data.len(),
                    d + n <= old_data.len(),
                    i <= n,
                    self.data@.len() == old_data.len(),
                    forall|k: int|
                        0 <= k < old_data.len() ==> #[trigger] self.data@[k] == if d + i <= k < d
                            + n {
                            old_data[k - d + s]
                        } else {
                            old_data[k]
                        },
                decreases i,
            {
                i = i - 1;
                let c = self.data[s + i];
                self.data[d + i] = c;
            }
        }
        assert(self.data@ =~= spliced(old_data, d as int, n as int, old_data.subrange(s as int, s + n)));
    }

    /// Returns mutable references to the flat chunk ranges of shards
    /// `x .. x + count` and `y .. y + count`, which must not overlap.
    pub fn flat2_mut(&mut self, x: usize, y: usize, count: usize) -> (r: (
        &mut [[u8; 64]],
        &mut [[u8; 64]],
    ))
        requires
            old(self).wf(),
            x + count <= old(self).shard_count,
            y + count <= old(self).shard_count,
            x + count <= y || y + count <= x,
        ensures
            r.0@ == old(self).data@.subrange(
                x * old(self).shard_len_64,
                (x + count) * old(self).shard_len_64,
            ),
            r.1@ == old(self).data@.subrange(
                y * old(self).shard_len_64,
                (y + count) * old(self).shard_len_64,
            ),
            final(self).shard_count == old(self).shard_count,
            final(self).shard_len_64 == old(self).shard_len_64,
            final(self).data@ == if x < y {
                spliced2(
                    old(self).data@,
                    x * old(self).shard_len_64,
                    y * old(self).shard_len_64,
                    count * old(self).shard_len_64,
                    final(r.0)@,
                    final(r.1)@,
                )
            } else {
                spliced2(
                    old(self).data@,
                    y * old(self).shard_len_64,
                    x * old(self).shard_len_64,
                    count * old(self).shard_len_64,
                    final(r.1)@,
                    final(r.0)@,
                )
            },
    {
        let l = self.shard_len_64;
        let total: usize = self.data.len();
        proof {
            lemma_mul_le((x + count) as int, self.shard_count as int, l as int);
            lemma_mul_le((y + count) as int, self.shard_count as int, l as int);
            assert((x + count) * l == x * l + count * l) by (nonlinear_arith);
            assert((y + count) * l == y * l + count * l) by (nonlinear_arith);
            assert(0 <= x * l && 0 <= y * l && 0 <= count * l) by (nonlinear_arith);
            if x < y {
                lemma_mul_le((x + count) as int, y as int, l as int);
            } else {
                lemma_mul_le((y + count) as int, x as int, l as int);
            }
        }
        let xs = x * l;
        let ys = y * l;
        let n = count * l;
        if x < y {
            let (head, tail) = self.data.split_at_mut(ys);
            let (h0, h1) = head.split_at_mut(xs);
            let (h2, h3) = h1.split_at_mut(n);
            let (t1, t2) = tail.split_at_mut(n);
            proof {
                let ghost o = old(self).data@;
                assert(h3@ =~= o.subrange(xs + n, ys as int));
                assert(t2@ =~= o.subrange(ys + n, o.len() as int));
            }
            (h2, t1)
        } else {
            let (head, tail) = self.data.split_at_mut(xs);
            let (h0, h1) = head.split_at_mut(ys);
            let (h2, h3) = h1.split_at_mut(n);
            let (t1, t2) = tail.split_at_mut(n);
            proof {
                let ghost o = old(self).data@;
                assert(h3@ =~= o.subrange(ys + n, xs as int));
                assert(t2@ =~= o.subrange(xs + n, o.len() as int));
            }
            (t1, h2)
        }
    }
}

} // verus!
