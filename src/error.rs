use vstd::prelude::*;

verus! {

/// Represents all possible errors that can occur in this library.
#[derive(Clone, Copy, Debug, PartialEq, Eq)]
pub enum Error {
    /// Given shard has different size than given or inferred shard size.
    DifferentShardSize { shard_bytes: usize, got: usize },
    /// Decoder was given two original shards with same index.
    DuplicateOriginalShardIndex { index: usize },
    /// Decoder was given two recovery shards with same index.
    DuplicateRecoveryShardIndex { index: usize },
    /// Decoder was given original shard with invalid index.
    InvalidOriginalShardIndex { original_count: usize, index: usize },
    /// Decoder was given recovery shard with invalid index.
    InvalidRecoveryShardIndex { recovery_count: usize, index: usize },
    /// Shard size is zero, odd, or too large.
    InvalidShardSize { shard_bytes: usize },
    /// Decoder was given too few shards to restore the originals.
    NotEnoughShards {
        original_count: usize,
        original_received_count: usize,
        recovery_received_count: usize,
    },
    /// Encoder was given fewer original shards than it expects.
    TooFewOriginalShards { original_count: usize, original_received_count: usize },
    /// Encoder was given more original shards than it expects.
    TooManyOriginalShards { original_count: usize },
    /// No rate supports the given original and recovery counts.
    UnsupportedShardCount { original_count: usize, recovery_count: usize },
}

} // verus!
