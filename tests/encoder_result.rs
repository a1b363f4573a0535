use rand::{Rng, SeedableRng};
use rand_chacha::ChaCha8Rng;

use simd_erasure_core::rate::EncoderWork;
use simd_erasure_core::{EncoderResult, Recovery};

fn generate_original(count: usize, shard_bytes: usize, seed: u8) -> Vec<Vec<u8>> {
    let mut rng = ChaCha8Rng::from_seed([seed; 32]);
    let mut shards = vec![vec![0u8; shard_bytes]; count];
    for shard in &mut shards {
        rng.fill(shard.as_mut_slice());
    }
    shards
}

// Work of 2 originals and 3 recoveries of 1024 bytes in a store of 8
// shards; the originals are stored in slots 0 and 1.
fn encoded_work(original: &[Vec<u8>]) -> EncoderWork {
    let mut work = EncoderWork::new();
    work.reset(2, 3, 1024, 8);
    for original in original {
        work.add_original_shard(original).unwrap();
    }
    {
        let (shards, original_count, recovery_count) = work.encode_begin().unwrap();
        assert_eq!(shards.len(), 8);
        assert_eq!(original_count, 2);
        assert_eq!(recovery_count, 3);
    }
    work.undo_last_chunk_encoding();
    work
}

#[test]
fn encoder_result() {
    let original = generate_original(2, 1024, 123);
    let mut work = encoded_work(&original);
    let result: EncoderResult = EncoderResult::new(&mut work);

    // No transform ran: the recovery slots hold what the store holds there.
    let expected: Vec<&[u8]> = vec![&original[0], &original[1], &[0u8; 1024]];

    let mut all = Vec::new();
    all.push(result.recovery(0).unwrap());
    all.push(result.recovery(1).unwrap());
    all.push(result.recovery(2).unwrap());
    assert!(result.recovery(3).is_none());
    assert_eq!(all, expected);

    let mut iter: Recovery = result.recovery_iter();
    let mut all = Vec::new();
    all.push(iter.next().unwrap());
    all.push(iter.next().unwrap());
    all.push(iter.next().unwrap());
    assert!(iter.next().is_none());
    assert_eq!(all, expected);
}

#[test]
fn encoder_result_size_hint() {
    let original = generate_original(2, 1024, 123);
    let mut work = encoded_work(&original);
    let result: EncoderResult = EncoderResult::new(&mut work);

    let mut iter: Recovery = result.recovery_iter();

    assert_eq!(iter.len(), 3);

    assert!(iter.next().is_some());
    assert!(iter.next().is_some());
    assert_eq!(iter.len(), 1);

    assert!(iter.next().is_some());
    assert_eq!(iter.len(), 0);

    assert!(iter.next().is_none());
    assert_eq!(iter.len(), 0);
    assert_eq!(iter.size_hint(), (0, Some(0)));
}

#[test]
fn encoder_finish_accepts_new_round() {
    let original = generate_original(2, 1024, 7);
    let mut work = encoded_work(&original);
    let result = EncoderResult::new(&mut work);
    let work = result.finish();
    for original in &original {
        work.add_original_shard(original).unwrap();
    }
    assert!(work.encode_begin().is_ok());
}

#[test]
fn encoder_too_many_original_shards() {
    let mut work = EncoderWork::new();
    work.reset(1, 1, 4, 2);
    assert_eq!(work.add_original_shard(&[1, 2, 3, 4]), Ok(()));
    assert_eq!(
        work.add_original_shard(&[1, 2, 3, 4]),
        Err(simd_erasure_core::Error::TooManyOriginalShards { original_count: 1 })
    );
}

#[test]
fn encoder_different_shard_size() {
    let mut work = EncoderWork::new();
    work.reset(2, 1, 4, 4);
    assert_eq!(
        work.add_original_shard(&[1, 2]),
        Err(simd_erasure_core::Error::DifferentShardSize { shard_bytes: 4, got: 2 })
    );
}

#[test]
fn encoder_too_few_original_shards() {
    let mut work = EncoderWork::new();
    work.reset(2, 1, 4, 4);
    work.add_original_shard(&[1, 2, 3, 4]).unwrap();
    assert!(matches!(
        work.encode_begin(),
        Err(simd_erasure_core::Error::TooFewOriginalShards {
            original_count: 2,
            original_received_count: 1
        })
    ));
}

#[test]
fn encoder_recovery_unsplits_tail() {
    // 66 bytes: one whole chunk and a 2-byte tail, split at offsets 0 and 32.
    let shard: Vec<u8> = (0..66).map(|i| i as u8).collect();
    let mut work = EncoderWork::new();
    work.reset(1, 1, 66, 2);
    work.add_original_shard(&shard).unwrap();
    {
        let (shards, _, _) = work.encode_begin().unwrap();
        let chunks = shards.shard(0);
        assert_eq!(chunks.len(), 2);
        assert_eq!(chunks[1][0], 64);
        assert_eq!(chunks[1][32], 65);
        assert_eq!(chunks[1][1], 0);
    }
    work.undo_last_chunk_encoding();
    assert_eq!(work.recovery_count(), 1);
    let result = EncoderResult::new(&mut work);
    assert_eq!(result.recovery(0).unwrap(), shard.as_slice());
}
