use rand::{Rng, SeedableRng};
use rand_chacha::ChaCha8Rng;

use simd_erasure_core::engine::{Shards, ShardsRefMut};
use simd_erasure_core::rate::DecoderWork;
use simd_erasure_core::{DecoderResult, Error, RestoredOriginal};

fn generate_original(count: usize, shard_bytes: usize, seed: u8) -> Vec<Vec<u8>> {
    let mut rng = ChaCha8Rng::from_seed([seed; 32]);
    let mut shards = vec![vec![0u8; shard_bytes]; count];
    for shard in &mut shards {
        rng.fill(shard.as_mut_slice());
    }
    shards
}

// Layout of 3 originals and 2 recoveries: originals at 0, recoveries at 4,
// in a store of 8 shards.
fn decoder_work(shard_size: usize) -> DecoderWork {
    let mut work = DecoderWork::new();
    work.reset(3, 2, shard_size, 0, 4, 8);
    work
}

// Stands in for the transform: writes `shard`, in its stored layout, into
// slot `pos`.
fn restore_by_copy(shards: &mut ShardsRefMut, pos: usize, shard: &[u8]) {
    let mut scratch = Shards::new();
    scratch.resize(1, shards.shard_len_64);
    scratch.insert(0, shard);
    shards.shard_mut(pos).copy_from_slice(scratch.shard(0));
}

fn simple_roundtrip(shard_size: usize) {
    let original = generate_original(3, shard_size, 0);
    let recovery = generate_original(2, shard_size, 1);

    let mut work = decoder_work(shard_size);

    work.add_original_shard(1, &original[1]).unwrap();
    work.add_recovery_shard(0, &recovery[0]).unwrap();
    work.add_recovery_shard(1, &recovery[1]).unwrap();

    {
        let (mut shards, original_count, recovery_count, received) =
            work.decode_begin().unwrap().unwrap();
        assert_eq!((original_count, recovery_count), (3, 2));
        assert!(!received[0] && received[1] && !received[2]);
        assert!(received[4] && received[5]);
        restore_by_copy(&mut shards, 0, &original[0]);
        restore_by_copy(&mut shards, 2, &original[2]);
    }
    work.undo_last_chunk_encoding();

    let result: DecoderResult = DecoderResult::new(&mut work);

    assert_eq!(result.restored_original(0).unwrap(), original[0]);
    assert!(result.restored_original(1).is_none());
    assert_eq!(result.restored_original(2).unwrap(), original[2]);
    assert!(result.restored_original(3).is_none());

    let mut iter: RestoredOriginal = result.restored_original_iter();
    assert_eq!(iter.next(), Some((0, original[0].as_slice())));
    assert_eq!(iter.next(), Some((2, original[2].as_slice())));
    assert_eq!(iter.next(), None);
    assert_eq!(iter.next(), None);
}

#[test]
fn decoder_result() {
    simple_roundtrip(1024);
}

#[test]
fn shard_size_not_divisible_by_64() {
    for shard_size in [2, 4, 6, 30, 32, 34, 62, 64, 66, 126, 128, 130] {
        simple_roundtrip(shard_size);
    }
}

#[test]
fn decoder_result_size_hint() {
    let shard_size = 64;
    let original = generate_original(3, shard_size, 0);
    let recovery = generate_original(2, shard_size, 1);

    let mut work = decoder_work(shard_size);

    work.add_original_shard(1, &original[1]).unwrap();
    work.add_recovery_shard(0, &recovery[0]).unwrap();
    work.add_recovery_shard(1, &recovery[1]).unwrap();

    assert!(work.decode_begin().unwrap().is_some());

    let result: DecoderResult = DecoderResult::new(&mut work);

    let mut iter: RestoredOriginal = result.restored_original_iter();

    assert_eq!(iter.len(), 2);

    assert!(iter.next().is_some());
    assert_eq!(iter.len(), 1);

    assert!(iter.next().is_some());
    assert_eq!(iter.len(), 0);

    assert!(iter.next().is_none());
    assert_eq!(iter.len(), 0);
}

#[test]
fn decoder_result_size_hint_no_missing() {
    let shard_size = 64;
    let original = generate_original(3, shard_size, 0);

    let mut work = decoder_work(shard_size);

    // Add all the original shards
    work.add_original_shard(0, &original[0]).unwrap();
    work.add_original_shard(1, &original[1]).unwrap();
    work.add_original_shard(2, &original[2]).unwrap();

    assert!(work.decode_begin().unwrap().is_none());

    let result: DecoderResult = DecoderResult::new(&mut work);

    let mut iter: RestoredOriginal = result.restored_original_iter();

    assert_eq!(iter.len(), 0);

    assert!(iter.next().is_none());
    assert_eq!(iter.len(), 0);

    assert!(iter.next().is_none());
    assert_eq!(iter.len(), 0);
    assert_eq!(iter.size_hint(), (0, Some(0)));
}

#[test]
fn decoder_not_enough_shards() {
    let mut work = decoder_work(4);
    work.add_original_shard(0, &[1, 2, 3, 4]).unwrap();
    work.add_recovery_shard(1, &[5, 6, 7, 8]).unwrap();
    assert!(matches!(
        work.decode_begin(),
        Err(Error::NotEnoughShards {
            original_count: 3,
            original_received_count: 1,
            recovery_received_count: 1
        })
    ));
}

#[test]
fn decoder_index_and_size_errors() {
    let mut work = decoder_work(4);
    assert_eq!(
        work.add_original_shard(3, &[0; 4]),
        Err(Error::InvalidOriginalShardIndex { original_count: 3, index: 3 })
    );
    assert_eq!(
        work.add_recovery_shard(2, &[0; 4]),
        Err(Error::InvalidRecoveryShardIndex { recovery_count: 2, index: 2 })
    );
    assert_eq!(
        work.add_original_shard(0, &[0; 6]),
        Err(Error::DifferentShardSize { shard_bytes: 4, got: 6 })
    );
    assert_eq!(
        work.add_recovery_shard(0, &[0; 2]),
        Err(Error::DifferentShardSize { shard_bytes: 4, got: 2 })
    );
    assert_eq!(work.add_original_shard(2, &[0; 4]), Ok(()));
    assert_eq!(
        work.add_original_shard(2, &[0; 4]),
        Err(Error::DuplicateOriginalShardIndex { index: 2 })
    );
    assert_eq!(work.add_recovery_shard(1, &[0; 4]), Ok(()));
    assert_eq!(
        work.add_recovery_shard(1, &[0; 4]),
        Err(Error::DuplicateRecoveryShardIndex { index: 1 })
    );
    assert_eq!(work.original_count(), 3);
    assert_eq!(work.missing_original_count(), 2);
}

#[test]
fn decoder_finish_accepts_same_shards_again() {
    let original = generate_original(3, 64, 3);
    let mut work = decoder_work(64);
    for (i, shard) in original.iter().enumerate() {
        work.add_original_shard(i, shard).unwrap();
    }
    let result = DecoderResult::new(&mut work);
    let work = result.finish();
    assert_eq!(work.missing_original_count(), 3);
    for (i, shard) in original.iter().enumerate() {
        assert_eq!(work.add_original_shard(i, shard), Ok(()));
    }
    assert!(work.decode_begin().unwrap().is_none());
}
