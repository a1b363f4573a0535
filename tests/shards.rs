use simd_erasure_core::engine::{Shards, ShardsRefMut};

fn numbered(count: usize) -> Vec<[u8; 64]> {
    (0..count).map(|i| [i as u8; 64]).collect()
}

fn firsts(chunks: &[[u8; 64]]) -> Vec<u8> {
    chunks.iter().map(|c| c[0]).collect()
}

#[test]
fn shards_ref_mut_new_takes_prefix() {
    let mut data = numbered(7);
    let shards = ShardsRefMut::new(3, 2, &mut data);
    assert_eq!(shards.len(), 3);
    assert!(!shards.is_empty());
    assert_eq!(firsts(shards.shard(2)), vec![4, 5]);
    let mut empty: Vec<[u8; 64]> = Vec::new();
    assert!(ShardsRefMut::new(0, 2, &mut empty).is_empty());
}

#[test]
fn shards_ref_mut_dist2() {
    let mut data = numbered(8);
    let mut shards = ShardsRefMut::new(4, 2, &mut data);
    let (a, b) = shards.dist2_mut(1, 2);
    assert_eq!(firsts(a), vec![2, 3]);
    assert_eq!(firsts(b), vec![6, 7]);
    a[0][0] = 100;
    b[1][0] = 200;
    assert_eq!(firsts(&data), vec![0, 1, 100, 3, 4, 5, 6, 200]);
}

#[test]
fn shards_ref_mut_dist4() {
    let mut data = numbered(9);
    let mut shards = ShardsRefMut::new(9, 1, &mut data);
    let (a, b, c, d) = shards.dist4_mut(1, 2);
    assert_eq!((a[0][0], b[0][0], c[0][0], d[0][0]), (1, 3, 5, 7));
    a[0][0] = 10;
    d[0][0] = 70;
    assert_eq!(firsts(&data), vec![0, 10, 2, 3, 4, 5, 6, 70, 8]);
}

#[test]
fn shards_ref_mut_split_at() {
    let mut data = numbered(6);
    let mut shards = ShardsRefMut::new(3, 2, &mut data);
    let (mut lo, hi) = shards.split_at_mut(1);
    assert_eq!(lo.len(), 1);
    assert_eq!(hi.len(), 2);
    assert_eq!(firsts(hi.shard(0)), vec![2, 3]);
    lo.shard_mut(0)[1][0] = 42;
    assert_eq!(firsts(&data), vec![0, 42, 2, 3, 4, 5]);
}

#[test]
fn shards_ref_mut_zero_range() {
    let mut data = numbered(8);
    let mut shards = ShardsRefMut::new(4, 2, &mut data);
    shards.zero(1..3);
    assert_eq!(firsts(&data), vec![0, 1, 0, 0, 0, 0, 6, 7]);
    assert!(data[3].iter().all(|b| *b == 0));
}

#[test]
fn shards_ref_mut_copy_within_overlapping() {
    let mut data = numbered(5);
    let mut shards = ShardsRefMut::new(5, 1, &mut data);
    shards.copy_within(0, 1, 3);
    assert_eq!(firsts(&data), vec![0, 0, 1, 2, 4]);

    let mut data = numbered(5);
    let mut shards = ShardsRefMut::new(5, 1, &mut data);
    shards.copy_within(2, 0, 3);
    assert_eq!(firsts(&data), vec![2, 3, 4, 3, 4]);
}

#[test]
fn shards_ref_mut_flat2() {
    let mut data = numbered(6);
    let mut shards = ShardsRefMut::new(6, 1, &mut data);
    let (x, y) = shards.flat2_mut(4, 0, 2);
    assert_eq!(firsts(x), vec![4, 5]);
    assert_eq!(firsts(y), vec![0, 1]);
    x[1][0] = 50;
    y[0][0] = 9;
    assert_eq!(firsts(&data), vec![9, 1, 2, 3, 4, 50]);
}

#[test]
fn shards_resize_keeps_and_zeroes() {
    let mut shards = Shards::new();
    shards.resize(2, 1);
    shards.insert(1, &[7; 64]);
    shards.resize(3, 1);
    assert_eq!(shards.shard(1)[0], [7; 64]);
    assert_eq!(shards.shard(2)[0], [0; 64]);
}

#[test]
fn shards_insert_splits_tail() {
    let shard: Vec<u8> = (1..=70).collect();
    let mut shards = Shards::new();
    shards.resize(2, 2);
    shards.insert(1, &shard);
    let chunks = shards.shard(1);
    assert_eq!(chunks[0].to_vec(), shard[..64].to_vec());
    assert_eq!(chunks[1][..3], [65, 66, 67]);
    assert_eq!(chunks[1][32..35], [68, 69, 70]);
    assert_eq!(chunks[1][3], 0);
    assert_eq!(shards.shard(0), &[[0u8; 64]; 2]);
}

#[test]
fn shards_undo_moves_tail_back() {
    for len in [2usize, 30, 34, 62, 64, 66, 126, 130] {
        let shard: Vec<u8> = (0..len).map(|i| (i * 7 + 1) as u8).collect();
        let mut shards = Shards::new();
        shards.resize(3, 3);
        shards.insert(1, &shard);
        shards.undo_last_chunk_encoding(len, 1..2);
        assert_eq!(shards.shard_prefix(1, len), shard.as_slice());
        let mut all = shards.as_ref_mut();
        assert_eq!(all.len(), 3);
        assert!(all.shard_mut(0).iter().all(|c| *c == [0u8; 64]));
    }
}
