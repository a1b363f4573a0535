//! Shard store shared by the transforms.

pub mod shards;

pub use shards::{Shards, ShardsRefMut};
