//! An in-memory key-value store partitioned over a fixed set of shards.
//!
//! A [`KeyValueStore`] is one shard: a map from string keys to string values.
//! A [`DistributedKeyValueStore`] owns a non-empty, fixed list of shards and
//! forwards every operation on a key to the single shard that the key's hash
//! selects (`hash(key) mod N`). This is plain modulo hashing, not consistent
//! hashing: a different shard count places nearly every key elsewhere.
//!
//! Mutation takes `&mut self`, so the borrow checker gives each operation
//! exclusive access to the shard it touches; callers that share a store
//! between threads put each shard behind a lock of their own.

pub mod laws;
pub mod router;
pub mod shard;

pub use router::{index_for_hash, shard_for_key, DistributedKeyValueStore, RouterError};
pub use shard::KeyValueStore;
