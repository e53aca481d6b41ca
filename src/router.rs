use vstd::prelude::*;

use crate::shard::{KeyValueStore, ShardMap};

verus! {

/// The 64-bit hash of a key's text under std's `DefaultHasher`.
pub uninterp spec fn default_hash(key: Seq<char>) -> u64;

/// Relies on std's `BuildHasher::hash_one` over `BuildHasherDefault<DefaultHasher>`:
/// it feeds the string to a fresh `DefaultHasher::new()` and returns `finish()`.
/// Every `DefaultHasher::new()` starts from the same fixed state, so the hash
/// depends on the key's text alone.
#[verifier::external_body]
fn hash_key(key: &String) -> (r: u64)
    ensures
        r == default_hash(key@),
{
    let builder = std::hash::BuildHasherDefault::<std::hash::DefaultHasher>::default();
    std::hash::BuildHasher::hash_one(&builder, key)
}

/// The index of the shard that owns `key` among `n` shards: `hash(key) mod n`.
pub open spec fn shard_index(key: Seq<char>, n: nat) -> nat {
    (default_hash(key) as nat) % n
}

/// The shard index that a key with hash `hash` gets among `shard_count` shards.
pub fn index_for_hash(hash: u64, shard_count: usize) -> (r: usize)
    requires
        shard_count > 0,
    ensures
        r as nat == (hash as nat) % (shard_count as nat),
        r < shard_count,
{
    (hash % (shard_count as u64)) as usize
}

/// The index of the shard that owns `key` among `shard_count` shards.
pub fn shard_for_key(key: &String, shard_count: usize) -> (r: usize)
    requires
        shard_count > 0,
    ensures
        r as nat == shard_index(key@, shard_count as nat),
        r < shard_count,
{
    let h = hash_key(key);
    index_for_hash(h, shard_count)
}

/// What `key` reads as across `shards`: the value held for it by the shard
/// that owns it, or `None`.
pub open spec fn lookup(shards: Seq<ShardMap>, key: Seq<char>) -> Option<Seq<char>> {
    let m = shards[shard_index(key, shards.len()) as int];
    if m.contains_key(key) {
        Some(m[key])
    } else {
        None
    }
}

/// `shards` after storing `value` under `key` in the shard that owns `key`.
pub open spec fn put_shards(shards: Seq<ShardMap>, key: Seq<char>, value: Seq<char>) -> Seq<
    ShardMap,
> {
    let i = shard_index(key, shards.len()) as int;
    shards.update(i, shards[i].insert(key, value))
}

/// `shards` after removing `key` from the shard that owns `key`.
pub open spec fn delete_shards(shards: Seq<ShardMap>, key: Seq<char>) -> Seq<ShardMap> {
    let i = shard_index(key, shards.len()) as int;
    shards.update(i, shards[i].remove(key))
}

/// Why a router could not be built.
#[derive(Clone, Copy, Debug, PartialEq, Eq, Structural)]
pub enum RouterError {
    /// The list of shards was empty, so no key could have an owner.
    NoShards,
}

/// A router over a fixed, non-empty list of shards.
///
/// Each key belongs to the shard at index `hash(key) mod N`, and every
/// operation on the key goes to that shard alone.
pub struct DistributedKeyValueStore {
    servers: Vec<KeyValueStore>,
}

impl View for DistributedKeyValueStore {
    type V = Seq<ShardMap>;

    /// The contents of each shard, in order.
    closed spec fn view(&self) -> Seq<ShardMap> {
        self.servers@.map_values(|s: KeyValueStore| s@)
    }
}

impl DistributedKeyValueStore {
    /// There is at least one shard, and each shard is well formed.
    pub closed spec fn wf(&self) -> bool {
        &&& self.servers@.len() > 0
        &&& forall|i: int| 0 <= i < self.servers@.len() ==> (#[trigger] self.servers@[i]).wf()
    }

    /// A router over `servers`, in the given order; an error when there are none.
    pub fn new(servers: Vec<KeyValueStore>) -> (r: Result<DistributedKeyValueStore, RouterError>)
        requires
            forall|i: int| 0 <= i < servers@.len() ==> (#[trigger] servers@[i]).wf(),
        ensures
            match r {
                Ok(store) => {
                    &&& servers@.len() > 0
                    &&& store.wf()
                    &&& store@ == servers@.map_values(|s: KeyValueStore| s@)
                },
                Err(e) => servers@.len() == 0 && e == RouterError::NoShards,
            },
    {
        if servers.len() == 0 {
            Err(RouterError::NoShards)
        } else {
            Ok(DistributedKeyValueStore { servers })
        }
    }

    /// The number of shards.
    pub fn shard_count(&self) -> (r: usize)
        requires
            self.wf(),
        ensures
            r == self@.len(),
            r > 0,
    {
        self.servers.len()
    }

    /// The index of the shard that owns `key`.
    pub fn get_server_for_key(&self, key: &String) -> (r: usize)
        requires
            self.wf(),
        ensures
            r as nat == shard_index(key@, self@.len()),
            r < self@.len(),
    {
        shard_for_key(key, self.servers.len())
    }

    /// The shard at index `i`.
    pub fn shard(&self, i: usize) -> (r: &KeyValueStore)
        requires
            self.wf(),
            i < self@.len(),
        ensures
            r.wf(),
            r@ == self@[i as int],
    {
        &self.servers[i]
    }

    /// Stores `value` under `key` in the shard that owns `key`.
    pub fn put(&mut self, key: String, value: String)
        requires
            old(self).wf(),
        ensures
            final(self).wf(),
            final(self)@ == put_shards(old(self)@, key@, value@),
    {
        let i = self.get_server_for_key(&key);
        self.servers[i].put(key, value);
        assert(self@ =~= put_shards(old(self)@, key@, value@));
    }

    /// The value of `key` in the shard that owns it, or `None`.
    pub fn get(&self, key: String) -> (r: Option<String>)
        requires
            self.wf(),
        ensures
            r.deep_view() == lookup(self@, key@),
    {
        let i = self.get_server_for_key(&key);
        self.servers[i].get(key)
    }

    /// Removes `key` from the shard that owns it; does nothing when it is absent.
    pub fn delete(&mut self, key: String)
        requires
            old(self).wf(),
        ensures
            final(self).wf(),
            final(self)@ == delete_shards(old(self)@, key@),
    {
        let i = self.get_server_for_key(&key);
        self.servers[i].delete(key);
        assert(self@ =~= delete_shards(old(self)@, key@));
    }

    /// The shards, in order, handed back to the caller.
    pub fn into_shards(self) -> (r: Vec<KeyValueStore>)
        requires
            self.wf(),
        ensures
            r@.len() > 0,
            r@.map_values(|s: KeyValueStore| s@) == self@,
            forall|i: int| 0 <= i < r@.len() ==> (#[trigger] r@[i]).wf(),
    {
        self.servers
    }
}

} // verus!
