use std::hash::{DefaultHasher, Hash, Hasher};

use kv_store::{index_for_hash, shard_for_key, DistributedKeyValueStore, KeyValueStore, RouterError};

fn s(text: &str) -> String {
    text.to_string()
}

fn router(n: usize) -> DistributedKeyValueStore {
    let mut shards = Vec::new();
    for _ in 0..n {
        shards.push(KeyValueStore::new());
    }
    DistributedKeyValueStore::new(shards).unwrap()
}

fn std_hash(key: &str) -> u64 {
    let mut hasher = DefaultHasher::new();
    s(key).hash(&mut hasher);
    hasher.finish()
}

/// The indices of the shards that hold `key`.
fn holders(store: &DistributedKeyValueStore, key: &str) -> Vec<usize> {
    let mut found = Vec::new();
    for i in 0..store.shard_count() {
        if store.shard(i).get(s(key)).is_some() {
            found.push(i);
        }
    }
    found
}

#[test]
fn shard_put_then_get() {
    let mut shard = KeyValueStore::new();
    shard.put(s("k"), s("v"));
    assert_eq!(shard.get(s("k")), Some(s("v")));
}

#[test]
fn shard_overwrite_keeps_last_value() {
    let mut shard = KeyValueStore::new();
    shard.put(s("k"), s("v1"));
    shard.put(s("k"), s("v2"));
    assert_eq!(shard.get(s("k")), Some(s("v2")));
}

#[test]
fn shard_get_absent_key() {
    let shard = KeyValueStore::new();
    assert_eq!(shard.get(s("missing")), None);
}

#[test]
fn shard_delete_absent_is_noop() {
    let mut shard = KeyValueStore::new();
    shard.put(s("a"), s("1"));
    shard.delete(s("b"));
    assert_eq!(shard.get(s("a")), Some(s("1")));
    assert_eq!(shard.get(s("b")), None);
}

#[test]
fn shard_delete_twice_same_as_once() {
    let mut shard = KeyValueStore::new();
    shard.put(s("a"), s("1"));
    shard.put(s("b"), s("2"));
    shard.delete(s("a"));
    assert_eq!(shard.get(s("a")), None);
    assert_eq!(shard.get(s("b")), Some(s("2")));
    shard.delete(s("a"));
    assert_eq!(shard.get(s("a")), None);
    assert_eq!(shard.get(s("b")), Some(s("2")));
}

#[test]
fn shard_keeps_other_keys_after_middle_delete() {
    let mut shard = KeyValueStore::new();
    shard.put(s("a"), s("1"));
    shard.put(s("b"), s("2"));
    shard.put(s("c"), s("3"));
    shard.delete(s("b"));
    shard.put(s("a"), s("10"));
    assert_eq!(shard.get(s("a")), Some(s("10")));
    assert_eq!(shard.get(s("b")), None);
    assert_eq!(shard.get(s("c")), Some(s("3")));
}

#[test]
fn shard_empty_key_and_value() {
    let mut shard = KeyValueStore::new();
    shard.put(s(""), s(""));
    assert_eq!(shard.get(s("")), Some(s("")));
    shard.delete(s(""));
    assert_eq!(shard.get(s("")), None);
}

#[test]
fn router_rejects_no_shards() {
    let r = DistributedKeyValueStore::new(Vec::new());
    assert_eq!(r.err(), Some(RouterError::NoShards));
}

#[test]
fn router_keeps_shard_count() {
    let store = router(3);
    assert_eq!(store.shard_count(), 3);
}

#[test]
fn index_for_hash_is_hash_mod_count() {
    assert_eq!(index_for_hash(10, 4), 2);
    assert_eq!(index_for_hash(7, 1), 0);
    assert_eq!(index_for_hash(u64::MAX, 10), 5);
    assert_eq!(index_for_hash(0, 5), 0);
}

#[test]
fn shard_for_key_uses_default_hasher() {
    for key in ["alpha", "beta", "", "some longer key"] {
        let expected = (std_hash(key) % 7) as usize;
        assert_eq!(shard_for_key(&s(key), 7), expected);
    }
    let distinct: Vec<usize> = (0..32).map(|i| shard_for_key(&format!("key{}", i), 1000)).collect();
    assert!(distinct.iter().any(|&i| i != distinct[0]));
}

#[test]
fn select_shard_is_deterministic() {
    let mut store = router(5);
    let first = store.get_server_for_key(&s("alpha"));
    assert!(first < 5);
    store.put(s("beta"), s("2"));
    store.delete(s("gamma"));
    assert_eq!(store.get_server_for_key(&s("alpha")), first);
    assert_eq!(store.get_server_for_key(&s("alpha")), first);
    assert_eq!(first, shard_for_key(&s("alpha"), 5));
}

#[test]
fn router_round_trip_and_overwrite() {
    let mut store = router(3);
    store.put(s("k"), s("v1"));
    assert_eq!(store.get(s("k")), Some(s("v1")));
    store.put(s("k"), s("v2"));
    assert_eq!(store.get(s("k")), Some(s("v2")));
    assert_eq!(holders(&store, "k"), vec![store.get_server_for_key(&s("k"))]);
}

#[test]
fn router_absent_and_delete_idempotent() {
    let mut store = router(3);
    assert_eq!(store.get(s("never")), None);
    store.delete(s("never"));
    assert_eq!(store.get(s("never")), None);
    store.put(s("k"), s("v"));
    store.delete(s("k"));
    assert_eq!(store.get(s("k")), None);
    store.delete(s("k"));
    assert_eq!(store.get(s("k")), None);
    assert!(holders(&store, "k").is_empty());
}

#[test]
fn router_partition_leaves_other_shard_alone() {
    let mut store = router(4);
    let k1 = s("alpha");
    let i1 = store.get_server_for_key(&k1);
    let mut k2 = s("k0");
    let mut n = 0;
    while store.get_server_for_key(&k2) == i1 {
        n += 1;
        k2 = format!("k{}", n);
    }
    let i2 = store.get_server_for_key(&k2);
    store.put(k2.clone(), s("other"));
    store.put(k1.clone(), s("x"));
    store.delete(k1.clone());
    store.put(k1.clone(), s("y"));
    assert_eq!(store.get(k2.clone()), Some(s("other")));
    assert_eq!(store.shard(i2).get(k1.clone()), None);
    assert_eq!(store.shard(i1).get(k2), None);
}

#[test]
fn four_shard_scenario() {
    let mut store = router(4);
    let alpha = store.get_server_for_key(&s("alpha"));
    let beta = store.get_server_for_key(&s("beta"));
    assert_eq!(alpha, (std_hash("alpha") % 4) as usize);
    assert_eq!(beta, (std_hash("beta") % 4) as usize);

    store.put(s("alpha"), s("1"));
    assert_eq!(holders(&store, "alpha"), vec![alpha]);
    store.put(s("beta"), s("2"));
    assert_eq!(holders(&store, "beta"), vec![beta]);
    store.delete(s("alpha"));
    assert!(holders(&store, "alpha").is_empty());

    assert_eq!(store.get(s("alpha")), None);
    assert_eq!(store.get(s("beta")), Some(s("2")));
    assert_eq!(store.shard(beta).get(s("beta")), Some(s("2")));
}

#[test]
fn into_shards_returns_contents_in_order() {
    let mut store = router(2);
    store.put(s("alpha"), s("1"));
    let owner = store.get_server_for_key(&s("alpha"));
    let shards = store.into_shards();
    assert_eq!(shards.len(), 2);
    assert_eq!(shards[owner].get(s("alpha")), Some(s("1")));
    assert_eq!(shards[1 - owner].get(s("alpha")), None);
}
