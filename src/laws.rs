//! Facts about routed operations, stated over the models that the router's
//! operations are specified with: `put_shards`, `delete_shards` and `lookup`.

use vstd::prelude::*;

use crate::router::{delete_shards, lookup, put_shards, shard_index};
use crate::shard::ShardMap;

verus! {

/// The shard that owns a key is fixed by the key and the shard count alone:
/// it lies among the shards, and no put or delete, on any key, moves it.
pub proof fn lemma_routing_is_stable(
    shards: Seq<ShardMap>,
    key: Seq<char>,
    other: Seq<char>,
    value: Seq<char>,
)
    requires
        shards.len() > 0,
    ensures
        shard_index(key, shards.len()) < shards.len(),
        shard_index(key, put_shards(shards, other, value).len()) == shard_index(key, shards.len()),
        shard_index(key, delete_shards(shards, other).len()) == shard_index(key, shards.len()),
{
}

/// Operations on one key leave every shard but the key's own untouched, so a
/// key owned by another shard reads the same afterwards.
pub proof fn lemma_routing_partition(
    shards: Seq<ShardMap>,
    k1: Seq<char>,
    k2: Seq<char>,
    value: Seq<char>,
)
    requires
        shards.len() > 0,
        shard_index(k1, shards.len()) != shard_index(k2, shards.len()),
    ensures
        forall|i: int|
            0 <= i < shards.len() && i != shard_index(k1, shards.len()) ==> #[trigger] put_shards(
                shards,
                k1,
                value,
            )[i] == shards[i] && delete_shards(shards, k1)[i] == shards[i],
        put_shards(shards, k1, value)[shard_index(k2, shards.len()) as int] == shards[shard_index(
            k2,
            shards.len(),
        ) as int],
        delete_shards(shards, k1)[shard_index(k2, shards.len()) as int] == shards[shard_index(
            k2,
            shards.len(),
        ) as int],
        lookup(put_shards(shards, k1, value), k2) == lookup(shards, k2),
        lookup(delete_shards(shards, k1), k2) == lookup(shards, k2),
{
}

/// A get after a put of the same key returns the value put.
pub proof fn lemma_put_then_get(shards: Seq<ShardMap>, key: Seq<char>, value: Seq<char>)
    requires
        shards.len() > 0,
    ensures
        lookup(put_shards(shards, key, value), key) == Some(value),
{
}

/// Of two puts of the same key, the later one wins.
pub proof fn lemma_overwrite(
    shards: Seq<ShardMap>,
    key: Seq<char>,
    v1: Seq<char>,
    v2: Seq<char>,
)
    requires
        shards.len() > 0,
    ensures
        lookup(put_shards(put_shards(shards, key, v1), key, v2), key) == Some(v2),
        put_shards(put_shards(shards, key, v1), key, v2) == put_shards(shards, key, v2),
{
    let i = shard_index(key, shards.len()) as int;
    assert(shards[i].insert(key, v1).insert(key, v2) =~= shards[i].insert(key, v2));
    assert(put_shards(put_shards(shards, key, v1), key, v2) =~= put_shards(shards, key, v2));
}

/// Deleting an absent key changes nothing, and deleting a key twice leaves
/// the same state as deleting it once.
pub proof fn lemma_delete_idempotent(shards: Seq<ShardMap>, key: Seq<char>)
    requires
        shards.len() > 0,
    ensures
        lookup(shards, key) is None ==> delete_shards(shards, key) == shards,
        delete_shards(delete_shards(shards, key), key) == delete_shards(shards, key),
{
    let i = shard_index(key, shards.len()) as int;
    if lookup(shards, key) is None {
        assert(shards[i].remove(key) =~= shards[i]);
        assert(delete_shards(shards, key) =~= shards);
    }
    assert(shards[i].remove(key).remove(key) =~= shards[i].remove(key));
    assert(delete_shards(delete_shards(shards, key), key) =~= delete_shards(shards, key));
}

/// A key reads as absent once it has been deleted, and in a store whose
/// shards are all empty.
pub proof fn lemma_absent(shards: Seq<ShardMap>, key: Seq<char>)
    requires
        shards.len() > 0,
    ensures
        lookup(delete_shards(shards, key), key) is None,
        (forall|i: int| 0 <= i < shards.len() ==> #[trigger] shards[i] == ShardMap::empty())
            ==> lookup(shards, key) is None,
{
    let i = shard_index(key, shards.len()) as int;
    assert(shards[i] == ShardMap::empty() ==> !shards[i].contains_key(key));
}

} // verus!
