use vstd::prelude::*;

verus! {

/// The contents of one shard, as a mathematical map from key to value.
pub type ShardMap = Map<Seq<char>, Seq<char>>;

/// Some entry of `s` has key `k`.
pub open spec fn has_key(s: Seq<(String, String)>, k: Seq<char>) -> bool {
    exists|i: int| #![trigger s[i]] 0 <= i < s.len() && s[i].0@ == k
}

/// No two entries of `s` share a key.
pub open spec fn keys_unique(s: Seq<(String, String)>) -> bool {
    forall|i: int, j: int|
        #![trigger s[i], s[j]]
        0 <= i < s.len() && 0 <= j < s.len() && s[i].0@ == s[j].0@ ==> i == j
}

/// The map that a list of entries with unique keys stands for.
pub open spec fn entries_map(s: Seq<(String, String)>) -> ShardMap {
    Map::new(
        |k: Seq<char>| has_key(s, k),
        |k: Seq<char>| s[choose|i: int| 0 <= i < s.len() && s[i].0@ == k].1@,
    )
}

/// Every entry of a list with unique keys is what the map holds for its key.
proof fn lemma_entries_map_values(s: Seq<(String, String)>)
    requires
        keys_unique(s),
    ensures
        forall|i: int|
            #![trigger s[i]]
            0 <= i < s.len() ==> entries_map(s).contains_key(s[i].0@) && entries_map(s)[s[i].0@]
                == s[i].1@,
{
    assert forall|i: int| #![trigger s[i]] 0 <= i < s.len() implies entries_map(s).contains_key(
        s[i].0@,
    ) && entries_map(s)[s[i].0@] == s[i].1@ by {
        let k = s[i].0@;
        assert(has_key(s, k));
        let j = choose|j: int| 0 <= j < s.len() && s[j].0@ == k;
        assert(s[j].0@ == s[i].0@);
    }
}

/// A list with unique keys stands for `m` when it has exactly `m`'s keys and
/// every entry agrees with `m`.
proof fn lemma_entries_map_equal(s: Seq<(String, String)>, m: ShardMap)
    requires
        keys_unique(s),
        forall|k: Seq<char>| #[trigger] m.contains_key(k) <==> has_key(s, k),
        forall|i: int| #![trigger s[i]] 0 <= i < s.len() ==> m[s[i].0@] == s[i].1@,
    ensures
        entries_map(s) == m,
{
    lemma_entries_map_values(s);
    assert forall|k: Seq<char>| #[trigger] m.contains_key(k) implies entries_map(s)[k] == m[k] by {
        assert(has_key(s, k));
        let i = choose|i: int| 0 <= i < s.len() && s[i].0@ == k;
        assert(s[i].0@ == k);
    }
    assert(entries_map(s) =~= m);
}

/// One shard: a map from string keys to string values.
///
/// Entries are kept in a list whose keys are unique; their order carries no
/// meaning.
pub struct KeyValueStore {
    entries: Vec<(String, String)>,
}

impl View for KeyValueStore {
    type V = ShardMap;

    closed spec fn view(&self) -> ShardMap {
        entries_map(self.entries@)
    }
}

impl KeyValueStore {
    /// The entries' keys are unique.
    pub closed spec fn wf(&self) -> bool {
        keys_unique(self.entries@)
    }

    /// An empty shard.
    pub fn new() -> (r: KeyValueStore)
        ensures
            r.wf(),
            r@ == ShardMap::empty(),
    {
        let r = KeyValueStore { entries: Vec::new() };
        assert(r@ =~= ShardMap::empty());
        r
    }

    /// The position of the entry with key `key`, if there is one.
    fn find(&self, key: &String) -> (r: Option<usize>)
        ensures
            match r {
                Some(i) => i < self.entries@.len() && self.entries@[i as int].0@ == key@,
                None => !has_key(self.entries@, key@),
            },
    {
        let mut i: usize = 0;
        while i < self.entries.len()
            invariant
                i <= self.entries@.len(),
                forall|j: int| #![trigger self.entries@[j]] 0 <= j < i ==> self.entries@[j].0@ != key@,
            decreases self.entries@.len() - i,
        {
            if self.entries[i].0 == *key {
                return Some(i);
            }
            i += 1;
        }
        None
    }

    /// Stores `value` under `key`, replacing any value the key had.
    pub fn put(&mut self, key: String, value: String)
        requires
            old(self).wf(),
        ensures
            final(self).wf(),
            final(self)@ == old(self)@.insert(key@, value@),
    {
        let ghost s0 = self.entries@;
        let ghost k = key@;
        let ghost v = value@;
        proof {
            lemma_entries_map_values(s0);
        }
        match self.find(&key) {
            Some(i) => {
                proof {
                    let s1 = s0.update(i as int, (key, value));
                    assert forall|a: int, b: int|
                        #![trigger s1[a], s1[b]]
                        0 <= a < s1.len() && 0 <= b < s1.len() && s1[a].0@ == s1[b].0@ implies a
                        == b by {
                        assert(s0[a].0@ == s1[a].0@);
                        assert(s0[b].0@ == s1[b].0@);
                    }
                }
                self.entries.set(i, (key, value));
                proof {
                    let s1 = self.entries@;
                    let m = entries_map(s0).insert(k, v);
                    assert forall|x: Seq<char>| #[trigger] m.contains_key(x) <==> has_key(s1, x) by {
                        if has_key(s1, x) {
                            let j = choose|j: int| 0 <= j < s1.len() && s1[j].0@ == x;
                            if j != i {
                                assert(s0[j].0@ == x);
                            }
                        }
                        if has_key(s0, x) {
                            let j = choose|j: int| 0 <= j < s0.len() && s0[j].0@ == x;
                            assert(s1[j].0@ == x);
                        }
                        if x == k {
                            assert(s1[i as int].0@ == x);
                        }
                    }
                    lemma_entries_map_equal(s1, m);
                }
            },
            None => {
                proof {
                    let s1 = s0.push((key, value));
                    assert forall|a: int, b: int|
                        #![trigger s1[a], s1[b]]
                        0 <= a < s1.len() && 0 <= b < s1.len() && s1[a].0@ == s1[b].0@ implies a
                        == b by {
                        if a < s0.len() {
                            assert(s0[a] == s1[a]);
                        }
                        if b < s0.len() {
                            assert(s0[b] == s1[b]);
                        }
                    }
                }
                self.entries.push((key, value));
                proof {
                    let s1 = self.entries@;
                    let m = entries_map(s0).insert(k, v);
                    assert forall|x: Seq<char>| #[trigger] m.contains_key(x) <==> has_key(s1, x) by {
                        if has_key(s1, x) {
                            let j = choose|j: int| 0 <= j < s1.len() && s1[j].0@ == x;
                            if j < s0.len() {
                                assert(s0[j].0@ == x);
                            }
                        }
                        if has_key(s0, x) {
                            let j = choose|j: int| 0 <= j < s0.len() && s0[j].0@ == x;
                            assert(s1[j].0@ == x);
                        }
                        if x == k {
                            assert(s1[s0.len() as int].0@ == x);
                        }
                    }
                    assert forall|j: int| #![trigger s1[j]] 0 <= j < s1.len() implies m[s1[j].0@]
                        == s1[j].1@ by {
                        if j < s0.len() {
                            assert(s0[j] == s1[j]);
                        }
                    }
                    lemma_entries_map_equal(s1, m);
                }
            },
        }
    }

    /// The value stored under `key`, or `None` when the key is absent.
    pub fn get(&self, key: String) -> (r: Option<String>)
        requires
            self.wf(),
        ensures
            r.deep_view() == (if self@.contains_key(key@) {
                Some(self@[key@])
            } else {
                None::<Seq<char>>
            }),
    {
        proof {
            lemma_entries_map_values(self.entries@);
        }
        match self.find(&key) {
            Some(i) => Some(self.entries[i].1.clone()),
            None => None,
        }
    }

    /// Removes `key` and its value; does nothing when the key is absent.
    pub fn delete(&mut self, key: String)
        requires
            old(self).wf(),
        ensures
            final(self).wf(),
            final(self)@ == old(self)@.remove(key@),
    {
        let ghost s0 = self.entries@;
        let ghost k = key@;
        proof {
            lemma_entries_map_values(s0);
        }
        match self.find(&key) {
            Some(i) => {
                proof {
                    let s1 = s0.remove(i as int);
                    assert forall|a: int, b: int|
                        #![trigger s1[a], s1[b]]
                        0 <= a < s1.len() && 0 <= b < s1.len() && s1[a].0@ == s1[b].0@ implies a
                        == b by {
                        let a0 = if a < i { a } else { a + 1 };
                        let b0 = if b < i { b } else { b + 1 };
                        assert(s0[a0] == s1[a]);
                        assert(s0[b0] == s1[b]);
                    }
                }
                self.entries.remove(i);
                proof {
                    let s1 = self.entries@;
                    let m = entries_map(s0).remove(k);
                    assert forall|x: Seq<char>| #[trigger] m.contains_key(x) <==> has_key(s1, x) by {
                        if has_key(s1, x) {
                            let j = choose|j: int| 0 <= j < s1.len() && s1[j].0@ == x;
                            let j0 = if j < i { j } else { j + 1 };
                            assert(s0[j0] == s1[j]);
                        }
                        if has_key(s0, x) && x != k {
                            let j = choose|j: int| 0 <= j < s0.len() && s0[j].0@ == x;
                            if j < i {
                                assert(s1[j] == s0[j]);
                            } else {
                                assert(s1[j - 1] == s0[j]);
                            }
                        }
                    }
                    assert forall|j: int| #![trigger s1[j]] 0 <= j < s1.len() implies m[s1[j].0@]
                        == s1[j].1@ by {
                        let j0 = if j < i { j } else { j + 1 };
                        assert(s0[j0] == s1[j]);
                    }
                    lemma_entries_map_equal(s1, m);
                }
            },
            None => {
                assert(entries_map(s0).remove(k) =~= entries_map(s0));
            },
        }
    }
}

} // verus!
