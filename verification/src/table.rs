use vstd::prelude::*;

verus! {

/// Index of the first entry of a keyed list whose key equals `key`, if any.
pub open spec fn first_key_index<V>(entries: Seq<(Seq<char>, V)>, key: Seq<char>) -> Option<int>
    decreases entries.len(),
{
    if entries.len() == 0 {
        None
    } else if entries[0].0 == key {
        Some(0int)
    } else {
        match first_key_index(entries.drop_first(), key) {
            Some(j) => Some(j + 1),
            None => None,
        }
    }
}

/// Value at the first entry whose key equals `key`, if any.
pub open spec fn key_lookup<V>(entries: Seq<(Seq<char>, V)>, key: Seq<char>) -> Option<V> {
    match first_key_index(entries, key) {
        Some(j) => Some(entries[j].1),
        None => None,
    }
}

pub proof fn lemma_first_key_index<V>(entries: Seq<(Seq<char>, V)>, key: Seq<char>)
    ensures
        match first_key_index(entries, key) {
            Some(j) => 0 <= j < entries.len() && entries[j].0 == key && forall|l: int|
                0 <= l < j ==> (#[trigger] entries[l]).0 != key,
            None => forall|l: int| 0 <= l < entries.len() ==> (#[trigger] entries[l]).0 != key,
        },
    decreases entries.len(),
{
    if entries.len() > 0 && entries[0].0 != key {
        let rest = entries.drop_first();
        lemma_first_key_index(rest, key);
        match first_key_index(rest, key) {
            Some(j2) => {
                assert(rest[j2] == entries[j2 + 1]);
                assert forall|l: int| 0 <= l < j2 + 1 implies (#[trigger] entries[l]).0
                    != key by {
                    if l > 0 {
                        assert(rest[l - 1] == entries[l]);
                    }
                }
            },
            None => {
                assert forall|l: int| 0 <= l < entries.len() implies (#[trigger] entries[l]).0
                    != key by {
                    if l > 0 {
                        assert(rest[l - 1] == entries[l]);
                    }
                }
            },
        }
    }
}

/// The first matching index is the position that matches with a clean prefix.
pub proof fn lemma_first_key_index_of<V>(entries: Seq<(Seq<char>, V)>, key: Seq<char>, j: int)
    requires
        0 <= j < entries.len(),
        entries[j].0 == key,
        forall|l: int| 0 <= l < j ==> (#[trigger] entries[l]).0 != key,
    ensures
        first_key_index(entries, key) == Some(j),
{
    lemma_first_key_index(entries, key);
    match first_key_index(entries, key) {
        Some(t) => {
            if t < j {
                assert(entries[t].0 != key);
            } else if t > j {
                assert(entries[j].0 != key);
            }
        },
        None => {
            assert(entries[j].0 != key);
        },
    }
}

/// No entry carries the key, so nothing is found.
pub proof fn lemma_first_key_index_none<V>(entries: Seq<(Seq<char>, V)>, key: Seq<char>)
    requires
        forall|l: int| 0 <= l < entries.len() ==> (#[trigger] entries[l]).0 != key,
    ensures
        first_key_index(entries, key) is None,
{
    lemma_first_key_index(entries, key);
    match first_key_index(entries, key) {
        Some(t) => {
            assert(entries[t].0 != key);
        },
        None => {},
    }
}

/// Replacing the first entry that carries `key` changes what `key` maps to
/// and nothing else.
pub proof fn lemma_key_lookup_update<V>(entries: Seq<(Seq<char>, V)>, key: Seq<char>, j: int, v: V)
    requires
        first_key_index(entries, key) == Some(j),
    ensures
        key_lookup(entries.update(j, (key, v)), key) == Some(v),
        forall|k2: Seq<char>|
            k2 != key ==> #[trigger] key_lookup(entries.update(j, (key, v)), k2) == key_lookup(
                entries,
                k2,
            ),
{
    lemma_first_key_index(entries, key);
    let updated = entries.update(j, (key, v));
    assert forall|l: int| 0 <= l < j implies (#[trigger] updated[l]).0 != key by {
        assert(updated[l] == entries[l]);
    }
    lemma_first_key_index_of(updated, key, j);
    assert forall|k2: Seq<char>| k2 != key implies #[trigger] key_lookup(updated, k2)
        == key_lookup(entries, k2) by {
        lemma_first_key_index(entries, k2);
        match first_key_index(entries, k2) {
            Some(t) => {
                assert(entries[t].0 == k2);
                assert(t != j);
                assert(updated[t] == entries[t]);
                assert forall|l: int| 0 <= l < t implies (#[trigger] updated[l]).0 != k2 by {
                    if l != j {
                        assert(updated[l] == entries[l]);
                    }
                }
                lemma_first_key_index_of(updated, k2, t);
            },
            None => {
                assert forall|l: int|
                    0 <= l < updated.len() implies (#[trigger] updated[l]).0 != k2 by {
                    if l != j {
                        assert(updated[l] == entries[l]);
                    }
                }
                lemma_first_key_index_none(updated, k2);
            },
        }
    }
}

/// Appending an entry changes a lookup only where nothing was found before.
pub proof fn lemma_key_lookup_push<V>(entries: Seq<(Seq<char>, V)>, p: (Seq<char>, V), k: Seq<char>)
    ensures
        key_lookup(entries.push(p), k) == match key_lookup(entries, k) {
            Some(v) => Some(v),
            None => if p.0 == k {
                Some(p.1)
            } else {
                None::<V>
            },
        },
{
    let pushed = entries.push(p);
    lemma_first_key_index(entries, k);
    match first_key_index(entries, k) {
        Some(t) => {
            assert(pushed[t] == entries[t]);
            assert forall|l: int| 0 <= l < t implies (#[trigger] pushed[l]).0 != k by {
                assert(pushed[l] == entries[l]);
            }
            lemma_first_key_index_of(pushed, k, t);
        },
        None => {
            if p.0 == k {
                assert(pushed[entries.len() as int].0 == k);
                assert forall|l: int|
                    0 <= l < entries.len() implies (#[trigger] pushed[l]).0 != k by {
                    assert(pushed[l] == entries[l]);
                }
                lemma_first_key_index_of(pushed, k, entries.len() as int);
            } else {
                assert forall|l: int|
                    0 <= l < pushed.len() implies (#[trigger] pushed[l]).0 != k by {
                    if l < entries.len() {
                        assert(pushed[l] == entries[l]);
                    }
                }
                lemma_first_key_index_none(pushed, k);
            }
        },
    }
}

} // verus!

verus! {

/// The first matching index as a plain integer; callers use it only where a
/// match exists.
pub open spec fn key_index_of<V>(entries: Seq<(Seq<char>, V)>, key: Seq<char>) -> int {
    match first_key_index(entries, key) {
        Some(j) => j,
        None => -1,
    }
}

} // verus!
