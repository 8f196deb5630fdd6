//! Entries looked up by key, where the first entry with a key is the one
//! that counts, and set in place or appended.

use vstd::prelude::*;

verus! {

/// Position of the first entry with `key`, or -1.
pub open spec fn find_key<K, V>(entries: Seq<(K, V)>, key: K) -> int {
    if exists|i: int| 0 <= i < entries.len() && (#[trigger] entries[i]).0 == key {
        choose|i: int|
            0 <= i < entries.len() && (#[trigger] entries[i]).0 == key && forall|k: int|
                0 <= k < i ==> (#[trigger] entries[k]).0 != key
    } else {
        -1
    }
}

/// The entries with `key` set to `v`: in place where the key occurs, else
/// appended.
pub open spec fn put_entry<K, V>(entries: Seq<(K, V)>, key: K, v: V) -> Seq<(K, V)> {
    if find_key(entries, key) >= 0 {
        entries.update(find_key(entries, key), (key, v))
    } else {
        entries.push((key, v))
    }
}

/// No key occurs twice.
pub open spec fn keys_unique<K, V>(entries: Seq<(K, V)>) -> bool {
    forall|i: int, j: int|
        0 <= i < j < entries.len() ==> (#[trigger] entries[i]).0 != (#[trigger] entries[j]).0
}

proof fn lemma_first_exists<K, V>(entries: Seq<(K, V)>, key: K, w: int)
    requires
        0 <= w < entries.len(),
        entries[w].0 == key,
    ensures
        exists|i: int|
            0 <= i < entries.len() && (#[trigger] entries[i]).0 == key && forall|k: int|
                0 <= k < i ==> (#[trigger] entries[k]).0 != key,
    decreases w,
{
    if exists|k: int| 0 <= k < w && (#[trigger] entries[k]).0 == key {
        let k = choose|k: int| 0 <= k < w && (#[trigger] entries[k]).0 == key;
        lemma_first_exists(entries, key, k);
    } else {
        assert(forall|k: int| 0 <= k < w ==> (#[trigger] entries[k]).0 != key);
    }
}

/// `find_key` is the first position of the key, or -1 when it is absent.
pub proof fn lemma_find_key<K, V>(entries: Seq<(K, V)>, key: K)
    ensures
        -1 <= find_key(entries, key) < entries.len(),
        find_key(entries, key) >= 0 ==> entries[find_key(entries, key)].0 == key,
        forall|k: int| 0 <= k < find_key(entries, key) ==> (#[trigger] entries[k]).0 != key,
        find_key(entries, key) == -1 ==> forall|i: int|
            0 <= i < entries.len() ==> (#[trigger] entries[i]).0 != key,
{
    if exists|i: int| 0 <= i < entries.len() && (#[trigger] entries[i]).0 == key {
        let w = choose|i: int| 0 <= i < entries.len() && (#[trigger] entries[i]).0 == key;
        lemma_first_exists(entries, key, w);
    }
}

/// A position holding the key with no earlier one is what `find_key` gives.
pub proof fn lemma_find_key_is<K, V>(entries: Seq<(K, V)>, key: K, i: int)
    requires
        0 <= i < entries.len(),
        entries[i].0 == key,
        forall|k: int| 0 <= k < i ==> (#[trigger] entries[k]).0 != key,
    ensures
        find_key(entries, key) == i,
{
    lemma_find_key(entries, key);
    let f = find_key(entries, key);
    if f < i {
        assert(entries[f].0 == key);
    }
    if f > i {
        assert(entries[i].0 != key);
    }
}

/// `find_key` depends on the keys alone: keeping the keys of the first
/// positions and adding only other keys keeps it.
pub proof fn lemma_find_key_same_keys<K, V, W>(
    s: Seq<(K, V)>,
    r: Seq<(K, W)>,
    key: K,
)
    requires
        r.len() >= s.len(),
        forall|j: int| 0 <= j < s.len() ==> (#[trigger] r[j]).0 == s[j].0,
        forall|j: int| s.len() <= j < r.len() ==> (#[trigger] r[j]).0 != key,
    ensures
        find_key(r, key) == find_key(s, key),
{
    lemma_find_key(s, key);
    lemma_find_key(r, key);
    let f = find_key(s, key);
    if f >= 0 {
        assert forall|k: int| 0 <= k < f implies (#[trigger] r[k]).0 != key by {
            assert(s[k].0 != key);
        }
        lemma_find_key_is(r, key, f);
    } else {
        let g = find_key(r, key);
        if g >= 0 {
            if g < s.len() {
                assert(r[g].0 == s[g].0);
                assert(s[g].0 != key);
            }
        }
    }
}

/// What setting one key does: that key's first entry holds the new value,
/// every other key keeps its first entry and position, new positions hold
/// the key, and no key occurs twice if none did.
pub proof fn lemma_put_entry<K, V>(entries: Seq<(K, V)>, key: K, v: V)
    ensures
        put_entry(entries, key, v).len() >= entries.len(),
        find_key(put_entry(entries, key, v), key) >= 0,
        put_entry(entries, key, v)[find_key(put_entry(entries, key, v), key)] == (key, v),
        forall|j: int|
            0 <= j < entries.len() ==> (#[trigger] put_entry(entries, key, v)[j]).0 == entries[j].0,
        forall|j: int|
            0 <= j < entries.len() && entries[j].0 != key ==> #[trigger] put_entry(entries, key, v)[j]
                == entries[j],
        forall|j: int|
            entries.len() <= j < put_entry(entries, key, v).len() ==> (#[trigger] put_entry(
                entries,
                key,
                v,
            )[j]).0 == key,
        forall|k2: K|
            k2 != key ==> #[trigger] find_key(put_entry(entries, key, v), k2) == find_key(entries, k2),
        keys_unique(entries) ==> keys_unique(put_entry(entries, key, v)),
{
    let r = put_entry(entries, key, v);
    lemma_find_key(entries, key);
    let f = find_key(entries, key);
    if f >= 0 {
        assert forall|k: int| 0 <= k < f implies (#[trigger] r[k]).0 != key by {
            assert(entries[k].0 != key);
        }
        lemma_find_key_is(r, key, f);
    } else {
        assert forall|k: int| 0 <= k < entries.len() implies (#[trigger] r[k]).0 != key by {
            assert(entries[k].0 != key);
        }
        lemma_find_key_is(r, key, entries.len() as int);
    }
    assert forall|k2: K| k2 != key implies #[trigger] find_key(r, k2) == find_key(entries, k2) by {
        lemma_find_key_same_keys(entries, r, k2);
    }
    if keys_unique(entries) {
        assert forall|i: int, j: int| 0 <= i < j < r.len() implies (#[trigger] r[i]).0 != (
        #[trigger] r[j]).0 by {
            if j >= entries.len() {
                assert(entries[i].0 != key);
            } else {
                assert(entries[i].0 != entries[j].0);
            }
        }
    }
}

/// The value of the first entry with `key`.
pub open spec fn value_of<K, V>(entries: Seq<(K, V)>, key: K) -> Option<V> {
    if find_key(entries, key) >= 0 {
        Some(entries[find_key(entries, key)].1)
    } else {
        None
    }
}

/// After setting a key, the key reads the new value and every other key
/// reads as before.
pub proof fn lemma_value_of_put<K, V>(entries: Seq<(K, V)>, key: K, v: V)
    ensures
        value_of(put_entry(entries, key, v), key) == Some(v),
        forall|k2: K|
            k2 != key ==> #[trigger] value_of(put_entry(entries, key, v), k2) == value_of(
                entries,
                k2,
            ),
{
    lemma_put_entry(entries, key, v);
    let r = put_entry(entries, key, v);
    assert forall|k2: K| k2 != key implies #[trigger] value_of(r, k2) == value_of(entries, k2) by {
        lemma_find_key(entries, k2);
        let f = find_key(entries, k2);
        if f >= 0 {
            assert(r[f] == entries[f]);
        }
    }
}

} // verus!
