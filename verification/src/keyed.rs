//! Sequences of records that each carry a key, read as maps from key to
//! record. The tables of this crate keep their records in a `Vec` whose keys
//! are pairwise distinct; these lemmas relate the usual `Vec` edits to the
//! corresponding `Map` edits.

use vstd::prelude::*;

verus! {

/// No two records of `s` share a key.
pub open spec fn unique_keys<K, T>(s: Seq<T>, key: spec_fn(T) -> K) -> bool {
    forall|i: int, j: int|
        0 <= i < s.len() && 0 <= j < s.len() && i != j ==> key(#[trigger] s[i]) != key(
            #[trigger] s[j],
        )
}

/// Some record of `s` has key `k`.
pub open spec fn has_key<K, T>(s: Seq<T>, key: spec_fn(T) -> K, k: K) -> bool {
    exists|i: int| 0 <= i < s.len() && key(#[trigger] s[i]) == k
}

/// The map from each key of `s` to the record that carries it.
pub open spec fn keyed_map<K, T>(s: Seq<T>, key: spec_fn(T) -> K) -> Map<K, T> {
    Map::new(
        |k: K| has_key(s, key, k),
        |k: K| s[choose|i: int| 0 <= i < s.len() && key(#[trigger] s[i]) == k],
    )
}

/// The record at index `i` is what the map gives for its key.
pub proof fn lemma_keyed_map_index<K, T>(s: Seq<T>, key: spec_fn(T) -> K, i: int)
    requires
        unique_keys(s, key),
        0 <= i < s.len(),
    ensures
        keyed_map(s, key).contains_key(key(s[i])),
        keyed_map(s, key)[key(s[i])] == s[i],
{
    let k = key(s[i]);
    assert(has_key(s, key, k));
    let j = choose|j: int| 0 <= j < s.len() && key(#[trigger] s[j]) == k;
    assert(j == i);
}

/// A key of the map is carried by some record.
pub proof fn lemma_keyed_map_key<K, T>(s: Seq<T>, key: spec_fn(T) -> K, k: K) -> (i: int)
    requires
        unique_keys(s, key),
        keyed_map(s, key).contains_key(k),
    ensures
        0 <= i < s.len(),
        key(s[i]) == k,
        keyed_map(s, key)[k] == s[i],
{
    let i = choose|i: int| 0 <= i < s.len() && key(#[trigger] s[i]) == k;
    lemma_keyed_map_index(s, key, i);
    i
}

/// The empty sequence is the empty map.
pub proof fn lemma_keyed_map_empty<K, T>(key: spec_fn(T) -> K)
    ensures
        unique_keys(Seq::<T>::empty(), key),
        keyed_map(Seq::<T>::empty(), key) == Map::<K, T>::empty(),
{
    assert(keyed_map(Seq::<T>::empty(), key) =~= Map::<K, T>::empty());
}

/// Appending a record with a new key inserts it into the map.
pub proof fn lemma_keyed_map_push<K, T>(s: Seq<T>, key: spec_fn(T) -> K, x: T)
    requires
        unique_keys(s, key),
        !keyed_map(s, key).contains_key(key(x)),
    ensures
        unique_keys(s.push(x), key),
        keyed_map(s.push(x), key) == keyed_map(s, key).insert(key(x), x),
{
    let t = s.push(x);
    assert forall|i: int, j: int|
        0 <= i < t.len() && 0 <= j < t.len() && i != j implies key(#[trigger] t[i]) != key(
            #[trigger] t[j],
        ) by {
        if i == s.len() {
            assert(t[j] == s[j]);
            if key(t[i]) == key(t[j]) {
                assert(has_key(s, key, key(x)));
            }
        } else if j == s.len() {
            assert(t[i] == s[i]);
            if key(t[i]) == key(t[j]) {
                assert(has_key(s, key, key(x)));
            }
        } else {
            assert(t[i] == s[i] && t[j] == s[j]);
        }
    }
    let m = keyed_map(s, key).insert(key(x), x);
    assert forall|k: K| #[trigger] keyed_map(t, key).contains_key(k) <==> m.contains_key(k) by {
        if has_key(t, key, k) {
            let i = choose|i: int| 0 <= i < t.len() && key(#[trigger] t[i]) == k;
            if i < s.len() {
                assert(t[i] == s[i]);
                assert(has_key(s, key, k));
            }
        }
        if has_key(s, key, k) {
            let i = choose|i: int| 0 <= i < s.len() && key(#[trigger] s[i]) == k;
            assert(t[i] == s[i]);
            assert(has_key(t, key, k));
        }
        if k == key(x) {
            assert(t[s.len() as int] == x);
            assert(has_key(t, key, k));
        }
    }
    assert forall|k: K| #[trigger] keyed_map(t, key).contains_key(k) implies keyed_map(t, key)[k]
        == m[k] by {
        let i = lemma_keyed_map_key(t, key, k);
        if i < s.len() {
            assert(t[i] == s[i]);
            lemma_keyed_map_index(s, key, i);
        } else {
            assert(t[i] == x);
        }
    }
    assert(keyed_map(t, key) =~= m);
}

/// Replacing the record at index `i` by one with the same key updates the map.
pub proof fn lemma_keyed_map_update<K, T>(s: Seq<T>, key: spec_fn(T) -> K, i: int, x: T)
    requires
        unique_keys(s, key),
        0 <= i < s.len(),
        key(s[i]) == key(x),
    ensures
        unique_keys(s.update(i, x), key),
        keyed_map(s.update(i, x), key) == keyed_map(s, key).insert(key(x), x),
{
    let t = s.update(i, x);
    assert forall|a: int, b: int|
        0 <= a < t.len() && 0 <= b < t.len() && a != b implies key(#[trigger] t[a]) != key(
            #[trigger] t[b],
        ) by {
        assert(key(t[a]) == key(s[a]));
        assert(key(t[b]) == key(s[b]));
    }
    let m = keyed_map(s, key).insert(key(x), x);
    assert forall|k: K| #[trigger] keyed_map(t, key).contains_key(k) <==> m.contains_key(k) by {
        if has_key(t, key, k) {
            let j = choose|j: int| 0 <= j < t.len() && key(#[trigger] t[j]) == k;
            assert(key(t[j]) == key(s[j]));
            assert(has_key(s, key, k));
        }
        if has_key(s, key, k) {
            let j = choose|j: int| 0 <= j < s.len() && key(#[trigger] s[j]) == k;
            assert(key(t[j]) == key(s[j]));
            assert(has_key(t, key, k));
        }
        if k == key(x) {
            assert(key(t[i]) == k);
            assert(has_key(t, key, k));
        }
    }
    assert forall|k: K| #[trigger] keyed_map(t, key).contains_key(k) implies keyed_map(t, key)[k]
        == m[k] by {
        let j = lemma_keyed_map_key(t, key, k);
        if j != i {
            assert(t[j] == s[j]);
            lemma_keyed_map_index(s, key, j);
        }
    }
    assert(keyed_map(t, key) =~= m);
}

/// Removing the record at index `i` removes its key from the map.
pub proof fn lemma_keyed_map_remove<K, T>(s: Seq<T>, key: spec_fn(T) -> K, i: int)
    requires
        unique_keys(s, key),
        0 <= i < s.len(),
    ensures
        unique_keys(s.remove(i), key),
        keyed_map(s.remove(i), key) == keyed_map(s, key).remove(key(s[i])),
{
    let t = s.remove(i);
    let src = |a: int| if a < i { a } else { a + 1 };
    assert forall|a: int| 0 <= a < t.len() implies #[trigger] t[a] == s[src(a)] by {}
    assert forall|a: int, b: int|
        0 <= a < t.len() && 0 <= b < t.len() && a != b implies key(#[trigger] t[a]) != key(
            #[trigger] t[b],
        ) by {
        assert(t[a] == s[src(a)]);
        assert(t[b] == s[src(b)]);
    }
    let m = keyed_map(s, key).remove(key(s[i]));
    assert forall|k: K| #[trigger] keyed_map(t, key).contains_key(k) <==> m.contains_key(k) by {
        if has_key(t, key, k) {
            let a = choose|a: int| 0 <= a < t.len() && key(#[trigger] t[a]) == k;
            assert(t[a] == s[src(a)]);
            assert(has_key(s, key, k));
        }
        if has_key(s, key, k) && k != key(s[i]) {
            let a = choose|a: int| 0 <= a < s.len() && key(#[trigger] s[a]) == k;
            let b = if a < i { a } else { a - 1 };
            assert(t[b] == s[src(b)]);
            assert(has_key(t, key, k));
        }
    }
    assert forall|k: K| #[trigger] keyed_map(t, key).contains_key(k) implies keyed_map(t, key)[k]
        == m[k] by {
        let a = lemma_keyed_map_key(t, key, k);
        assert(t[a] == s[src(a)]);
        lemma_keyed_map_index(s, key, src(a));
    }
    assert(keyed_map(t, key) =~= m);
}


/// Rewriting every record by a function that keeps keys rewrites every
/// value of the map by that function.
pub proof fn lemma_keyed_map_map_values<K, T>(s: Seq<T>, key: spec_fn(T) -> K, f: spec_fn(T) -> T)
    requires
        unique_keys(s, key),
        forall|x: T| #[trigger] key(f(x)) == key(x),
    ensures
        unique_keys(s.map_values(f), key),
        keyed_map(s.map_values(f), key).dom() == keyed_map(s, key).dom(),
        forall|k: K| #[trigger] keyed_map(s, key).contains_key(k) ==> keyed_map(s.map_values(f), key)[k]
            == f(keyed_map(s, key)[k]),
{
    let t = s.map_values(f);
    assert forall|a: int, b: int|
        0 <= a < t.len() && 0 <= b < t.len() && a != b implies key(#[trigger] t[a]) != key(
            #[trigger] t[b],
        ) by {
        assert(key(t[a]) == key(f(s[a])));
        assert(key(t[b]) == key(f(s[b])));
    }
    assert forall|k: K| #[trigger] keyed_map(t, key).dom().contains(k) <==> keyed_map(s, key).dom().contains(k) by {
        if has_key(t, key, k) {
            let j = choose|j: int| 0 <= j < t.len() && key(#[trigger] t[j]) == k;
            assert(key(t[j]) == key(f(s[j])));
            assert(has_key(s, key, k));
        }
        if has_key(s, key, k) {
            let j = choose|j: int| 0 <= j < s.len() && key(#[trigger] s[j]) == k;
            assert(key(t[j]) == key(f(s[j])));
            assert(has_key(t, key, k));
        }
    }
    assert(keyed_map(t, key).dom() =~= keyed_map(s, key).dom());
    assert forall|k: K| #[trigger] keyed_map(s, key).contains_key(k) implies keyed_map(t, key)[k]
        == f(keyed_map(s, key)[k]) by {
        let j = lemma_keyed_map_key(s, key, k);
        assert(key(t[j]) == key(f(s[j])));
        lemma_keyed_map_index(t, key, j);
    }
}
} // verus!
