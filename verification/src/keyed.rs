//! Maps stored as vectors of `(key, value)` pairs with distinct keys.

use vstd::prelude::*;

verus! {

/// No key occurs twice in `e`.
pub open spec fn keys_unique<K, V>(e: Seq<(K, V)>) -> bool {
    forall|i: int, j: int| 0 <= i < j < e.len() ==> (#[trigger] e[i]).0 != (#[trigger] e[j]).0
}

/// The pair at position `i` of `e` has the key `k`.
pub open spec fn has_key_at<K, V>(e: Seq<(K, V)>, k: K, i: int) -> bool {
    0 <= i < e.len() && e[i].0 == k
}

/// The map that the pairs `e` (with distinct keys) stand for.
pub open spec fn keyed_map<K, V>(e: Seq<(K, V)>) -> Map<K, V> {
    Map::new(
        |k: K| exists|i: int| has_key_at(e, k, i),
        |k: K| e[choose|i: int| has_key_at(e, k, i)].1,
    )
}

/// Each stored pair is in the map.
pub proof fn lemma_keyed_map_index<K, V>(e: Seq<(K, V)>, i: int)
    requires
        keys_unique(e),
        0 <= i < e.len(),
    ensures
        keyed_map(e).contains_key(e[i].0),
        keyed_map(e)[e[i].0] == e[i].1,
{
    assert(has_key_at(e, e[i].0, i));
    let j = choose|j: int| has_key_at(e, e[i].0, j);
    if j != i {
        if j < i {
            assert(e[j].0 != e[i].0);
        } else {
            assert(e[i].0 != e[j].0);
        }
    }
}

/// Adding a pair with a new key adds it to the map.
pub proof fn lemma_keyed_map_push<K, V>(e: Seq<(K, V)>, k: K, v: V)
    requires
        keys_unique(e),
        !keyed_map(e).contains_key(k),
    ensures
        keys_unique(e.push((k, v))),
        keyed_map(e.push((k, v))) == keyed_map(e).insert(k, v),
{
    let f = e.push((k, v));
    assert forall|i: int, j: int| 0 <= i < j < f.len() implies (#[trigger] f[i]).0 != (
    #[trigger] f[j]).0 by {
        if j == e.len() {
            if f[i].0 == k {
                assert(has_key_at(e, k, i));
            }
        } else {
            assert(f[i] == e[i] && f[j] == e[j]);
        }
    }
    lemma_keyed_map_index(f, e.len() as int);
    assert forall|q: K| #[trigger] keyed_map(f).contains_key(q) == keyed_map(e).insert(
        k,
        v,
    ).contains_key(q) by {
        if q != k {
            if keyed_map(f).contains_key(q) {
                let i = choose|i: int| has_key_at(f, q, i);
                assert(has_key_at(e, q, i));
            }
            if keyed_map(e).contains_key(q) {
                let i = choose|i: int| has_key_at(e, q, i);
                assert(has_key_at(f, q, i));
            }
        }
    }
    assert forall|q: K| #[trigger] keyed_map(f).contains_key(q) implies keyed_map(f)[q]
        == keyed_map(e).insert(k, v)[q] by {
        if q != k {
            let i = choose|i: int| has_key_at(f, q, i);
            assert(has_key_at(e, q, i));
            lemma_keyed_map_index(f, i);
            lemma_keyed_map_index(e, i);
        }
    }
    assert(keyed_map(f) =~= keyed_map(e).insert(k, v));
}

/// Changing the value of a stored pair changes it in the map.
pub proof fn lemma_keyed_map_update<K, V>(e: Seq<(K, V)>, i: int, v: V)
    requires
        keys_unique(e),
        0 <= i < e.len(),
    ensures
        keys_unique(e.update(i, (e[i].0, v))),
        keyed_map(e.update(i, (e[i].0, v))) == keyed_map(e).insert(e[i].0, v),
{
    let k = e[i].0;
    let f = e.update(i, (k, v));
    assert forall|a: int, b: int| 0 <= a < b < f.len() implies (#[trigger] f[a]).0 != (
    #[trigger] f[b]).0 by {
        assert(f[a].0 == e[a].0 && f[b].0 == e[b].0);
    }
    lemma_keyed_map_index(f, i);
    assert forall|q: K| #[trigger] keyed_map(f).contains_key(q) == keyed_map(e).insert(
        k,
        v,
    ).contains_key(q) by {
        if q != k {
            if keyed_map(f).contains_key(q) {
                let j = choose|j: int| has_key_at(f, q, j);
                assert(has_key_at(e, q, j));
            }
            if keyed_map(e).contains_key(q) {
                let j = choose|j: int| has_key_at(e, q, j);
                assert(has_key_at(f, q, j));
            }
        } else {
            assert(has_key_at(e, k, i));
        }
    }
    assert forall|q: K| #[trigger] keyed_map(f).contains_key(q) implies keyed_map(f)[q]
        == keyed_map(e).insert(k, v)[q] by {
        if q != k {
            let j = choose|j: int| has_key_at(f, q, j);
            assert(has_key_at(e, q, j));
            lemma_keyed_map_index(f, j);
            lemma_keyed_map_index(e, j);
        }
    }
    assert(keyed_map(f) =~= keyed_map(e).insert(k, v));
}

} // verus!
