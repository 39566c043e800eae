use vstd::prelude::*;

verus! {

// The hub keeps its registries as vectors of entries with distinct keys.
// This module gives such a vector its meaning as a `Map`, and the facts the
// registry operations rest on.

/// The map held by a vector of entries: later entries would win, but the
/// registries keep keys distinct, so each key has its one entry's value.
pub open spec fn kv_map<E, K, V>(s: Seq<E>, key: spec_fn(E) -> K, val: spec_fn(E) -> V) -> Map<
    K,
    V,
>
    decreases s.len(),
{
    if s.len() == 0 {
        Map::empty()
    } else {
        kv_map(s.drop_last(), key, val).insert(key(s.last()), val(s.last()))
    }
}

/// No two entries share a key.
pub open spec fn unique_keys<E, K>(s: Seq<E>, key: spec_fn(E) -> K) -> bool {
    forall|i: int, j: int| 0 <= i < j < s.len() ==> key(#[trigger] s[i]) != key(#[trigger] s[j])
}

/// The map's domain is exactly the keys of the entries.
pub proof fn lemma_kv_dom<E, K, V>(s: Seq<E>, key: spec_fn(E) -> K, val: spec_fn(E) -> V, k: K)
    ensures
        kv_map(s, key, val).dom().contains(k) <==> exists|i: int|
            0 <= i < s.len() && key(#[trigger] s[i]) == k,
    decreases s.len(),
{
    if s.len() > 0 {
        lemma_kv_dom(s.drop_last(), key, val, k);
        if kv_map(s, key, val).dom().contains(k) {
            if key(s.last()) == k {
                assert(key(s[s.len() - 1]) == k);
            } else {
                let i = choose|i: int| 0 <= i < s.len() - 1 && key(#[trigger] s.drop_last()[i])
                    == k;
                assert(key(s[i]) == k);
            }
        }
        if exists|i: int| 0 <= i < s.len() && key(#[trigger] s[i]) == k {
            let i = choose|i: int| 0 <= i < s.len() && key(#[trigger] s[i]) == k;
            if i < s.len() - 1 {
                assert(key(s.drop_last()[i]) == k);
            }
        }
    }
}

/// An entry's key is mapped to its value, when keys are distinct.
pub proof fn lemma_kv_lookup<E, K, V>(
    s: Seq<E>,
    key: spec_fn(E) -> K,
    val: spec_fn(E) -> V,
    i: int,
)
    requires
        unique_keys(s, key),
        0 <= i < s.len(),
    ensures
        kv_map(s, key, val).dom().contains(key(s[i])),
        kv_map(s, key, val)[key(s[i])] == val(s[i]),
    decreases s.len(),
{
    if i < s.len() - 1 {
        assert(unique_keys(s.drop_last(), key)) by {
            assert(forall|a: int, b: int|
                0 <= a < b < s.len() - 1 ==> key(#[trigger] s.drop_last()[a]) != key(
                    #[trigger] s.drop_last()[b],
                ));
        }
        assert(s.drop_last()[i] == s[i]);
        lemma_kv_lookup(s.drop_last(), key, val, i);
        assert(key(s[i]) != key(s[s.len() - 1]));
    }
}

/// Appending an entry inserts its pair.
pub proof fn lemma_kv_push<E, K, V>(s: Seq<E>, key: spec_fn(E) -> K, val: spec_fn(E) -> V, e: E)
    ensures
        kv_map(s.push(e), key, val) == kv_map(s, key, val).insert(key(e), val(e)),
{
    assert(s.push(e).drop_last() =~= s);
    assert(s.push(e).last() == e);
}

/// Replacing the entry at `i` by one with the same key updates that key.
pub proof fn lemma_kv_update<E, K, V>(
    s: Seq<E>,
    key: spec_fn(E) -> K,
    val: spec_fn(E) -> V,
    i: int,
    e: E,
)
    requires
        unique_keys(s, key),
        0 <= i < s.len(),
        key(e) == key(s[i]),
    ensures
        kv_map(s.update(i, e), key, val) == kv_map(s, key, val).insert(key(e), val(e)),
    decreases s.len(),
{
    let t = s.update(i, e);
    if i == s.len() - 1 {
        assert(t.drop_last() =~= s.drop_last());
        assert(t.last() == e);
    } else {
        assert(unique_keys(s.drop_last(), key)) by {
            assert(forall|a: int, b: int|
                0 <= a < b < s.len() - 1 ==> key(#[trigger] s.drop_last()[a]) != key(
                    #[trigger] s.drop_last()[b],
                ));
        }
        assert(s.drop_last()[i] == s[i]);
        lemma_kv_update(s.drop_last(), key, val, i, e);
        assert(t.drop_last() =~= s.drop_last().update(i, e));
        assert(t.last() == s.last());
        assert(key(s[i]) != key(s[s.len() - 1]));
        assert(kv_map(t, key, val) =~= kv_map(s, key, val).insert(key(e), val(e)));
    }
}

/// Removing the entry at `i` removes its key.
pub proof fn lemma_kv_remove<E, K, V>(
    s: Seq<E>,
    key: spec_fn(E) -> K,
    val: spec_fn(E) -> V,
    i: int,
)
    requires
        unique_keys(s, key),
        0 <= i < s.len(),
    ensures
        kv_map(s.remove(i), key, val) == kv_map(s, key, val).remove(key(s[i])),
    decreases s.len(),
{
    let t = s.remove(i);
    if i == s.len() - 1 {
        assert(t =~= s.drop_last());
        lemma_kv_dom(s.drop_last(), key, val, key(s[i]));
        assert forall|j: int| 0 <= j < s.len() - 1 implies key(#[trigger] s.drop_last()[j]) != key(
            s[i],
        ) by {
            assert(s.drop_last()[j] == s[j]);
        }
        assert(!kv_map(s.drop_last(), key, val).dom().contains(key(s[i])));
        assert(kv_map(t, key, val) =~= kv_map(s, key, val).remove(key(s[i])));
    } else {
        assert(unique_keys(s.drop_last(), key)) by {
            assert(forall|a: int, b: int|
                0 <= a < b < s.len() - 1 ==> key(#[trigger] s.drop_last()[a]) != key(
                    #[trigger] s.drop_last()[b],
                ));
        }
        assert(s.drop_last()[i] == s[i]);
        lemma_kv_remove(s.drop_last(), key, val, i);
        assert(t.drop_last() =~= s.drop_last().remove(i));
        assert(t.last() == s.last());
        assert(key(s[i]) != key(s[s.len() - 1]));
        assert(kv_map(t, key, val) =~= kv_map(s, key, val).remove(key(s[i])));
    }
}

/// The map's domain as the set of entry keys.
pub proof fn lemma_kv_dom_is_keys<E, K, V>(s: Seq<E>, key: spec_fn(E) -> K, val: spec_fn(E) -> V)
    ensures
        kv_map(s, key, val).dom() == s.map_values(key).to_set(),
{
    assert forall|k: K| kv_map(s, key, val).dom().contains(k) implies s.map_values(
        key,
    ).to_set().contains(k) by {
        lemma_kv_dom(s, key, val, k);
        let i = choose|i: int| 0 <= i < s.len() && key(#[trigger] s[i]) == k;
        assert(s.map_values(key)[i] == k);
    }
    assert forall|k: K| s.map_values(key).to_set().contains(k) implies kv_map(
        s,
        key,
        val,
    ).dom().contains(k) by {
        let i = choose|i: int| 0 <= i < s.map_values(key).len() && s.map_values(key)[i] == k;
        assert(key(s[i]) == k);
        lemma_kv_dom(s, key, val, k);
    }
    assert(kv_map(s, key, val).dom() =~= s.map_values(key).to_set());
}

/// Appending any member inserts it into the set of members.
pub proof fn lemma_to_set_push<A>(s: Seq<A>, x: A)
    ensures
        s.push(x).to_set() == s.to_set().insert(x),
{
    assert forall|y: A| s.push(x).to_set().contains(y) implies s.to_set().insert(x).contains(
        y,
    ) by {
        let j = choose|j: int| 0 <= j < s.push(x).len() && s.push(x)[j] == y;
        if j < s.len() {
            assert(s[j] == y);
        }
    }
    assert forall|y: A| s.to_set().insert(x).contains(y) implies s.push(x).to_set().contains(
        y,
    ) by {
        if y == x {
            assert(s.push(x)[s.len() as int] == x);
        } else {
            let j = choose|j: int| 0 <= j < s.len() && s[j] == y;
            assert(s.push(x)[j] == y);
        }
    }
    assert(s.push(x).to_set() =~= s.to_set().insert(x));
}

/// Appending a member not yet present keeps the list duplicate-free and
/// inserts it into the set of members.
pub proof fn lemma_push_fresh<A>(s: Seq<A>, x: A)
    requires
        !s.to_set().contains(x),
    ensures
        s.push(x).to_set() == s.to_set().insert(x),
        s.no_duplicates() ==> s.push(x).no_duplicates(),
        s.push(x).len() > 0,
{
    assert forall|y: A| s.push(x).to_set().contains(y) implies s.to_set().insert(x).contains(
        y,
    ) by {
        let j = choose|j: int| 0 <= j < s.push(x).len() && s.push(x)[j] == y;
        if j < s.len() {
            assert(s[j] == y);
        }
    }
    assert forall|y: A| s.to_set().insert(x).contains(y) implies s.push(x).to_set().contains(
        y,
    ) by {
        if y == x {
            assert(s.push(x)[s.len() as int] == x);
        } else {
            let j = choose|j: int| 0 <= j < s.len() && s[j] == y;
            assert(s.push(x)[j] == y);
        }
    }
    assert(s.push(x).to_set() =~= s.to_set().insert(x));
    if s.no_duplicates() {
        assert forall|a: int, b: int|
            0 <= a < b < s.push(x).len() implies s.push(x)[a] != s.push(x)[b] by {
            if b == s.len() as int {
                assert(s[a] == s.push(x)[a]);
            }
        }
    }
}

/// Removing the member at `j` from a duplicate-free list removes it from
/// the set of members.
pub proof fn lemma_remove_at<A>(s: Seq<A>, j: int)
    requires
        s.no_duplicates(),
        0 <= j < s.len(),
    ensures
        s.remove(j).to_set() == s.to_set().remove(s[j]),
        s.remove(j).no_duplicates(),
{
    let t = s.remove(j);
    assert forall|x: A| t.to_set().contains(x) implies s.to_set().remove(s[j]).contains(x) by {
        let k = choose|k: int| 0 <= k < t.len() && t[k] == x;
        if k < j {
            assert(s[k] == x);
        } else {
            assert(s[k + 1] == x);
        }
    }
    assert forall|x: A| s.to_set().remove(s[j]).contains(x) implies t.to_set().contains(x) by {
        let k = choose|k: int| 0 <= k < s.len() && s[k] == x;
        if k < j {
            assert(t[k] == x);
        } else {
            assert(k != j);
            assert(t[k - 1] == x);
        }
    }
    assert(t.to_set() =~= s.to_set().remove(s[j]));
    assert forall|a: int, b: int| 0 <= a < b < t.len() implies t[a] != t[b] by {
        let aa = if a < j {
            a
        } else {
            a + 1
        };
        let bb = if b < j {
            b
        } else {
            b + 1
        };
        assert(t[a] == s[aa]);
        assert(t[b] == s[bb]);
    }
}

/// A key no entry carries is not in the map.
pub proof fn lemma_kv_absent<E, K, V>(s: Seq<E>, key: spec_fn(E) -> K, val: spec_fn(E) -> V, k: K)
    requires
        forall|i: int| 0 <= i < s.len() ==> key(#[trigger] s[i]) != k,
    ensures
        !kv_map(s, key, val).dom().contains(k),
{
    lemma_kv_dom(s, key, val, k);
}

} // verus!
