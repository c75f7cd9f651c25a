//! Association lists: vectors of `(key, value)` pairs read as maps, where a key stands for
//! the value of its first occurrence.

use vstd::prelude::*;

verus! {

/// Index of the first occurrence of `k` in `keys`, or -1.
pub open spec fn first_index<K>(keys: Seq<K>, k: K) -> int
    decreases keys.len(),
{
    if keys.len() == 0 {
        -1
    } else if keys[0] == k {
        0
    } else {
        let r = first_index(keys.drop_first(), k);
        if r < 0 {
            -1
        } else {
            r + 1
        }
    }
}

pub proof fn lemma_first_index<K>(keys: Seq<K>, k: K)
    ensures
        first_index(keys, k) < keys.len(),
        first_index(keys, k) >= 0 ==> keys[first_index(keys, k)] == k,
        forall|j: int| 0 <= j < keys.len() && (first_index(keys, k) < 0 || j < first_index(keys, k))
            ==> keys[j] != k,
        first_index(keys, k) >= -1,
    decreases keys.len(),
{
    if keys.len() > 0 && keys[0] != k {
        lemma_first_index(keys.drop_first(), k);
        assert forall|j: int|
            0 <= j < keys.len() && (first_index(keys, k) < 0 || j < first_index(keys, k)) implies keys[j]
            != k by {
            if j > 0 {
                assert(keys[j] == keys.drop_first()[j - 1]);
            }
        }
    }
}

/// The first index is determined by where `k` first occurs.
pub proof fn lemma_first_index_at<K>(keys: Seq<K>, k: K, i: int)
    requires
        -1 <= i < keys.len(),
        i >= 0 ==> keys[i] == k,
        forall|j: int| 0 <= j < keys.len() && (i < 0 || j < i) ==> keys[j] != k,
    ensures
        first_index(keys, k) == i,
    decreases keys.len(),
{
    if keys.len() > 0 && keys[0] != k {
        let i2 = if i < 0 {
            -1
        } else {
            i - 1
        };
        assert forall|j: int|
            0 <= j < keys.drop_first().len() && (i2 < 0 || j < i2) implies keys.drop_first()[j]
            != k by {
            assert(keys.drop_first()[j] == keys[j + 1]);
        }
        lemma_first_index_at(keys.drop_first(), k, i2);
    }
}

/// Appending a key leaves earlier first occurrences alone.
pub proof fn lemma_first_index_push<K>(keys: Seq<K>, x: K, k: K)
    ensures
        first_index(keys.push(x), k) == (if first_index(keys, k) >= 0 {
            first_index(keys, k)
        } else if x == k {
            keys.len() as int
        } else {
            -1
        }),
{
    lemma_first_index(keys, k);
    let i = if first_index(keys, k) >= 0 {
        first_index(keys, k)
    } else if x == k {
        keys.len() as int
    } else {
        -1
    };
    assert forall|j: int| 0 <= j < keys.push(x).len() && (i < 0 || j < i) implies keys.push(x)[j]
        != k by {
        if j < keys.len() {
            assert(keys.push(x)[j] == keys[j]);
        }
    }
    lemma_first_index_at(keys.push(x), k, i);
}

/// An association list read as a map.
pub open spec fn assoc_map<K, V>(keys: Seq<K>, vals: Seq<V>) -> Map<K, V> {
    Map::new(|k: K| first_index(keys, k) >= 0, |k: K| vals[first_index(keys, k)])
}

/// Writing the value at a key's first occurrence updates that key.
pub proof fn lemma_assoc_update<K, V>(keys: Seq<K>, vals: Seq<V>, i: int, v: V)
    requires
        keys.len() == vals.len(),
        0 <= i < keys.len(),
        first_index(keys, keys[i]) == i,
    ensures
        assoc_map(keys, vals.update(i, v)) == assoc_map(keys, vals).insert(keys[i], v),
{
    assert forall|k: K| first_index(keys, k) >= 0 implies first_index(keys, k) < keys.len() && (k
        != keys[i] ==> first_index(keys, k) != i) by {
        lemma_first_index(keys, k);
    }
    assert(assoc_map(keys, vals.update(i, v)) =~= assoc_map(keys, vals).insert(keys[i], v));
}

/// Appending a new key adds it to the map.
pub proof fn lemma_assoc_push<K, V>(keys: Seq<K>, vals: Seq<V>, k: K, v: V)
    requires
        keys.len() == vals.len(),
        first_index(keys, k) < 0,
    ensures
        assoc_map(keys.push(k), vals.push(v)) == assoc_map(keys, vals).insert(k, v),
{
    assert forall|k2: K| #[trigger] first_index(keys.push(k), k2) == (if first_index(keys, k2) >= 0 {
        first_index(keys, k2)
    } else if k == k2 {
        keys.len() as int
    } else {
        -1
    }) by {
        lemma_first_index_push(keys, k, k2);
    }
    assert forall|k2: K| first_index(keys, k2) >= 0 implies first_index(keys, k2) < keys.len() by {
        lemma_first_index(keys, k2);
    }
    assert(assoc_map(keys.push(k), vals.push(v)) =~= assoc_map(keys, vals).insert(k, v));
}

/// Appending a key that does not occur keeps the keys distinct.
pub proof fn lemma_push_no_dup<K>(s: Seq<K>, x: K)
    requires
        s.no_duplicates(),
        first_index(s, x) < 0,
    ensures
        s.push(x).no_duplicates(),
{
    lemma_first_index(s, x);
    let t = s.push(x);
    assert forall|i: int, j: int| 0 <= i < t.len() && 0 <= j < t.len() && i != j implies t[i] != t[j] by {
        if i < s.len() && j < s.len() {
            assert(t[i] == s[i] && t[j] == s[j]);
        } else if i == s.len() {
            assert(t[j] == s[j]);
        } else {
            assert(t[i] == s[i]);
        }
    }
}

/// How many of `vals` satisfy `pos`.
pub open spec fn count_where<V>(vals: Seq<V>, pos: spec_fn(V) -> bool) -> nat
    decreases vals.len(),
{
    if vals.len() == 0 {
        0
    } else {
        count_where(vals.drop_last(), pos) + if pos(vals.last()) {
            1nat
        } else {
            0nat
        }
    }
}

/// The keys of `m` whose value satisfies `pos`.
pub open spec fn pos_keys<K, V>(m: Map<K, V>, pos: spec_fn(V) -> bool) -> Set<K> {
    m.dom().filter(|k: K| pos(m[k]))
}

/// With distinct keys, an association list has one key per entry, and as many keys whose
/// value satisfies `pos` as there are such values.
pub proof fn lemma_assoc_counts<K, V>(keys: Seq<K>, vals: Seq<V>, pos: spec_fn(V) -> bool)
    requires
        keys.len() == vals.len(),
        keys.no_duplicates(),
    ensures
        assoc_map(keys, vals).dom().finite(),
        assoc_map(keys, vals).dom().len() == keys.len(),
        pos_keys(assoc_map(keys, vals), pos).finite(),
        pos_keys(assoc_map(keys, vals), pos).len() == count_where(vals, pos),
    decreases keys.len(),
{
    let m = assoc_map(keys, vals);
    if keys.len() == 0 {
        assert(m.dom() =~= Set::<K>::empty());
        assert(pos_keys(m, pos) =~= Set::<K>::empty());
    } else {
        let k2 = keys.drop_last();
        let v2 = vals.drop_last();
        let k = keys.last();
        let v = vals.last();
        assert(k2.no_duplicates()) by {
            assert forall|i: int, j: int| 0 <= i < k2.len() && 0 <= j < k2.len() && i != j implies k2[i]
                != k2[j] by {
                assert(k2[i] == keys[i] && k2[j] == keys[j]);
            }
        }
        lemma_first_index(k2, k);
        if first_index(k2, k) >= 0 {
            assert(keys[first_index(k2, k)] == k2[first_index(k2, k)]);
            assert(keys[keys.len() - 1] == k);
        }
        lemma_assoc_counts(k2, v2, pos);
        assert(k2.push(k) =~= keys);
        assert(v2.push(v) =~= vals);
        lemma_assoc_push(k2, v2, k, v);
        let m2 = assoc_map(k2, v2);
        assert(m == m2.insert(k, v));
        assert(m.dom() =~= m2.dom().insert(k));
        assert(!m2.dom().contains(k));
        if pos(v) {
            assert(pos_keys(m, pos) =~= pos_keys(m2, pos).insert(k));
        } else {
            assert(pos_keys(m, pos) =~= pos_keys(m2, pos));
        }
    }
}

} // verus!
