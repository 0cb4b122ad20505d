//! Small keyed tables: vectors of `(key, value)` pairs with unique integer
//! keys, standing in for the host's persistent maps.  Iteration order is
//! insertion order, which some callers rely on.

use vstd::prelude::*;

verus! {

/// All keys in the table are distinct.
pub open spec fn unique_keys<K, V>(s: Seq<(K, V)>) -> bool {
    forall|i: int, j: int|
        0 <= i < j < s.len() ==> (#[trigger] s[i]).0 != (#[trigger] s[j]).0
}

/// Whether some entry carries `key`.
pub open spec fn has_key<K, V>(s: Seq<(K, V)>, key: K) -> bool {
    exists|i: int| 0 <= i < s.len() && (#[trigger] s[i]).0 == key
}

/// The position of the entry carrying `key` (meaningful only when present).
pub open spec fn index_of_key<K, V>(s: Seq<(K, V)>, key: K) -> int {
    choose|i: int| 0 <= i < s.len() && (#[trigger] s[i]).0 == key
}

/// The value stored under `key`, or `None` when absent.
pub open spec fn value_of<K, V>(s: Seq<(K, V)>, key: K) -> Option<V> {
    if has_key(s, key) {
        Some(s[index_of_key(s, key)].1)
    } else {
        None
    }
}

/// The table after binding `key` to `value`: updated in place when the key is
/// already present, appended otherwise.
pub open spec fn inserted<K, V>(s: Seq<(K, V)>, key: K, value: V) -> Seq<(K, V)> {
    if has_key(s, key) {
        s.update(index_of_key(s, key), (key, value))
    } else {
        s.push((key, value))
    }
}

/// The table after dropping `key` (unchanged when absent).
pub open spec fn removed<K, V>(s: Seq<(K, V)>, key: K) -> Seq<(K, V)> {
    if has_key(s, key) {
        s.remove(index_of_key(s, key))
    } else {
        s
    }
}

/// With unique keys, any entry carrying `key` sits at `index_of_key`.
pub proof fn lemma_key_index_unique<K, V>(s: Seq<(K, V)>, key: K, i: int)
    requires
        unique_keys(s),
        0 <= i < s.len(),
        s[i].0 == key,
    ensures
        has_key(s, key),
        index_of_key(s, key) == i,
{
    assert(has_key(s, key));
    let j = index_of_key(s, key);
    if i != j {
        assert(s[i].0 != s[j].0);
    }
}

/// Insertion preserves key uniqueness and rebinds exactly one key.
pub proof fn lemma_inserted<K, V>(s: Seq<(K, V)>, key: K, value: V)
    requires
        unique_keys(s),
    ensures
        unique_keys(inserted(s, key, value)),
        value_of(inserted(s, key, value), key) == Some(value),
        forall|k: K|
            k != key ==> #[trigger] value_of(inserted(s, key, value), k) == value_of(s, k),
        forall|k: K| k != key ==> (has_key(inserted(s, key, value), k) <==> has_key(s, k)),
        has_key(inserted(s, key, value), key),
{
    let t = inserted(s, key, value);
    if has_key(s, key) {
        let i = index_of_key(s, key);
        assert(0 <= i < s.len() && s[i].0 == key);
        assert forall|a: int, b: int| 0 <= a < b < t.len() implies (#[trigger] t[a]).0
            != (#[trigger] t[b]).0 by {
            assert(s[a].0 != s[b].0);
        }
        lemma_key_index_unique(t, key, i);
        assert forall|k: K| k != key implies #[trigger] value_of(t, k) == value_of(s, k) by {
            if has_key(s, k) {
                let j = index_of_key(s, k);
                assert(j != i);
                assert(t[j].0 == k && t[j].1 == s[j].1);
                lemma_key_index_unique(t, k, j);
            } else {
                if has_key(t, k) {
                    let j = index_of_key(t, k);
                    assert(s[j].0 == k);
                }
            }
        }
    } else {
        assert forall|a: int, b: int| 0 <= a < b < t.len() implies (#[trigger] t[a]).0
            != (#[trigger] t[b]).0 by {
            if b < s.len() {
                assert(s[a].0 != s[b].0);
            } else {
                assert(t[a].0 == s[a].0);
                assert(!(s[a].0 == key)) by {
                    if s[a].0 == key {
                        assert(has_key(s, key));
                    }
                }
            }
        }
        lemma_key_index_unique(t, key, s.len() as int);
        assert forall|k: K| k != key implies #[trigger] value_of(t, k) == value_of(s, k) by {
            if has_key(s, k) {
                let j = index_of_key(s, k);
                assert(t[j].0 == k && t[j].1 == s[j].1);
                lemma_key_index_unique(t, k, j);
            } else {
                if has_key(t, k) {
                    let j = index_of_key(t, k);
                    assert(j < s.len());
                    assert(s[j].0 == k);
                }
            }
        }
    }
    assert forall|k: K| k != key implies (has_key(t, k) <==> has_key(s, k)) by {
        assert(value_of(t, k) == value_of(s, k));
    }
}

/// Removal preserves key uniqueness, drops exactly one key and keeps the rest.
pub proof fn lemma_removed<K, V>(s: Seq<(K, V)>, key: K)
    requires
        unique_keys(s),
    ensures
        unique_keys(removed(s, key)),
        !has_key(removed(s, key), key),
        forall|k: K| k != key ==> #[trigger] value_of(removed(s, key), k) == value_of(s, k),
        forall|k: K| k != key ==> (has_key(removed(s, key), k) <==> has_key(s, k)),
{
    let t = removed(s, key);
    if has_key(s, key) {
        let i = index_of_key(s, key);
        assert(0 <= i < s.len() && s[i].0 == key);
        assert forall|a: int, b: int| 0 <= a < b < t.len() implies (#[trigger] t[a]).0
            != (#[trigger] t[b]).0 by {
            let a0 = if a < i {
                a
            } else {
                a + 1
            };
            let b0 = if b < i {
                b
            } else {
                b + 1
            };
            assert(t[a] == s[a0] && t[b] == s[b0]);
            assert(s[a0].0 != s[b0].0);
        }
        assert forall|k: K| has_key(t, k) implies k != key && has_key(s, k) by {
            let j = index_of_key(t, k);
            let j0 = if j < i {
                j
            } else {
                j + 1
            };
            assert(t[j] == s[j0]);
            lemma_key_index_unique(s, k, j0);
            assert(s[j0].0 != s[i].0);
        }
        assert forall|k: K| k != key implies #[trigger] value_of(t, k) == value_of(s, k) by {
            if has_key(s, k) {
                let j = index_of_key(s, k);
                assert(j != i);
                let j1 = if j < i {
                    j
                } else {
                    j - 1
                };
                assert(t[j1] == s[j]);
                lemma_key_index_unique(t, k, j1);
            }
        }
    }
    assert forall|k: K| k != key implies (has_key(t, k) <==> has_key(s, k)) by {
        assert(value_of(t, k) == value_of(s, k));
    }
}

/// Rebinding a key twice is the same as binding it once to the final value.
pub proof fn lemma_inserted_twice<K, V>(s: Seq<(K, V)>, key: K, v1: V, v2: V)
    requires
        unique_keys(s),
    ensures
        inserted(inserted(s, key, v1), key, v2) =~= inserted(s, key, v2),
{
    let t = inserted(s, key, v1);
    lemma_inserted(s, key, v1);
    if has_key(s, key) {
        let i = index_of_key(s, key);
        lemma_key_index_unique(s, key, i);
        lemma_key_index_unique(t, key, i);
    } else {
        lemma_key_index_unique(t, key, s.len() as int);
    }
}

/// The sum of `f` over all elements of the sequence.
pub open spec fn sum_by<T>(s: Seq<T>, f: spec_fn(T) -> int) -> int
    decreases s.len(),
{
    if s.len() == 0 {
        0
    } else {
        sum_by(s.drop_last(), f) + f(s.last())
    }
}

/// A sum of non-negative terms is non-negative.
pub proof fn lemma_sum_by_nonneg<T>(s: Seq<T>, f: spec_fn(T) -> int)
    requires
        forall|i: int| 0 <= i < s.len() ==> f(#[trigger] s[i]) >= 0,
    ensures
        sum_by(s, f) >= 0,
    decreases s.len(),
{
    if s.len() > 0 {
        lemma_sum_by_nonneg(s.drop_last(), f);
    }
}

/// Appending an element adds its term to the sum.
pub proof fn lemma_sum_by_push<T>(s: Seq<T>, f: spec_fn(T) -> int, x: T)
    ensures
        sum_by(s.push(x), f) == sum_by(s, f) + f(x),
{
    assert(s.push(x).drop_last() =~= s);
}

/// Replacing one element shifts the sum by the difference of the terms.
pub proof fn lemma_sum_by_update<T>(s: Seq<T>, f: spec_fn(T) -> int, i: int, x: T)
    requires
        0 <= i < s.len(),
    ensures
        sum_by(s.update(i, x), f) == sum_by(s, f) - f(s[i]) + f(x),
    decreases s.len(),
{
    if i == s.len() - 1 {
        assert(s.update(i, x).drop_last() =~= s.drop_last());
    } else {
        assert(s.update(i, x).drop_last() =~= s.drop_last().update(i, x));
        lemma_sum_by_update(s.drop_last(), f, i, x);
    }
}

/// Removing one element subtracts its term from the sum.
pub proof fn lemma_sum_by_remove<T>(s: Seq<T>, f: spec_fn(T) -> int, i: int)
    requires
        0 <= i < s.len(),
    ensures
        sum_by(s.remove(i), f) == sum_by(s, f) - f(s[i]),
    decreases s.len(),
{
    if i == s.len() - 1 {
        assert(s.remove(i) =~= s.drop_last());
    } else {
        assert(s.remove(i).drop_last() =~= s.drop_last().remove(i));
        lemma_sum_by_remove(s.drop_last(), f, i);
    }
}

/// Two sequences whose terms agree element by element have the same sum.
pub proof fn lemma_sum_by_congruence<T>(s1: Seq<T>, s2: Seq<T>, f: spec_fn(T) -> int)
    requires
        s1.len() == s2.len(),
        forall|i: int| 0 <= i < s1.len() ==> f(#[trigger] s1[i]) == f(#[trigger] s2[i]),
    ensures
        sum_by(s1, f) == sum_by(s2, f),
    decreases s1.len(),
{
    if s1.len() > 0 {
        lemma_sum_by_congruence(s1.drop_last(), s2.drop_last(), f);
    }
}

/// With non-negative terms, each single term is at most the whole sum.
pub proof fn lemma_sum_by_element_bound<T>(s: Seq<T>, f: spec_fn(T) -> int, i: int)
    requires
        0 <= i < s.len(),
        forall|j: int| 0 <= j < s.len() ==> f(#[trigger] s[j]) >= 0,
    ensures
        f(s[i]) <= sum_by(s, f),
    decreases s.len(),
{
    if i == s.len() - 1 {
        lemma_sum_by_nonneg(s.drop_last(), f);
    } else {
        lemma_sum_by_element_bound(s.drop_last(), f, i);
    }
}

/// Finds the position of `key` in the table.
pub fn find_key<V>(table: &Vec<(u64, V)>, key: u64) -> (r: Option<usize>)
    requires
        unique_keys(table@),
    ensures
        match r {
            Some(i) => i < table@.len() && table@[i as int].0 == key && has_key(table@, key)
                && index_of_key(table@, key) == i,
            None => !has_key(table@, key),
        },
{
    let mut i: usize = 0;
    while i < table.len()
        invariant
            unique_keys(table@),
            i <= table@.len(),
            forall|k: int| 0 <= k < i ==> (#[trigger] table@[k]).0 != key,
        decreases table@.len() - i,
    {
        if table[i].0 == key {
            proof {
                lemma_key_index_unique(table@, key, i as int);
            }
            return Some(i);
        }
        i = i + 1;
    }
    proof {
        if has_key(table@, key) {
            let j = index_of_key(table@, key);
            assert(table@[j].0 == key);
        }
    }
    None
}

/// Whether the table binds `key`.
pub fn contains_key<V>(table: &Vec<(u64, V)>, key: u64) -> (r: bool)
    requires
        unique_keys(table@),
    ensures
        r == has_key(table@, key),
{
    find_key(table, key).is_some()
}

/// Binds `key` to `value`, replacing any previous binding.
pub fn insert_entry<V>(table: &mut Vec<(u64, V)>, key: u64, value: V)
    requires
        unique_keys(old(table)@),
    ensures
        final(table)@ == inserted(old(table)@, key, value),
        unique_keys(final(table)@),
{
    proof {
        lemma_inserted(old(table)@, key, value);
    }
    match find_key(table, key) {
        Some(i) => {
            table.set(i, (key, value));
        },
        None => {
            table.push((key, value));
        },
    }
}

/// Drops the binding of `key`, if any.
pub fn remove_entry<V>(table: &mut Vec<(u64, V)>, key: u64)
    requires
        unique_keys(old(table)@),
    ensures
        final(table)@ == removed(old(table)@, key),
        unique_keys(final(table)@),
{
    proof {
        lemma_removed(old(table)@, key);
    }
    match find_key(table, key) {
        Some(i) => {
            table.remove(i);
        },
        None => {},
    }
}

} // verus!
