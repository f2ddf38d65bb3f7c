//! Keyed tables held as sequences of (key, value) rows with distinct keys,
//! and what lookups in them give after rows change.
use vstd::prelude::*;

verus! {

/// No key appears in two rows.
pub open spec fn unique_keys<K, V>(s: Seq<(K, V)>) -> bool {
    forall|i: int, j: int| 0 <= i < s.len() && 0 <= j < s.len() && s[i].0 == s[j].0 ==> i == j
}

/// Some row has key `k`.
pub open spec fn has_key<K, V>(s: Seq<(K, V)>, k: K) -> bool {
    exists|i: int| 0 <= i < s.len() && s[i].0 == k
}

/// The value in the row with key `k`, if there is one.
pub open spec fn lookup<K, V>(s: Seq<(K, V)>, k: K) -> Option<V> {
    if has_key(s, k) {
        Some(s[choose|i: int| 0 <= i < s.len() && s[i].0 == k].1)
    } else {
        None
    }
}

/// Looking up the key of a row gives that row's value.
pub proof fn lemma_lookup_at<K, V>(s: Seq<(K, V)>, i: int)
    requires
        unique_keys(s),
        0 <= i < s.len(),
    ensures
        lookup(s, s[i].0) == Some(s[i].1),
{
    assert(has_key(s, s[i].0));
}

/// Adding a row keeps every key already there.
pub proof fn lemma_has_key_push<K, V>(s: Seq<(K, V)>, row: (K, V))
    ensures
        forall|k: K| has_key(s, k) ==> #[trigger] has_key(s.push(row), k),
        has_key(s.push(row), row.0),
{
    assert forall|k: K| has_key(s, k) implies #[trigger] has_key(s.push(row), k) by {
        let i = choose|i: int| 0 <= i < s.len() && s[i].0 == k;
        assert(s.push(row)[i] == s[i]);
    }
    assert(s.push(row)[s.len() as int] == row);
}

/// Replacing the value of row `i` changes the lookup of its key alone.
pub proof fn lemma_lookup_update<K, V>(s: Seq<(K, V)>, i: int, v: V)
    requires
        unique_keys(s),
        0 <= i < s.len(),
    ensures
        unique_keys(s.update(i, (s[i].0, v))),
        forall|k: K| #[trigger]
            lookup(s.update(i, (s[i].0, v)), k) == if k == s[i].0 {
                Some(v)
            } else {
                lookup(s, k)
            },
{
    let t = s.update(i, (s[i].0, v));
    assert forall|k: K| #[trigger]
        lookup(t, k) == if k == s[i].0 {
            Some(v)
        } else {
            lookup(s, k)
        } by {
        if k == s[i].0 {
            lemma_lookup_at(t, i);
        } else if has_key(s, k) {
            let j = choose|j: int| 0 <= j < s.len() && s[j].0 == k;
            lemma_lookup_at(s, j);
            lemma_lookup_at(t, j);
        } else {
            assert(!has_key(t, k)) by {
                if has_key(t, k) {
                    let j = choose|j: int| 0 <= j < t.len() && t[j].0 == k;
                    assert(s[j].0 == k);
                }
            }
        }
    }
}

/// Adding a row for a new key changes the lookup of that key alone.
pub proof fn lemma_lookup_push<K, V>(s: Seq<(K, V)>, k: K, v: V)
    requires
        unique_keys(s),
        !has_key(s, k),
    ensures
        unique_keys(s.push((k, v))),
        forall|x: K| #[trigger]
            lookup(s.push((k, v)), x) == if x == k {
                Some(v)
            } else {
                lookup(s, x)
            },
{
    let t = s.push((k, v));
    assert(unique_keys(t)) by {
        assert forall|i: int, j: int|
            0 <= i < t.len() && 0 <= j < t.len() && t[i].0 == t[j].0 implies i == j by {
            if i < s.len() && j == s.len() {
                assert(has_key(s, k));
            } else if j < s.len() && i == s.len() {
                assert(has_key(s, k));
            }
        }
    }
    assert forall|x: K| #[trigger]
        lookup(t, x) == if x == k {
            Some(v)
        } else {
            lookup(s, x)
        } by {
        if x == k {
            lemma_lookup_at(t, s.len() as int);
        } else if has_key(s, x) {
            let j = choose|j: int| 0 <= j < s.len() && s[j].0 == x;
            lemma_lookup_at(s, j);
            lemma_lookup_at(t, j);
        } else {
            assert(!has_key(t, x)) by {
                if has_key(t, x) {
                    let j = choose|j: int| 0 <= j < t.len() && t[j].0 == x;
                    if j < s.len() {
                        assert(s[j].0 == x);
                    }
                }
            }
        }
    }
}

/// Removing row `i` removes its key and nothing else.
pub proof fn lemma_lookup_remove<K, V>(s: Seq<(K, V)>, i: int)
    requires
        unique_keys(s),
        0 <= i < s.len(),
    ensures
        unique_keys(s.remove(i)),
        forall|k: K| #[trigger]
            lookup(s.remove(i), k) == if k == s[i].0 {
                None
            } else {
                lookup(s, k)
            },
{
    let t = s.remove(i);
    assert(unique_keys(t)) by {
        assert forall|a: int, b: int|
            0 <= a < t.len() && 0 <= b < t.len() && t[a].0 == t[b].0 implies a == b by {
            let a2 = if a < i {
                a
            } else {
                a + 1
            };
            let b2 = if b < i {
                b
            } else {
                b + 1
            };
            assert(s[a2].0 == s[b2].0);
        }
    }
    assert forall|k: K| #[trigger]
        lookup(t, k) == if k == s[i].0 {
            None
        } else {
            lookup(s, k)
        } by {
        if k == s[i].0 {
            assert(!has_key(t, k)) by {
                if has_key(t, k) {
                    let j = choose|j: int| 0 <= j < t.len() && t[j].0 == k;
                    let j2 = if j < i {
                        j
                    } else {
                        j + 1
                    };
                    assert(s[j2].0 == s[i].0);
                }
            }
        } else if has_key(s, k) {
            let j = choose|j: int| 0 <= j < s.len() && s[j].0 == k;
            lemma_lookup_at(s, j);
            let j1 = if j < i {
                j
            } else {
                j - 1
            };
            assert(t[j1] == s[j]);
            lemma_lookup_at(t, j1);
        } else {
            assert(!has_key(t, k)) by {
                if has_key(t, k) {
                    let j = choose|j: int| 0 <= j < t.len() && t[j].0 == k;
                    let j2 = if j < i {
                        j
                    } else {
                        j + 1
                    };
                    assert(s[j2].0 == k);
                }
            }
        }
    }
}

} // verus!
