//! Sequences of key/value entries, the model of insertion-ordered maps.
//!
//! An insertion-ordered map is viewed as the sequence of its entries in order.
//! Its keys are pairwise distinct, and `lookup` reads it as a plain map.
use vstd::prelude::*;

verus! {

/// No key occurs twice among the entries.
pub open spec fn keys_distinct<K, V>(s: Seq<(K, V)>) -> bool {
    forall|i: int, j: int|
        0 <= i < s.len() && 0 <= j < s.len() && i != j ==> #[trigger] s[i].0 != #[trigger] s[j].0
}

/// Some entry has key `k`.
pub open spec fn has_key<K, V>(s: Seq<(K, V)>, k: K) -> bool {
    exists|i: int| 0 <= i < s.len() && #[trigger] s[i].0 == k
}

/// The position of the entry with key `k` (meaningful when `has_key(s, k)`).
pub open spec fn key_index<K, V>(s: Seq<(K, V)>, k: K) -> int {
    choose|i: int| 0 <= i < s.len() && #[trigger] s[i].0 == k
}

/// The value stored under `k`, if any.
pub open spec fn lookup<K, V>(s: Seq<(K, V)>, k: K) -> Option<V> {
    if has_key(s, k) {
        Some(s[key_index(s, k)].1)
    } else {
        None
    }
}

/// The keys of the entries, in order.
pub open spec fn keys_of<K, V>(s: Seq<(K, V)>) -> Seq<K> {
    s.map_values(|e: (K, V)| e.0)
}

/// With distinct keys, the entry at `i` is the one `lookup` finds for its key.
pub proof fn lemma_key_index_unique<K, V>(s: Seq<(K, V)>, i: int)
    requires
        keys_distinct(s),
        0 <= i < s.len(),
    ensures
        has_key(s, s[i].0),
        key_index(s, s[i].0) == i,
        lookup(s, s[i].0) == Some(s[i].1),
{
    let k = s[i].0;
    assert(s[i].0 == k);
    let j = key_index(s, k);
    assert(0 <= j < s.len() && s[j].0 == k);
}

/// Appending an entry with a fresh key.
pub proof fn lemma_push_fresh<K, V>(s: Seq<(K, V)>, k: K, v: V)
    requires
        keys_distinct(s),
        !has_key(s, k),
    ensures
        keys_distinct(s.push((k, v))),
        forall|k2: K| #[trigger]
            lookup(s.push((k, v)), k2) == (if k2 == k {
                Some(v)
            } else {
                lookup(s, k2)
            }),
{
    let t = s.push((k, v));
    assert forall|i: int, j: int|
        0 <= i < t.len() && 0 <= j < t.len() && i != j implies #[trigger] t[i].0
        != #[trigger] t[j].0 by {
        if i == s.len() {
            assert(s[j].0 == t[j].0);
        } else if j == s.len() {
            assert(s[i].0 == t[i].0);
        } else {
            assert(s[i].0 == t[i].0 && s[j].0 == t[j].0);
        }
    }
    assert forall|k2: K| #[trigger]
        lookup(t, k2) == (if k2 == k {
            Some(v)
        } else {
            lookup(s, k2)
        }) by {
        if k2 == k {
            lemma_key_index_unique(t, s.len() as int);
        } else if has_key(s, k2) {
            let i = key_index(s, k2);
            lemma_key_index_unique(s, i);
            assert(t[i] == s[i]);
            lemma_key_index_unique(t, i);
        } else {
            if has_key(t, k2) {
                let i = key_index(t, k2);
                assert(i != s.len());
                assert(s[i].0 == k2);
            }
        }
    }
}

/// Replacing the value of the entry at `i`, keeping its key and place.
pub proof fn lemma_update_value<K, V>(s: Seq<(K, V)>, i: int, v: V)
    requires
        keys_distinct(s),
        0 <= i < s.len(),
    ensures
        keys_distinct(s.update(i, (s[i].0, v))),
        keys_of(s.update(i, (s[i].0, v))) == keys_of(s),
        forall|k2: K| #[trigger]
            lookup(s.update(i, (s[i].0, v)), k2) == (if k2 == s[i].0 {
                Some(v)
            } else {
                lookup(s, k2)
            }),
{
    let t = s.update(i, (s[i].0, v));
    assert forall|a: int, b: int|
        0 <= a < t.len() && 0 <= b < t.len() && a != b implies #[trigger] t[a].0
        != #[trigger] t[b].0 by {
        assert(t[a].0 == s[a].0 && t[b].0 == s[b].0);
    }
    assert(keys_of(t) =~= keys_of(s));
    assert forall|k2: K| #[trigger]
        lookup(t, k2) == (if k2 == s[i].0 {
            Some(v)
        } else {
            lookup(s, k2)
        }) by {
        if k2 == s[i].0 {
            lemma_key_index_unique(t, i);
        } else if has_key(s, k2) {
            let j = key_index(s, k2);
            lemma_key_index_unique(s, j);
            lemma_key_index_unique(t, j);
        } else {
            if has_key(t, k2) {
                let j = key_index(t, k2);
                assert(s[j].0 == k2);
            }
        }
    }
}

/// Removing the entry at `i`, shifting the later ones down.
pub proof fn lemma_remove_at<K, V>(s: Seq<(K, V)>, i: int)
    requires
        keys_distinct(s),
        0 <= i < s.len(),
    ensures
        keys_distinct(s.remove(i)),
        forall|k2: K| #[trigger]
            lookup(s.remove(i), k2) == (if k2 == s[i].0 {
                None
            } else {
                lookup(s, k2)
            }),
{
    let t = s.remove(i);
    assert forall|a: int, b: int|
        0 <= a < t.len() && 0 <= b < t.len() && a != b implies #[trigger] t[a].0
        != #[trigger] t[b].0 by {
        let sa = if a < i {
            a
        } else {
            a + 1
        };
        let sb = if b < i {
            b
        } else {
            b + 1
        };
        assert(t[a] == s[sa] && t[b] == s[sb]);
    }
    assert forall|k2: K| #[trigger]
        lookup(t, k2) == (if k2 == s[i].0 {
            None
        } else {
            lookup(s, k2)
        }) by {
        if has_key(t, k2) {
            let a = key_index(t, k2);
            let sa = if a < i {
                a
            } else {
                a + 1
            };
            assert(t[a] == s[sa]);
            lemma_key_index_unique(s, sa);
            lemma_key_index_unique(t, a);
            assert(sa != i);
        } else if has_key(s, k2) {
            let j = key_index(s, k2);
            if j != i {
                let a = if j < i {
                    j
                } else {
                    j - 1
                };
                assert(t[a] == s[j]);
            }
            lemma_key_index_unique(s, j);
        }
    }
}

} // verus!
