use crate::entry::SortedEntry;
use crate::order::{key_eq, key_lt, lemma_key_order};
use vstd::laws_cmp::obeys_cmp;
use vstd::prelude::*;

verus! {

/// Keys ascend strictly along the sequence: no key is repeated.
pub open spec fn strictly_ascending<K: Ord, V>(s: Seq<SortedEntry<K, V>>) -> bool {
    forall|i: int, j: int|
        #![trigger s[i], s[j]]
        0 <= i < j < s.len() ==> key_lt(s[i].key, s[j].key)
}

/// The number of entries whose key is strictly less than `k`: the index of
/// `k`'s entry when it is present, and where it belongs when it is not.
pub open spec fn rank<K: Ord, V>(s: Seq<SortedEntry<K, V>>, k: K) -> nat
    decreases s.len(),
{
    if s.len() == 0 {
        0
    } else {
        rank(s.drop_last(), k) + if key_lt(s.last().key, k) {
            1nat
        } else {
            0nat
        }
    }
}

/// Some entry has a key equal to `k`.
pub open spec fn has_key<K: Ord, V>(s: Seq<SortedEntry<K, V>>, k: K) -> bool {
    exists|i: int| 0 <= i < s.len() && key_eq(#[trigger] s[i].key, k)
}

/// The value stored under `k`, if any.
pub open spec fn lookup<K: Ord, V>(s: Seq<SortedEntry<K, V>>, k: K) -> Option<V> {
    if has_key(s, k) {
        Some(s[rank(s, k) as int].val)
    } else {
        None
    }
}

/// The entries after `k` is set to `v`: the stored entry keeps its key and
/// takes the new value, or a new entry is placed where `k` belongs.
pub open spec fn after_insert<K: Ord, V>(s: Seq<SortedEntry<K, V>>, k: K, v: V) -> Seq<
    SortedEntry<K, V>,
> {
    let i = rank(s, k) as int;
    if has_key(s, k) {
        s.update(i, SortedEntry { key: s[i].key, val: v })
    } else {
        s.insert(i, SortedEntry { key: k, val: v })
    }
}

/// The entries after `k` is added with `v` only where it is missing.
pub open spec fn after_get_or_add<K: Ord, V>(s: Seq<SortedEntry<K, V>>, k: K, v: V) -> Seq<
    SortedEntry<K, V>,
> {
    if has_key(s, k) {
        s
    } else {
        s.insert(rank(s, k) as int, SortedEntry { key: k, val: v })
    }
}

/// The value that a get-or-add of `k` with `v` hands back.
pub open spec fn get_or_add_value<K: Ord, V>(s: Seq<SortedEntry<K, V>>, k: K, v: V) -> V {
    match lookup(s, k) {
        Some(w) => w,
        None => v,
    }
}

/// The entries after the entry of `k`, if any, is taken out.
pub open spec fn after_remove<K: Ord, V>(s: Seq<SortedEntry<K, V>>, k: K) -> Seq<
    SortedEntry<K, V>,
> {
    if has_key(s, k) {
        s.remove(rank(s, k) as int)
    } else {
        s
    }
}

/// In a strictly ascending sequence, `rank` splits the entries into those
/// below `k` and the rest, and `k` is present exactly at that index.
pub proof fn lemma_rank_splits<K: Ord, V>(s: Seq<SortedEntry<K, V>>, k: K)
    requires
        obeys_cmp::<K>(),
        strictly_ascending(s),
    ensures
        rank(s, k) <= s.len(),
        forall|j: int| 0 <= j < rank(s, k) ==> key_lt(#[trigger] s[j].key, k),
        forall|j: int| rank(s, k) <= j < s.len() ==> !key_lt(#[trigger] s[j].key, k),
        has_key(s, k) <==> (rank(s, k) < s.len() && key_eq(s[rank(s, k) as int].key, k)),
        !has_key(s, k) ==> forall|j: int|
            rank(s, k) <= j < s.len() ==> key_lt(k, #[trigger] s[j].key),
    decreases s.len(),
{
    lemma_key_order::<K>();
    if s.len() > 0 {
        let t = s.drop_last();
        assert(strictly_ascending(t)) by {
            assert forall|i: int, j: int| 0 <= i < j < t.len() implies key_lt(
                #[trigger] t[i].key,
                #[trigger] t[j].key,
            ) by {
                assert(t[i] == s[i] && t[j] == s[j]);
            }
        }
        lemma_rank_splits(t, k);
        let n = s.len() - 1;
        if key_lt(s.last().key, k) {
            if rank(t, k) < n {
                let r = rank(t, k) as int;
                assert(t[r] == s[r]);
                assert(key_lt(s[r].key, s[n].key));
            }
        }
        let r = rank(s, k) as int;
        assert forall|j: int| 0 <= j < r implies key_lt(#[trigger] s[j].key, k) by {
            if j < n {
                assert(t[j] == s[j]);
            }
        }
        assert forall|j: int| r <= j < s.len() implies !key_lt(#[trigger] s[j].key, k) by {
            if j < n {
                assert(t[j] == s[j]);
            }
        }
        if has_key(s, k) {
            let j = choose|j: int| 0 <= j < s.len() && key_eq(#[trigger] s[j].key, k);
            if j > r {
                assert(key_lt(s[r].key, s[j].key));
            }
        }
    }
}

/// Any index that splits a strictly ascending sequence into the entries below
/// `k` and the rest is `rank(s, k)`.
pub proof fn lemma_rank_unique<K: Ord, V>(s: Seq<SortedEntry<K, V>>, k: K, i: int)
    requires
        obeys_cmp::<K>(),
        strictly_ascending(s),
        0 <= i <= s.len(),
        forall|j: int| 0 <= j < i ==> key_lt(#[trigger] s[j].key, k),
        forall|j: int| i <= j < s.len() ==> !key_lt(#[trigger] s[j].key, k),
    ensures
        rank(s, k) == i,
{
    lemma_rank_splits(s, k);
    let r = rank(s, k) as int;
    if r < i {
        assert(key_lt(s[r].key, k));
    }
    if r > i {
        assert(key_lt(s[i].key, k));
    }
}

/// Setting `k` keeps the keys strictly ascending, and afterwards `k` is
/// present, at the same rank, with the value `v`.
pub proof fn lemma_after_insert<K: Ord, V>(s: Seq<SortedEntry<K, V>>, k: K, v: V)
    requires
        obeys_cmp::<K>(),
        strictly_ascending(s),
    ensures
        strictly_ascending(after_insert(s, k, v)),
        has_key(after_insert(s, k, v), k),
        rank(after_insert(s, k, v), k) == rank(s, k),
        lookup(after_insert(s, k, v), k) == Some(v),
{
    lemma_key_order::<K>();
    lemma_rank_splits(s, k);
    let r = rank(s, k) as int;
    let t = after_insert(s, k, v);
    if has_key(s, k) {
        assert forall|j: int| 0 <= j < s.len() implies #[trigger] t[j].key == s[j].key by {}
        assert(strictly_ascending(t)) by {
            assert forall|i: int, j: int| 0 <= i < j < t.len() implies key_lt(
                #[trigger] t[i].key,
                #[trigger] t[j].key,
            ) by {
                assert(t[i].key == s[i].key && t[j].key == s[j].key);
            }
        }
    } else {
        assert(t[r].key == k);
        assert(strictly_ascending(t)) by {
            assert forall|i: int, j: int| 0 <= i < j < t.len() implies key_lt(
                #[trigger] t[i].key,
                #[trigger] t[j].key,
            ) by {
                if j < r {
                    assert(t[i] == s[i] && t[j] == s[j]);
                } else if j == r {
                    assert(t[i] == s[i]);
                } else if i < r {
                    assert(t[i] == s[i] && t[j] == s[j - 1]);
                    assert(key_lt(s[i].key, k));
                    assert(key_lt(k, s[j - 1].key));
                } else if i == r {
                    assert(t[j] == s[j - 1]);
                } else {
                    assert(t[i] == s[i - 1] && t[j] == s[j - 1]);
                }
            }
        }
    }
    assert(key_eq(t[r].key, k));
    assert forall|j: int| 0 <= j < r implies key_lt(#[trigger] t[j].key, k) by {
        assert(t[j] == s[j]);
    }
    assert forall|j: int| r <= j < t.len() implies !key_lt(#[trigger] t[j].key, k) by {
        if j > r && !has_key(s, k) {
            assert(t[j] == s[j - 1]);
        }
    }
    lemma_rank_unique(t, k, r);
}

/// Taking `k` out keeps the keys strictly ascending and leaves `k` absent.
pub proof fn lemma_after_remove<K: Ord, V>(s: Seq<SortedEntry<K, V>>, k: K)
    requires
        obeys_cmp::<K>(),
        strictly_ascending(s),
    ensures
        strictly_ascending(after_remove(s, k)),
        !has_key(after_remove(s, k), k),
{
    lemma_key_order::<K>();
    lemma_rank_splits(s, k);
    let r = rank(s, k) as int;
    let t = after_remove(s, k);
    if has_key(s, k) {
        assert(strictly_ascending(t)) by {
            assert forall|i: int, j: int| 0 <= i < j < t.len() implies key_lt(
                #[trigger] t[i].key,
                #[trigger] t[j].key,
            ) by {
                if j < r {
                    assert(t[i] == s[i] && t[j] == s[j]);
                } else if i < r {
                    assert(t[i] == s[i] && t[j] == s[j + 1]);
                } else {
                    assert(t[i] == s[i + 1] && t[j] == s[j + 1]);
                }
            }
        }
        if has_key(t, k) {
            let j = choose|j: int| 0 <= j < t.len() && key_eq(#[trigger] t[j].key, k);
            if j < r {
                assert(t[j] == s[j]);
            } else {
                assert(t[j] == s[j + 1]);
                assert(key_lt(s[r].key, s[j + 1].key));
            }
        }
    }
}

/// Adding `k` with `v` where it is missing keeps the keys strictly ascending,
/// and afterwards `k` is present with the value handed back.
pub proof fn lemma_after_get_or_add<K: Ord, V>(s: Seq<SortedEntry<K, V>>, k: K, v: V)
    requires
        obeys_cmp::<K>(),
        strictly_ascending(s),
    ensures
        strictly_ascending(after_get_or_add(s, k, v)),
        rank(after_get_or_add(s, k, v), k) == rank(s, k),
        lookup(after_get_or_add(s, k, v), k) == Some(get_or_add_value(s, k, v)),
{
    lemma_after_insert(s, k, v);
}

} // verus!
