use crate::entry::SortedEntry;
use crate::model::{
    after_get_or_add, after_insert, after_remove, get_or_add_value, has_key, lemma_after_insert,
    lemma_after_remove, lemma_rank_splits, lookup, strictly_ascending,
};
use vstd::laws_cmp::obeys_cmp;
use vstd::prelude::*;

verus! {

/// Setting a key to a value twice: the first time hands back nothing when the
/// key was new, the second time hands back that same value, and the second
/// time changes nothing, so the size stays as it was.
pub proof fn lemma_insert_same_twice<K: Ord, V>(s: Seq<SortedEntry<K, V>>, k: K, v: V)
    requires
        obeys_cmp::<K>(),
        strictly_ascending(s),
    ensures
        !has_key(s, k) ==> lookup(s, k) is None,
        !has_key(s, k) ==> after_insert(s, k, v).len() == s.len() + 1,
        lookup(after_insert(s, k, v), k) == Some(v),
        after_insert(after_insert(s, k, v), k, v) == after_insert(s, k, v),
        after_insert(after_insert(s, k, v), k, v).len() == after_insert(s, k, v).len(),
{
    lemma_rank_splits(s, k);
    lemma_after_insert(s, k, v);
    let t = after_insert(s, k, v);
    assert(after_insert(t, k, v) =~= t);
}

/// Round trip: after setting `k` to `v`, a lookup of `k` gives `v`; removing
/// `k` then hands back `v`, and a lookup afterwards finds nothing.
pub proof fn lemma_round_trip<K: Ord, V>(s: Seq<SortedEntry<K, V>>, k: K, v: V)
    requires
        obeys_cmp::<K>(),
        strictly_ascending(s),
    ensures
        lookup(after_insert(s, k, v), k) == Some(v),
        lookup(after_remove(after_insert(s, k, v), k), k) is None,
{
    lemma_after_insert(s, k, v);
    lemma_after_remove(after_insert(s, k, v), k);
}

/// A get-or-add of a missing key stores and hands back its value and adds one
/// entry; a second get-or-add of that key with any other value hands back the
/// first value and leaves the size as it was.
pub proof fn lemma_get_or_add_miss_then_hit<K: Ord, V>(
    s: Seq<SortedEntry<K, V>>,
    k: K,
    v1: V,
    v2: V,
)
    requires
        obeys_cmp::<K>(),
        strictly_ascending(s),
        !has_key(s, k),
    ensures
        get_or_add_value(s, k, v1) == v1,
        after_get_or_add(s, k, v1).len() == s.len() + 1,
        get_or_add_value(after_get_or_add(s, k, v1), k, v2) == v1,
        after_get_or_add(after_get_or_add(s, k, v1), k, v2) == after_get_or_add(s, k, v1),
{
    lemma_rank_splits(s, k);
    lemma_after_insert(s, k, v1);
}

} // verus!
