use crate::entry::SortedEntry;
use crate::model::{
    after_get_or_add, after_insert, after_remove, get_or_add_value, has_key, lemma_after_get_or_add,
    lemma_after_insert, lemma_after_remove, lemma_rank_splits, lemma_rank_unique, lookup, rank,
    strictly_ascending,
};
use crate::order::{key_eq, key_lt, lemma_key_order};
use vstd::laws_cmp::obeys_cmp;
use vstd::prelude::*;

verus! {

/// A map kept as a sequence of entries sorted by key, searched by bisection.
pub trait SortedCollection<K, V>: Sized {
    /// What a search hands back: where the key is, or where it belongs.
    type SearchResult;

    /// The keys ascend strictly and obey the laws of a total order.
    spec fn well_formed(&self) -> bool;

    /// The value stored under `key`, if any.
    spec fn value_of(&self, key: K) -> Option<V>;

    /// Sets `key` to `val`, handing back the value it replaced.
    fn sorted_insert(&mut self, key: K, val: V) -> (r: Option<V>)
        requires
            old(self).well_formed(),
        ensures
            final(self).well_formed(),
            r == old(self).value_of(key),
            final(self).value_of(key) == Some(val),
    ;

    /// The value stored under `key`, after storing `val` there if none was.
    fn sorted_get_or_add(&mut self, key: K, val: V) -> (r: &V)
        requires
            old(self).well_formed(),
        ensures
            final(self).well_formed(),
            final(self).value_of(key) == Some(*r),
            *r == (match old(self).value_of(key) {
                Some(w) => w,
                None => val,
            }),
    ;

    /// The value stored under `key`, if any.
    fn sorted_get(&self, key: K) -> (r: Option<&V>)
        requires
            self.well_formed(),
        ensures
            r is None <==> self.value_of(key) is None,
            r matches Some(v) ==> self.value_of(key) == Some(*v),
    ;

    /// Takes out the entry of `key`, handing back its value.
    fn sorted_remove(&mut self, key: K) -> (r: Option<V>)
        requires
            old(self).well_formed(),
        ensures
            final(self).well_formed(),
            r == old(self).value_of(key),
            final(self).value_of(key) is None,
    ;

    /// Where `key` is, or where it belongs.
    fn sorted_searh(&self, key: &K) -> (r: Self::SearchResult)
        requires
            self.well_formed(),
    ;
}

/// A vector of entries kept in ascending order of key.
pub type SortedVecMap<K, V> = Vec<SortedEntry<K, V>>;

impl<K: Ord + Clone, V: Clone> SortedCollection<K, V> for SortedVecMap<K, V> {
    /// `Ok(i)` where the key is at `i`, `Err(i)` where it would be inserted.
    type SearchResult = Result<usize, usize>;

    open spec fn well_formed(&self) -> bool {
        obeys_cmp::<K>() && strictly_ascending(self@)
    }

    open spec fn value_of(&self, key: K) -> Option<V> {
        lookup(self@, key)
    }

    fn sorted_searh(&self, key: &K) -> (r: Result<usize, usize>)
        ensures
            match r {
                Ok(i) => has_key(self@, *key) && i == rank(self@, *key),
                Err(i) => !has_key(self@, *key) && i == rank(self@, *key),
            },
    {
        proof {
            lemma_key_order::<K>();
        }
        let mut lo: usize = 0;
        let mut hi: usize = self.len();
        while lo < hi
            invariant
                obeys_cmp::<K>(),
                strictly_ascending(self@),
                lo <= hi <= self@.len(),
                forall|j: int| 0 <= j < lo ==> key_lt(#[trigger] self@[j].key, *key),
                forall|j: int| hi <= j < self@.len() ==> key_lt(*key, #[trigger] self@[j].key),
            decreases hi - lo,
        {
            let mid: usize = lo + (hi - lo) / 2;
            proof {
                lemma_key_order::<K>();
            }
            match self[mid].key.cmp(key) {
                core::cmp::Ordering::Less => {
                    proof {
                        assert forall|j: int| 0 <= j <= mid implies key_lt(
                            #[trigger] self@[j].key,
                            *key,
                        ) by {
                            if j < mid {
                                assert(key_lt(self@[j].key, self@[mid as int].key));
                            }
                        }
                    }
                    lo = mid + 1;
                },
                core::cmp::Ordering::Greater => {
                    proof {
                        assert forall|j: int| mid <= j < self@.len() implies key_lt(
                            *key,
                            #[trigger] self@[j].key,
                        ) by {
                            if j > mid {
                                assert(key_lt(self@[mid as int].key, self@[j].key));
                            }
                        }
                    }
                    hi = mid;
                },
                core::cmp::Ordering::Equal => {
                    proof {
                        let m = mid as int;
                        assert(key_eq(self@[m].key, *key));
                        assert forall|j: int| 0 <= j < m implies key_lt(
                            #[trigger] self@[j].key,
                            *key,
                        ) by {
                            assert(key_lt(self@[j].key, self@[m].key));
                        }
                        assert forall|j: int| m <= j < self@.len() implies !key_lt(
                            #[trigger] self@[j].key,
                            *key,
                        ) by {
                            if j > m {
                                assert(key_lt(self@[m].key, self@[j].key));
                            }
                        }
                        lemma_rank_unique(self@, *key, m);
                    }
                    return Ok(mid);
                },
            }
        }
        proof {
            assert forall|j: int| lo <= j < self@.len() implies !key_lt(
                #[trigger] self@[j].key,
                *key,
            ) by {}
            lemma_rank_unique(self@, *key, lo as int);
            lemma_rank_splits(self@, *key);
        }
        Err(lo)
    }

    fn sorted_insert(&mut self, key: K, val: V) -> (r: Option<V>)
        ensures
            r == lookup(old(self)@, key),
            final(self)@ == after_insert(old(self)@, key, val),
    {
        proof {
            lemma_after_insert(self@, key, val);
            lemma_rank_splits(self@, key);
        }
        match self.sorted_searh(&key) {
            Ok(idx) => {
                let mut v = val;
                core::mem::swap(&mut self[idx].val, &mut v);
                Some(v)
            },
            Err(idx) => {
                self.insert(idx, SortedEntry { key, val });
                None
            },
        }
    }

    fn sorted_get_or_add(&mut self, key: K, val: V) -> (r: &V)
        ensures
            final(self)@ == after_get_or_add(old(self)@, key, val),
            *r == get_or_add_value(old(self)@, key, val),
    {
        proof {
            lemma_after_get_or_add(self@, key, val);
            lemma_rank_splits(self@, key);
        }
        match self.sorted_searh(&key) {
            Ok(idx) => &self[idx].val,
            Err(idx) => {
                self.insert(idx, SortedEntry { key, val });
                &self[idx].val
            },
        }
    }

    fn sorted_get(&self, key: K) -> (r: Option<&V>) {
        proof {
            lemma_rank_splits(self@, key);
        }
        match self.sorted_searh(&key) {
            Ok(idx) => Some(&self[idx].val),
            _ => None,
        }
    }

    fn sorted_remove(&mut self, key: K) -> (r: Option<V>)
        ensures
            r == lookup(old(self)@, key),
            final(self)@ == after_remove(old(self)@, key),
    {
        proof {
            lemma_after_remove(self@, key);
            lemma_rank_splits(self@, key);
        }
        match self.sorted_searh(&key) {
            Ok(idx) => Some(self.remove(idx).val),
            _ => None,
        }
    }
}

} // verus!
