use vstd::prelude::*;
use vstd::std_specs::cmp::{OrdSpec, PartialEqSpec};

verus! {

/// One key-value pair of a sorted collection. Entries compare by key alone.
#[derive(Default, Clone, Copy, Debug)]
pub struct SortedEntry<K, V> {
    pub key: K,
    pub val: V,
}

/// A copy of the entry's key.
pub fn get_key<K: Ord + Clone, V>(entry: &SortedEntry<K, V>) -> (r: K)
    ensures
        vstd::pervasive::strictly_cloned(entry.key, r),
{
    entry.key.clone()
}

impl<K: Ord, V> PartialEq for SortedEntry<K, V> {
    fn eq(&self, other: &Self) -> (r: bool) {
        self.key == other.key
    }
}

impl<K: Ord, V> vstd::std_specs::cmp::PartialEqSpecImpl for SortedEntry<K, V> {
    open spec fn obeys_eq_spec() -> bool {
        K::obeys_eq_spec()
    }

    open spec fn eq_spec(&self, other: &Self) -> bool {
        self.key.eq_spec(&other.key)
    }
}

impl<K: Ord, V> Eq for SortedEntry<K, V> {}

impl<K: Ord, V> PartialOrd for SortedEntry<K, V> {
    fn partial_cmp(&self, other: &Self) -> (r: Option<core::cmp::Ordering>) {
        Some(self.key.cmp(&other.key))
    }
}

impl<K: Ord, V> vstd::std_specs::cmp::PartialOrdSpecImpl for SortedEntry<K, V> {
    open spec fn obeys_partial_cmp_spec() -> bool {
        K::obeys_cmp_spec()
    }

    open spec fn partial_cmp_spec(&self, other: &Self) -> Option<core::cmp::Ordering> {
        Some(self.key.cmp_spec(&other.key))
    }
}

} // verus!
