use std::cmp::Ordering;

use sorted_vec_map::{get_key, SortedEntry};

#[test]
fn get_key_copies_the_key() {
    let e = SortedEntry { key: "k".to_string(), val: 3 };
    assert_eq!(get_key(&e), "k".to_string());
}

#[test]
fn entries_compare_by_key_alone() {
    let a = SortedEntry { key: 1, val: "x" };
    let b = SortedEntry { key: 1, val: "y" };
    let c = SortedEntry { key: 2, val: "x" };
    assert!(a == b);
    assert!(a != c);
    assert_eq!(a.partial_cmp(&b), Some(Ordering::Equal));
    assert_eq!(a.partial_cmp(&c), Some(Ordering::Less));
    assert_eq!(c.partial_cmp(&a), Some(Ordering::Greater));
    assert!(a < c);
}

#[test]
fn entry_clone_copy_default_debug() {
    let a = SortedEntry { key: 4u8, val: 'd' };
    let b = a;
    let c = a.clone();
    assert_eq!((c.key, c.val), (4, 'd'));
    assert_eq!((b.key, b.val), (4, 'd'));
    let d: SortedEntry<u32, String> = SortedEntry::default();
    assert_eq!((d.key, d.val), (0, String::new()));
    assert_eq!(format!("{:?}", a), "SortedEntry { key: 4, val: 'd' }");
}
