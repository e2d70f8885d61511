use sorted_vec_map::{SortedCollection, SortedEntry, SortedVecMap};

fn pairs<K: Clone, V: Clone>(m: &SortedVecMap<K, V>) -> Vec<(K, V)> {
    m.iter().map(|e| (e.key.clone(), e.val.clone())).collect()
}

fn strictly_ascending<K: Ord, V>(m: &SortedVecMap<K, V>) -> bool {
    m.windows(2).all(|w| w[0].key < w[1].key)
}

#[test]
fn scenario_three_inserts_get_remove() {
    let mut m: SortedVecMap<u32, String> = Vec::new();
    assert_eq!(m.sorted_insert(3, "c".to_string()), None);
    assert_eq!(m.sorted_insert(1, "a".to_string()), None);
    assert_eq!(m.sorted_insert(2, "b".to_string()), None);
    assert_eq!(
        pairs(&m),
        vec![(1, "a".to_string()), (2, "b".to_string()), (3, "c".to_string())]
    );
    assert_eq!(m.sorted_get(2), Some(&"b".to_string()));
    assert_eq!(m.sorted_remove(1), Some("a".to_string()));
    assert_eq!(pairs(&m), vec![(2, "b".to_string()), (3, "c".to_string())]);
    assert_eq!(m.sorted_get(1), None);
}

#[test]
fn insert_replaces_value_and_returns_previous() {
    let mut m: SortedVecMap<i64, &str> = Vec::new();
    assert_eq!(m.sorted_insert(5, "five"), None);
    assert_eq!(m.sorted_insert(5, "FIVE"), Some("five"));
    assert_eq!(pairs(&m), vec![(5, "FIVE")]);
}

#[test]
fn insert_same_key_and_value_twice() {
    let mut m: SortedVecMap<u8, u8> = vec![SortedEntry { key: 1, val: 1 }];
    assert_eq!(m.sorted_insert(7, 70), None);
    assert_eq!(m.len(), 2);
    assert_eq!(m.sorted_insert(7, 70), Some(70));
    assert_eq!(m.len(), 2);
    assert_eq!(pairs(&m), vec![(1, 1), (7, 70)]);
}

#[test]
fn insert_then_get_and_remove_round_trip() {
    let mut m: SortedVecMap<u16, u16> = Vec::new();
    for k in [4u16, 9, 1] {
        m.sorted_insert(k, k * 10);
    }
    assert_eq!(m.sorted_insert(6, 66), None);
    assert_eq!(m.sorted_get(6), Some(&66));
    assert_eq!(m.sorted_remove(6), Some(66));
    assert_eq!(m.sorted_get(6), None);
    assert_eq!(pairs(&m), vec![(1, 10), (4, 40), (9, 90)]);
}

#[test]
fn get_or_add_miss_then_hit() {
    let mut m: SortedVecMap<u64, String> = Vec::new();
    assert_eq!(m.sorted_get_or_add(8, "first".to_string()), "first");
    assert_eq!(m.len(), 1);
    assert_eq!(m.sorted_get_or_add(8, "second".to_string()), "first");
    assert_eq!(m.len(), 1);
    assert_eq!(pairs(&m), vec![(8, "first".to_string())]);
}

#[test]
fn get_or_add_places_new_entry_in_order() {
    let mut m: SortedVecMap<u32, u32> = Vec::new();
    m.sorted_get_or_add(20, 2);
    m.sorted_get_or_add(10, 1);
    assert_eq!(*m.sorted_get_or_add(15, 0), 0);
    assert_eq!(pairs(&m), vec![(10, 1), (15, 0), (20, 2)]);
}

#[test]
fn search_finds_index_or_insertion_point() {
    let mut m: SortedVecMap<i32, ()> = Vec::new();
    assert_eq!(m.sorted_searh(&0), Err(0));
    for k in [10, 20, 30, 40] {
        m.sorted_insert(k, ());
    }
    assert_eq!(m.sorted_searh(&10), Ok(0));
    assert_eq!(m.sorted_searh(&30), Ok(2));
    assert_eq!(m.sorted_searh(&40), Ok(3));
    assert_eq!(m.sorted_searh(&5), Err(0));
    assert_eq!(m.sorted_searh(&25), Err(2));
    assert_eq!(m.sorted_searh(&45), Err(4));
}

#[test]
fn search_insertion_point_counts_smaller_keys() {
    let mut m: SortedVecMap<u32, u32> = Vec::new();
    for k in [3u32, 17, 5, 11, 2, 13, 7] {
        m.sorted_insert(k, k);
    }
    for q in 0u32..20 {
        let smaller = m.iter().filter(|e| e.key < q).count();
        match m.sorted_searh(&q) {
            Ok(i) => {
                assert_eq!(m[i].key, q);
                assert_eq!(i, smaller);
            }
            Err(i) => {
                assert!(m.iter().all(|e| e.key != q));
                assert_eq!(i, smaller);
            }
        }
    }
}

#[test]
fn operations_keep_keys_strictly_ascending() {
    let mut m: SortedVecMap<u32, u32> = Vec::new();
    let mut x: u32 = 12345;
    for step in 0..300u32 {
        x = x.wrapping_mul(1103515245).wrapping_add(12345);
        let k = (x >> 16) % 40;
        match step % 4 {
            0 | 1 => {
                m.sorted_insert(k, step);
            }
            2 => {
                m.sorted_remove(k);
            }
            _ => {
                m.sorted_get_or_add(k, step);
            }
        }
        assert!(strictly_ascending(&m));
    }
}

#[test]
fn operations_on_empty_map() {
    let mut m: SortedVecMap<u8, u8> = Vec::new();
    assert_eq!(m.sorted_get(1), None);
    assert_eq!(m.sorted_remove(1), None);
    assert!(m.is_empty());
}

#[test]
fn remove_missing_key_leaves_map_unchanged() {
    let mut m: SortedVecMap<u8, u8> = Vec::new();
    m.sorted_insert(1, 10);
    m.sorted_insert(3, 30);
    assert_eq!(m.sorted_remove(2), None);
    assert_eq!(pairs(&m), vec![(1, 10), (3, 30)]);
}

#[test]
fn extreme_keys() {
    let mut m: SortedVecMap<u64, u8> = Vec::new();
    m.sorted_insert(u64::MAX, 2);
    m.sorted_insert(0, 1);
    m.sorted_insert(u64::MAX / 2, 3);
    assert_eq!(pairs(&m), vec![(0, 1), (u64::MAX / 2, 3), (u64::MAX, 2)]);
    assert_eq!(m.sorted_searh(&u64::MAX), Ok(2));
}
