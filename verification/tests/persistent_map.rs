use lona::integer::Integer;
use lona::persistent_map::PersistentMap;

fn integer(value: i64) -> Integer {
    Integer::from_i64(value)
}

fn string(text: &str) -> String {
    String::from(text)
}

#[test]
fn tests_empty_map() {
    let map: PersistentMap<String, Integer> = PersistentMap::empty();
    assert!(map.is_empty());
    assert_eq!(map.len(), 0);
}

#[test]
fn tests_from_pairs() {
    let map = PersistentMap::from_pairs(vec![(string("a"), integer(1)), (string("b"), integer(2))]);
    assert!(!map.is_empty());
    assert_eq!(map.len(), 2);
}

#[test]
fn tests_from_pairs_empty() {
    let map = PersistentMap::from_pairs(Vec::<(String, Integer)>::new());
    assert!(map.is_empty());
}

#[test]
fn tests_get_existing_key() {
    let map = PersistentMap::from_pairs(vec![(string("key"), integer(42))]);
    assert_eq!(map.get(&string("key")), Some(&integer(42)));
}

#[test]
fn tests_get_missing_key() {
    let map = PersistentMap::from_pairs(vec![(string("key"), integer(42))]);
    assert_eq!(map.get(&string("other")), None);
}

#[test]
fn map_tests_get_empty() {
    let map: PersistentMap<String, Integer> = PersistentMap::empty();
    assert_eq!(map.get(&string("key")), None);
}

#[test]
fn map_tests_contains_key() {
    let map = PersistentMap::from_pairs(vec![(string("a"), integer(1))]);
    assert!(map.contains_key(&string("a")));
    assert!(!map.contains_key(&string("b")));
}

#[test]
fn tests_assoc_new_key() {
    let map: PersistentMap<String, Integer> = PersistentMap::empty();
    let new_map = map.assoc(string("key"), integer(42));

    assert!(map.is_empty());
    assert_eq!(new_map.len(), 1);
    assert_eq!(new_map.get(&string("key")), Some(&integer(42)));
}

#[test]
fn tests_assoc_existing_key() {
    let map = PersistentMap::from_pairs(vec![(string("key"), integer(1))]);
    let new_map = map.assoc(string("key"), integer(2));

    assert_eq!(map.get(&string("key")), Some(&integer(1)));
    assert_eq!(new_map.get(&string("key")), Some(&integer(2)));
}

#[test]
fn tests_dissoc_existing_key() {
    let map = PersistentMap::from_pairs(vec![(string("a"), integer(1)), (string("b"), integer(2))]);
    let new_map = map.dissoc(&string("a"));

    assert_eq!(map.len(), 2);
    assert_eq!(new_map.len(), 1);
    assert!(!new_map.contains_key(&string("a")));
    assert!(new_map.contains_key(&string("b")));
}

#[test]
fn tests_dissoc_missing_key() {
    let map = PersistentMap::from_pairs(vec![(string("a"), integer(1))]);
    let new_map = map.dissoc(&string("missing"));
    assert_eq!(new_map.len(), 1);
}

#[test]
fn map_tests_keys_iterator() {
    let map = PersistentMap::from_pairs(vec![(string("a"), integer(1)), (string("b"), integer(2))]);
    let keys: Vec<String> = map.keys().into_iter().cloned().collect();
    assert_eq!(keys.len(), 2);
}

#[test]
fn tests_values_iterator() {
    let map = PersistentMap::from_pairs(vec![(string("a"), integer(1)), (string("b"), integer(2))]);
    let values: Vec<Integer> = map.values().into_iter().cloned().collect();
    assert_eq!(values.len(), 2);
}

#[test]
fn tests_iter() {
    let map = PersistentMap::from_pairs(vec![(string("a"), integer(1))]);
    let entries: Vec<(&String, &Integer)> = map.iter();
    assert_eq!(entries.len(), 1);
}

#[test]
fn tests_display_empty() {
    let map: PersistentMap<i64, Integer> = PersistentMap::empty();
    assert_eq!(map.to_string(), "{}");
}

#[test]
fn tests_display_single() {
    let map = PersistentMap::from_pairs(vec![(1_i64, integer(2))]);
    assert_eq!(map.to_string(), "{1 2}");
}

#[test]
fn tests_equality_empty() {
    let m1: PersistentMap<String, Integer> = PersistentMap::empty();
    let m2: PersistentMap<String, Integer> = PersistentMap::empty();
    assert_eq!(m1, m2);
}

#[test]
fn tests_equality_same_entries() {
    let m1 = PersistentMap::from_pairs(vec![(string("a"), integer(1)), (string("b"), integer(2))]);
    let m2 = PersistentMap::from_pairs(vec![(string("b"), integer(2)), (string("a"), integer(1))]);
    assert_eq!(m1, m2);
}

#[test]
fn tests_equality_different_values() {
    let m1 = PersistentMap::from_pairs(vec![(string("a"), integer(1))]);
    let m2 = PersistentMap::from_pairs(vec![(string("a"), integer(2))]);
    assert_ne!(m1, m2);
}

#[test]
fn tests_equality_different_keys() {
    let m1 = PersistentMap::from_pairs(vec![(string("a"), integer(1))]);
    let m2 = PersistentMap::from_pairs(vec![(string("b"), integer(1))]);
    assert_ne!(m1, m2);
}

#[test]
fn tests_equality_different_sizes() {
    let m1 = PersistentMap::from_pairs(vec![(string("a"), integer(1))]);
    let m2 = PersistentMap::from_pairs(vec![(string("a"), integer(1)), (string("b"), integer(2))]);
    assert_ne!(m1, m2);
}

#[test]
fn tests_clone_shares_data() {
    let m1 = PersistentMap::from_pairs(vec![(string("a"), integer(1))]);
    let m2 = m1.clone();
    assert_eq!(m1, m2);
}

#[test]
fn map_tests_default_is_empty() {
    let map: PersistentMap<String, Integer> = PersistentMap::default();
    assert!(map.is_empty());
}

#[test]
fn tests_integer_keys() {
    let map = PersistentMap::from_pairs(vec![(1_i64, string("one")), (2_i64, string("two"))]);
    assert_eq!(map.get(&1), Some(&string("one")));
    assert_eq!(map.get(&2), Some(&string("two")));
}

#[test]
fn tests_nested_maps() {
    let inner = PersistentMap::from_pairs(vec![(string("x"), integer(1))]);
    let outer = PersistentMap::from_pairs(vec![(string("inner"), inner.clone())]);

    if let Some(inner_map) = outer.get(&string("inner")) {
        assert_eq!(inner_map.get(&string("x")), Some(&integer(1)));
    } else {
        panic!("Expected Map value");
    }
}

#[test]
fn structural_sharing_on_assoc() {
    let m1 = PersistentMap::from_pairs(vec![(string("a"), integer(1))]);
    let m2 = m1.assoc(string("b"), integer(2));

    assert_eq!(m1.len(), 1);
    assert_eq!(m1.get(&string("a")), Some(&integer(1)));
    assert_eq!(m1.get(&string("b")), None);

    assert_eq!(m2.len(), 2);
    assert_eq!(m2.get(&string("a")), Some(&integer(1)));
    assert_eq!(m2.get(&string("b")), Some(&integer(2)));
}

#[test]
fn structural_sharing_on_dissoc() {
    let m1 = PersistentMap::from_pairs(vec![(string("a"), integer(1)), (string("b"), integer(2))]);
    let m2 = m1.dissoc(&string("a"));

    assert_eq!(m1.len(), 2);
    assert_eq!(m1.get(&string("a")), Some(&integer(1)));

    assert_eq!(m2.len(), 1);
    assert_eq!(m2.get(&string("a")), None);
    assert_eq!(m2.get(&string("b")), Some(&integer(2)));
}

#[test]
fn large_map_operations() {
    let mut map: PersistentMap<i64, Integer> = PersistentMap::empty();
    let count = 100_i64;

    for i in 0..count {
        map = map.assoc(i, integer(i.saturating_mul(10)));
    }

    assert_eq!(map.len(), count as usize);

    for i in 0..count {
        assert_eq!(map.get(&i), Some(&integer(i.saturating_mul(10))));
    }
}

#[test]
fn from_pairs_later_pair_wins() {
    let map = PersistentMap::from_pairs(vec![
        (string("a"), integer(1)),
        (string("b"), integer(2)),
        (string("a"), integer(3)),
    ]);
    assert_eq!(map.len(), 2);
    assert_eq!(map.get(&string("a")), Some(&integer(3)));
}

#[test]
fn map_display_two_entries() {
    let map = PersistentMap::from_pairs(vec![(1_i64, integer(-2)), (3_i64, integer(4))]);
    let text = map.to_string();
    assert!(text == "{1 -2 3 4}" || text == "{3 4 1 -2}");
}

#[test]
fn map_empty_map() {
    let map: PersistentMap<String, Integer> = PersistentMap::empty();
    assert!(map.is_empty());
    assert_eq!(map.len(), 0);
}

#[test]
fn map_from_pairs() {
    let map = PersistentMap::from_pairs(vec![(string("a"), integer(1)), (string("b"), integer(2))]);
    assert!(!map.is_empty());
    assert_eq!(map.len(), 2);
}

#[test]
fn map_from_pairs_empty() {
    let map = PersistentMap::from_pairs(Vec::<(String, Integer)>::new());
    assert!(map.is_empty());
}

#[test]
fn map_get_existing_key() {
    let map = PersistentMap::from_pairs(vec![(string("key"), integer(42))]);
    assert_eq!(map.get(&string("key")), Some(&integer(42)));
}

#[test]
fn map_get_missing_key() {
    let map = PersistentMap::from_pairs(vec![(string("key"), integer(42))]);
    assert_eq!(map.get(&string("other")), None);
}

#[test]
fn map_get_empty() {
    let map: PersistentMap<String, Integer> = PersistentMap::empty();
    assert_eq!(map.get(&string("key")), None);
}

#[test]
fn map_contains_key() {
    let map = PersistentMap::from_pairs(vec![(string("a"), integer(1))]);
    assert!(map.contains_key(&string("a")));
    assert!(!map.contains_key(&string("b")));
}

#[test]
fn map_assoc_new_key() {
    let map: PersistentMap<String, Integer> = PersistentMap::empty();
    let new_map = map.assoc(string("key"), integer(42));

    assert!(map.is_empty());
    assert_eq!(new_map.len(), 1);
    assert_eq!(new_map.get(&string("key")), Some(&integer(42)));
}

#[test]
fn map_assoc_existing_key() {
    let map = PersistentMap::from_pairs(vec![(string("key"), integer(1))]);
    let new_map = map.assoc(string("key"), integer(2));

    assert_eq!(map.get(&string("key")), Some(&integer(1)));
    assert_eq!(new_map.get(&string("key")), Some(&integer(2)));
}

#[test]
fn map_dissoc_existing_key() {
    let map = PersistentMap::from_pairs(vec![(string("a"), integer(1)), (string("b"), integer(2))]);
    let new_map = map.dissoc(&string("a"));

    assert_eq!(map.len(), 2);
    assert_eq!(new_map.len(), 1);
    assert!(!new_map.contains_key(&string("a")));
    assert!(new_map.contains_key(&string("b")));
}

#[test]
fn map_dissoc_missing_key() {
    let map = PersistentMap::from_pairs(vec![(string("a"), integer(1))]);
    let new_map = map.dissoc(&string("missing"));
    assert_eq!(new_map.len(), 1);
}

#[test]
fn map_keys_iterator() {
    let map = PersistentMap::from_pairs(vec![(string("a"), integer(1)), (string("b"), integer(2))]);
    let keys: Vec<String> = map.keys().into_iter().cloned().collect();
    assert_eq!(keys.len(), 2);
}

#[test]
fn map_values_iterator() {
    let map = PersistentMap::from_pairs(vec![(string("a"), integer(1)), (string("b"), integer(2))]);
    let values: Vec<Integer> = map.values().into_iter().cloned().collect();
    assert_eq!(values.len(), 2);
}

#[test]
fn map_iter() {
    let map = PersistentMap::from_pairs(vec![(string("a"), integer(1))]);
    let entries: Vec<(&String, &Integer)> = map.iter();
    assert_eq!(entries.len(), 1);
}

#[test]
fn map_display_empty() {
    let map: PersistentMap<i64, Integer> = PersistentMap::empty();
    assert_eq!(map.to_string(), "{}");
}

#[test]
fn map_display_single() {
    let map = PersistentMap::from_pairs(vec![(1_i64, integer(2))]);
    assert_eq!(map.to_string(), "{1 2}");
}

#[test]
fn map_equality_empty() {
    let m1: PersistentMap<String, Integer> = PersistentMap::empty();
    let m2: PersistentMap<String, Integer> = PersistentMap::empty();
    assert_eq!(m1, m2);
}

#[test]
fn map_equality_same_entries() {
    let m1 = PersistentMap::from_pairs(vec![(string("a"), integer(1)), (string("b"), integer(2))]);
    let m2 = PersistentMap::from_pairs(vec![(string("b"), integer(2)), (string("a"), integer(1))]);
    assert_eq!(m1, m2);
}

#[test]
fn map_equality_different_values() {
    let m1 = PersistentMap::from_pairs(vec![(string("a"), integer(1))]);
    let m2 = PersistentMap::from_pairs(vec![(string("a"), integer(2))]);
    assert_ne!(m1, m2);
}

#[test]
fn map_equality_different_keys() {
    let m1 = PersistentMap::from_pairs(vec![(string("a"), integer(1))]);
    let m2 = PersistentMap::from_pairs(vec![(string("b"), integer(1))]);
    assert_ne!(m1, m2);
}

#[test]
fn map_equality_different_sizes() {
    let m1 = PersistentMap::from_pairs(vec![(string("a"), integer(1))]);
    let m2 = PersistentMap::from_pairs(vec![(string("a"), integer(1)), (string("b"), integer(2))]);
    assert_ne!(m1, m2);
}

#[test]
fn map_clone_shares_data() {
    let m1 = PersistentMap::from_pairs(vec![(string("a"), integer(1))]);
    let m2 = m1.clone();
    assert_eq!(m1, m2);
}

#[test]
fn map_default_is_empty() {
    let map: PersistentMap<String, Integer> = PersistentMap::default();
    assert!(map.is_empty());
}

#[test]
fn map_integer_keys() {
    let map = PersistentMap::from_pairs(vec![(1_i64, string("one")), (2_i64, string("two"))]);
    assert_eq!(map.get(&1), Some(&string("one")));
    assert_eq!(map.get(&2), Some(&string("two")));
}

#[test]
fn map_nested_maps() {
    let inner = PersistentMap::from_pairs(vec![(string("x"), integer(1))]);
    let outer = PersistentMap::from_pairs(vec![(string("inner"), inner.clone())]);

    if let Some(inner_map) = outer.get(&string("inner")) {
        assert_eq!(inner_map.get(&string("x")), Some(&integer(1)));
    } else {
        panic!("Expected Map value");
    }
}
