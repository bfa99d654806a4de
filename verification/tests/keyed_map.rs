use pudb::keyed_map::{compare_keys, KeyOrder, KeyedMap};

fn keys(m: &KeyedMap<u32>) -> Vec<String> {
    (0..m.len()).map(|i| m.entry(i).0.clone()).collect()
}

#[test]
fn new_map_is_empty() {
    let m: KeyedMap<u32> = KeyedMap::new();
    assert_eq!(m.len(), 0);
    assert!(m.first().is_none());
}

#[test]
fn entries_come_out_in_ascending_key_order() {
    let mut m = KeyedMap::new();
    m.insert("USD".to_string(), 1u32);
    m.insert("EUR".to_string(), 2);
    m.insert("shares".to_string(), 3);
    m.insert("USD/shares".to_string(), 4);
    assert_eq!(keys(&m), vec!["EUR", "USD", "USD/shares", "shares"]);
}

#[test]
fn order_is_the_byte_order_of_strings() {
    let mut m = KeyedMap::new();
    let words = ["b", "a", "ab", "B", "é", "z", ""];
    for (i, w) in words.iter().enumerate() {
        m.insert(w.to_string(), i as u32);
    }
    let mut expected: Vec<String> = words.iter().map(|w| w.to_string()).collect();
    expected.sort();
    assert_eq!(keys(&m), expected);
}

#[test]
fn insert_of_existing_key_replaces_value() {
    let mut m = KeyedMap::new();
    m.insert("USD".to_string(), 1u32);
    m.insert("EUR".to_string(), 2);
    m.insert("USD".to_string(), 9);
    assert_eq!(m.len(), 2);
    assert_eq!(m.entry(1), &("USD".to_string(), 9));
    assert_eq!(m.entry(0), &("EUR".to_string(), 2));
}

#[test]
fn first_is_the_least_key() {
    let mut m = KeyedMap::new();
    m.insert("pure".to_string(), 1u32);
    m.insert("USD".to_string(), 2);
    m.insert("EUR".to_string(), 3);
    assert_eq!(m.first(), Some(&("EUR".to_string(), 3)));
}

#[test]
fn compare_keys_follows_string_ord() {
    assert!(matches!(compare_keys("a", "b"), KeyOrder::Less));
    assert!(matches!(compare_keys("b", "a"), KeyOrder::Greater));
    assert!(matches!(compare_keys("ab", "ab"), KeyOrder::Equal));
    assert!(matches!(compare_keys("a", "ab"), KeyOrder::Less));
    assert!(matches!(compare_keys("Z", "a"), KeyOrder::Less));
    assert!(matches!(compare_keys("é", "z"), KeyOrder::Greater));
    assert!(matches!(compare_keys("", ""), KeyOrder::Equal));
}

#[test]
fn into_entries_gives_ascending_pairs() {
    let mut m = KeyedMap::new();
    m.insert("b".to_string(), 2u32);
    m.insert("a".to_string(), 1);
    m.insert("c".to_string(), 3);
    m.insert("a".to_string(), 10);
    assert_eq!(
        m.into_entries(),
        vec![("a".to_string(), 10), ("b".to_string(), 2), ("c".to_string(), 3)]
    );
}
