use food_index::{fetch_value, lookup_or_not_found, Store};

#[test]
fn present_key_returns_the_stored_payload() {
    let mut s = Store::new();
    s.insert(b"1".to_vec(), b"one".to_vec());
    s.insert(b"2".to_vec(), b"two".to_vec());
    assert_eq!(fetch_value(&s, b"1"), Some(&b"one".to_vec()));
    assert_eq!(fetch_value(&s, b"2"), Some(&b"two".to_vec()));
}

#[test]
fn absent_key_returns_none() {
    let mut s = Store::new();
    s.insert(b"1".to_vec(), b"one".to_vec());
    assert_eq!(fetch_value(&s, b"3"), None);
}

#[test]
fn later_insert_wins_for_a_repeated_key() {
    let mut s = Store::new();
    s.insert(b"1".to_vec(), b"first".to_vec());
    s.insert(b"x".to_vec(), b"other".to_vec());
    s.insert(b"1".to_vec(), b"second".to_vec());
    assert_eq!(fetch_value(&s, b"1"), Some(&b"second".to_vec()));
    assert_eq!(fetch_value(&s, b"x"), Some(&b"other".to_vec()));
}

#[test]
fn missing_key_yields_the_sentinel() {
    let s = Store::new();
    assert_eq!(lookup_or_not_found(&s, b"nope"), b"Not found".to_vec());
}

#[test]
fn sentinel_does_not_shadow_a_stored_value() {
    let mut s = Store::new();
    s.insert(b"k".to_vec(), b"payload".to_vec());
    assert_eq!(lookup_or_not_found(&s, b"k"), b"payload".to_vec());
}
