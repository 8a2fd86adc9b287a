use receipt_points::receipt::{score, Item, Receipt};
use receipt_points::store::{process_receipt, ResultStore};

fn sample() -> Receipt {
    Receipt {
        retailer: "Target".to_string(),
        date: "2022-01-01".to_string(),
        time: "13:01".to_string(),
        items: vec![
            Item { desc: "Mountain Dew 12PK".to_string(), price: "6.49".to_string() },
            Item { desc: "Emils Cheese Pizza".to_string(), price: "12.25".to_string() },
        ],
        total: "35.35".to_string(),
    }
}

#[test]
fn get_after_put_returns_value() {
    let mut store = ResultStore::new();
    store.put("abc".to_string(), 28);
    assert_eq!(store.get("abc"), Some(28));
}

#[test]
fn get_unknown_id_is_none() {
    let mut store = ResultStore::new();
    assert_eq!(store.get("abc"), None);
    store.put("abd".to_string(), 3);
    assert_eq!(store.get("abc"), None);
}

#[test]
fn later_puts_keep_earlier_values() {
    let mut store = ResultStore::new();
    store.put("a".to_string(), 1);
    store.put("b".to_string(), 2);
    store.put("c".to_string(), 3);
    assert_eq!(store.get("a"), Some(1));
    assert_eq!(store.get("b"), Some(2));
    assert_eq!(store.get("c"), Some(3));
}

#[test]
fn put_same_id_overwrites() {
    let mut store = ResultStore::new();
    store.put("a".to_string(), 1);
    store.put("a".to_string(), 9);
    assert_eq!(store.get("a"), Some(9));
}

#[test]
fn processed_receipt_is_found_under_its_id() {
    let mut store = ResultStore::new();
    let r = sample();
    let id = process_receipt(&mut store, &r).unwrap();
    assert_eq!(id.chars().count(), 36);
    assert_eq!(store.get(&id), score(&r));
    assert_eq!(store.get(&id), Some(6 + 6 + 5 + 3));
}

#[test]
fn each_receipt_gets_its_own_id() {
    let mut store = ResultStore::new();
    let a = process_receipt(&mut store, &sample()).unwrap();
    let b = process_receipt(&mut store, &sample()).unwrap();
    assert_ne!(a, b);
    assert_eq!(store.get(&a), Some(20));
    assert_eq!(store.get(&b), Some(20));
}
