use lunardb::nosql::NoSQLClient;

#[test]
fn test_set_and_get() {
    let mut store = NoSQLClient::new("conn");
    assert_eq!(store.get("k"), None);
    assert!(store.set("k", "v").is_ok());
    assert_eq!(store.get("k"), Some("v".to_string()));
    assert!(store.set("k", "w").is_ok());
    assert_eq!(store.get("k"), Some("w".to_string()));
}

#[test]
fn test_union_of_keys() {
    let mut store = NoSQLClient::new("conn");
    assert!(store.set("a", "1").is_ok());
    assert!(store.lpush("b", "x").is_ok());
    assert_eq!(store.keys(), vec!["a".to_string(), "b".to_string()]);
}

#[test]
fn test_keys_sorted_deduplicated() {
    let mut store = NoSQLClient::new("conn");
    assert!(store.set("c", "3").is_ok());
    assert!(store.set("a", "1").is_ok());
    assert!(store.lpush("b", "x").is_ok());
    assert!(store.lpush("a", "y").is_ok()); // "a" holds both shapes, reported once
    assert_eq!(
        store.keys(),
        vec!["a".to_string(), "b".to_string(), "c".to_string()]
    );
}

#[test]
fn test_delete_removes_both_shapes() {
    let mut store = NoSQLClient::new("conn");
    assert!(store.set("k", "v").is_ok());
    assert!(store.lpush("k", "x").is_ok());
    assert!(store.del("k").is_ok());
    assert_eq!(store.get("k"), None);
    assert_eq!(store.lrange("k"), None);
    assert_eq!(store.keys(), Vec::<String>::new());
}

#[test]
fn test_idempotent_delete() {
    let mut store = NoSQLClient::new("conn");
    assert!(store.set("kept", "v").is_ok());
    // deleting an absent key does not fail and leaves the container unchanged
    assert!(store.del("missing").is_ok());
    assert_eq!(store.get("kept"), Some("v".to_string()));
    assert_eq!(store.keys(), vec!["kept".to_string()]);
}

#[test]
fn test_lpush_preserves_order() {
    let mut store = NoSQLClient::new("conn");
    assert_eq!(store.lrange("l"), None);
    assert!(store.lpush("l", "x").is_ok());
    assert!(store.lpush("l", "y").is_ok());
    assert!(store.lpush("l", "z").is_ok());
    assert_eq!(
        store.lrange("l"),
        Some(&vec!["x".to_string(), "y".to_string(), "z".to_string()])
    );
}

#[test]
fn test_mset_later_pair_wins() {
    let mut store = NoSQLClient::new("conn");
    let pairs = vec![
        ("k1".to_string(), "a".to_string()),
        ("k2".to_string(), "b".to_string()),
        ("k1".to_string(), "c".to_string()),
    ];
    assert!(store.mset(&pairs).is_ok());
    assert_eq!(store.get("k1"), Some("c".to_string()));
    assert_eq!(store.get("k2"), Some("b".to_string()));
}

#[test]
fn test_mget_positional_integrity() {
    let mut store = NoSQLClient::new("conn");
    assert!(store.set("k1", "v1").is_ok());
    let keys = vec!["k1".to_string(), "k2".to_string(), "k1".to_string()];
    let got = store.mget(&keys);
    assert_eq!(got.len(), 3);
    assert_eq!(got[0], Some("v1".to_string()));
    assert_eq!(got[1], None);
    assert_eq!(got[2], got[0]);
}

#[test]
fn test_scalar_and_list_are_independent() {
    let mut store = NoSQLClient::new("conn");
    assert!(store.set("k", "scalar").is_ok());
    assert!(store.lpush("k", "item").is_ok());
    assert_eq!(store.get("k"), Some("scalar".to_string()));
    assert_eq!(store.lrange("k"), Some(&vec!["item".to_string()]));
}
