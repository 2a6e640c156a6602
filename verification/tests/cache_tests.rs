use lunardb::cache::Cache;

#[test]
fn test_cache_operations() {
    let mut cache: Cache<String> = Cache::new(1); // 1 second TTL

    // Test set and get
    cache.set("key1", "value1".to_string(), 0);
    assert_eq!(cache.get("key1", 0), Some(&"value1".to_string()));

    // Test expiration: 2 seconds later the entry is stale
    assert_eq!(cache.get("key1", 2), None);

    // Test delete
    cache.set("key2", "value2".to_string(), 0);
    cache.delete("key2");
    assert_eq!(cache.get("key2", 0), None);

    // Test clear
    cache.set("key3", "value3".to_string(), 0);
    cache.clear();
    assert_eq!(cache.get("key3", 0), None);
}

#[test]
fn test_expiry_boundary() {
    let mut cache: Cache<String> = Cache::new(1);
    cache.set("k", "v".to_string(), 0);
    assert_eq!(cache.get("k", 0), Some(&"v".to_string()));
    // an entry is absent from the expiry instant onward
    assert_eq!(cache.get("k", 1), None);
}

#[test]
fn test_ttl_uniformity() {
    let mut cache: Cache<String> = Cache::new(10);
    cache.set("a", "1".to_string(), 0);
    cache.set("b", "2".to_string(), 5);
    // each entry expires ttl after its own insertion
    assert_eq!(cache.get("a", 9), Some(&"1".to_string()));
    assert_eq!(cache.get("a", 10), None);
    assert_eq!(cache.get("b", 14), Some(&"2".to_string()));
    assert_eq!(cache.get("b", 15), None);
}

#[test]
fn test_overwrite_restamps_expiry() {
    let mut cache: Cache<String> = Cache::new(5);
    cache.set("k", "old".to_string(), 0);
    cache.set("k", "new".to_string(), 3);
    assert_eq!(cache.get("k", 6), Some(&"new".to_string()));
    assert_eq!(cache.get("k", 8), None);
}

#[test]
fn test_delete_absent_is_harmless() {
    let mut cache: Cache<String> = Cache::new(1);
    cache.delete("missing");
    assert_eq!(cache.get("missing", 0), None);
    cache.set("k", "v".to_string(), 0);
    cache.delete("missing");
    assert_eq!(cache.get("k", 0), Some(&"v".to_string()));
}

#[test]
fn test_cleanup_expired() {
    let mut cache: Cache<String> = Cache::new(2);
    cache.set("k1", "v1".to_string(), 0); // expires at 2
    cache.set("k2", "v2".to_string(), 5); // expires at 7
    cache.cleanup_expired(3);
    assert_eq!(cache.get("k1", 3), None);
    assert_eq!(cache.get("k2", 6), Some(&"v2".to_string()));
}

#[test]
fn test_clear_empties() {
    let mut cache: Cache<String> = Cache::new(100);
    cache.set("a", "1".to_string(), 0);
    cache.set("b", "2".to_string(), 1);
    cache.set("c", "3".to_string(), 2);
    cache.clear();
    assert_eq!(cache.get("a", 2), None);
    assert_eq!(cache.get("b", 2), None);
    assert_eq!(cache.get("c", 2), None);
}
