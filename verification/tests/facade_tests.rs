use lunardb::facade::{LunarDB, QueryOptions};
use lunardb::keyed_map::KeyedMap;

#[test]
fn test_new_facade_options_empty() {
    let db = LunarDB::new("postgres://localhost/db", 60);
    let opts = db.get_query_options();
    assert_eq!(opts.limit, None);
    assert_eq!(opts.offset, None);
    assert_eq!(opts.order_by, None);
    assert!(opts.filters.is_none());
}

#[test]
fn test_builder_setters() {
    let mut db = LunarDB::new("conn", 60);
    db.limit(10);
    db.offset(20);
    db.order_by("name");
    let opts = db.get_query_options();
    assert_eq!(opts.limit, Some(10));
    assert_eq!(opts.offset, Some(20));
    assert_eq!(opts.order_by, Some("name".to_string()));
}

#[test]
fn test_filter_creates_and_updates_map() {
    let mut db = LunarDB::new("conn", 60);
    db.filter("age", "30");
    db.filter("city", "rome");
    db.filter("age", "31"); // replaces the earlier value
    let opts = db.get_query_options();
    let filters = opts.filters.as_ref().expect("filters were set");
    assert_eq!(filters.get("age"), Some(&"31".to_string()));
    assert_eq!(filters.get("city"), Some(&"rome".to_string()));
    assert_eq!(filters.get("name"), None);
}

#[test]
fn test_with_options_replaces_wholesale() {
    let mut db = LunarDB::new("conn", 60);
    db.limit(1);
    let mut filters: KeyedMap<String> = KeyedMap::new();
    filters.insert("k", "v".to_string());
    db.with_options(QueryOptions {
        limit: Some(5),
        offset: None,
        order_by: Some("id".to_string()),
        filters: Some(filters),
    });
    let opts = db.get_query_options();
    assert_eq!(opts.limit, Some(5));
    assert_eq!(opts.offset, None);
    assert_eq!(opts.order_by, Some("id".to_string()));
    assert_eq!(
        opts.filters.as_ref().expect("filters present").get("k"),
        Some(&"v".to_string())
    );
}

#[test]
fn test_sql_client_keeps_connection() {
    let db = LunarDB::new("sqlite::memory:", 60);
    let client = db.sql();
    assert_eq!(client.connection_string(), "sqlite::memory:".to_string());
}

#[test]
fn test_nosql_client_starts_empty() {
    let db = LunarDB::new("conn", 60);
    let client = db.nosql();
    assert_eq!(client.get("anything"), None);
    assert_eq!(client.keys(), Vec::<String>::new());
}
