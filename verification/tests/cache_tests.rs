use workshop_pipeline::cache::Cache;

#[test]
fn test_cache_set_and_get() {
    let mut cache = Cache::new(60_000);
    cache.set("key1".to_string(), "value1", None);

    assert_eq!(cache.get("key1"), Some(&"value1"));
}

#[test]
fn test_cache_get_missing_key() {
    let mut cache: Cache<&str> = Cache::new(60_000);
    assert_eq!(cache.get("absent"), None);
}

#[test]
fn test_cache_expiry_with_explicit_clock() {
    let mut cache: Cache<&str> = Cache::new(60_000);
    cache.set_at("key1".to_string(), "value1", Some(100), 1_000);

    assert_eq!(cache.get_at("key1", 1_050), Some(&"value1"));
    assert_eq!(cache.get_at("key1", 1_101), None);
    // The expired entry is gone for good.
    assert_eq!(cache.get_at("key1", 1_000), None);
}

#[test]
fn test_cache_overwrite_same_key() {
    let mut cache = Cache::new(60_000);
    cache.set_at("key1".to_string(), "old", None, 0);
    cache.set_at("key1".to_string(), "new", None, 0);
    assert_eq!(cache.get_at("key1", 1), Some(&"new"));
}

#[test]
fn test_cache_clear() {
    let mut cache = Cache::new(60_000);
    cache.set("key1".to_string(), 1u32, None);
    cache.set("key2".to_string(), 2u32, None);
    cache.clear();
    assert_eq!(cache.get("key1"), None);
    assert_eq!(cache.get("key2"), None);
}

#[test]
fn test_cache_cleanup_at_keeps_live_entries() {
    let mut cache = Cache::new(60_000);
    cache.set_at("stale".to_string(), 1u32, Some(10), 0);
    cache.set_at("fresh".to_string(), 2u32, Some(1_000), 0);
    cache.cleanup_at(500);
    assert_eq!(cache.get_at("stale", 500), None);
    assert_eq!(cache.get_at("fresh", 500), Some(&2u32));
}

#[test]
fn test_cache_has() {
    let mut cache = Cache::new(60_000);
    assert!(!cache.has("key1"));
    cache.set("key1".to_string(), 7u32, None);
    assert!(cache.has("key1"));
}
