use std::sync::{Arc, Mutex};

use singleton_sort::cache::CacheManager;

#[test]
fn test_cache_basic_operations() {
    let cache = Arc::new(Mutex::new(CacheManager::new()));
    {
        let mut cm = cache.lock().unwrap();
        cm.set("key1".to_string(), "value1".to_string());
    }

    {
        let mut cm = cache.lock().unwrap();
        let value = cm.get("key1");
        assert_eq!(value, Some("value1".to_string()));
    }
}

#[test]
fn test_cache_miss() {
    let cache = Arc::new(Mutex::new(CacheManager::new()));
    let mut cm = cache.lock().unwrap();
    let value = cm.get("nonexistent");
    assert_eq!(value, None);
}

#[test]
fn test_cache_stats() {
    let cache = Arc::new(Mutex::new(CacheManager::new()));
    {
        let mut cm = cache.lock().unwrap();
        cm.clear();
        cm.set("test".to_string(), "data".to_string());
        cm.get("test");
        cm.get("missing");
    }

    {
        let cm = cache.lock().unwrap();
        let (hits, misses) = cm.get_stats();
        assert!(hits > 0);
        assert!(misses > 0);
    }
}

#[test]
fn test_cache_remove() {
    let cache = Arc::new(Mutex::new(CacheManager::new()));
    {
        let mut cm = cache.lock().unwrap();
        cm.set("temp".to_string(), "data".to_string());
    }

    {
        let mut cm = cache.lock().unwrap();
        let removed = cm.remove("temp");
        assert_eq!(removed, Some("data".to_string()));
    }

    {
        let mut cm = cache.lock().unwrap();
        let value = cm.get("temp");
        assert_eq!(value, None);
    }
}

#[test]
fn cache_counts_exact_hits_and_misses() {
    let mut cm = CacheManager::new();
    cm.set("a".to_string(), "1".to_string());
    assert_eq!(cm.get("a"), Some("1".to_string()));
    assert_eq!(cm.get("a"), Some("1".to_string()));
    assert_eq!(cm.get("b"), None);
    assert_eq!(cm.get_stats(), (2, 1));
}

#[test]
fn cache_set_replaces_earlier_value() {
    let mut cm = CacheManager::new();
    cm.set("k".to_string(), "old".to_string());
    cm.set("k".to_string(), "new".to_string());
    assert_eq!(cm.len(), 1);
    assert_eq!(cm.get("k"), Some("new".to_string()));
}

#[test]
fn cache_remove_of_absent_key_gives_none() {
    let mut cm = CacheManager::new();
    cm.set("x".to_string(), "1".to_string());
    assert_eq!(cm.remove("y"), None);
    assert_eq!(cm.len(), 1);
    assert_eq!(cm.get_stats(), (0, 0));
}

#[test]
fn cache_clear_twice_is_clear_once() {
    let mut cm = CacheManager::new();
    for i in 0..5 {
        cm.set(format!("key{}", i), format!("value{}", i));
    }
    assert_eq!(cm.len(), 5);
    cm.clear();
    assert_eq!(cm.len(), 0);
    cm.clear();
    assert_eq!(cm.len(), 0);
    assert_eq!(cm.get("key0"), None);
}

#[test]
fn cache_handles_observe_the_same_writes() {
    let shared = Arc::new(Mutex::new(CacheManager::new()));
    let a = Arc::clone(&shared);
    let b = Arc::clone(&shared);
    {
        let mut cm = a.lock().unwrap();
        cm.set("shared".to_string(), "data".to_string());
    }
    {
        let mut cm = b.lock().unwrap();
        assert_eq!(cm.get("shared"), Some("data".to_string()));
    }
}
