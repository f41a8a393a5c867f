use freespace::cache::{CacheEntry, SizeCache};

#[test]
fn set_and_get() {
    let mut cache = SizeCache::empty();
    let path = "/tmp/test".to_string();
    cache.set(path.clone(), 42);
    assert_eq!(cache.get(&path), Some(42));
}

#[test]
fn get_missing() {
    let cache = SizeCache::empty();
    assert_eq!(cache.get("/nonexistent"), None);
}

#[test]
fn remove_entry() {
    let mut cache = SizeCache::empty();
    let path = "/tmp/test".to_string();
    cache.set(path.clone(), 100);
    cache.remove(&path);
    assert_eq!(cache.get(&path), None);
}

#[test]
fn set_at_replaces_and_keeps_others() {
    let mut cache = SizeCache::empty();
    cache.set_at("/a".to_string(), 1, 10);
    cache.set_at("/b".to_string(), 2, 10);
    cache.set_at("/a/".to_string(), 3, 20);
    assert_eq!(cache.get("/a"), Some(3));
    assert_eq!(cache.get("/b"), Some(2));
    assert_eq!(cache.to_entries().len(), 2);
}

#[test]
fn from_entries_later_wins() {
    let cache = SizeCache::from_entries(vec![
        ("/some/path".to_string(), CacheEntry { size: 1234, cached_at: 1000 }),
        ("/other".to_string(), CacheEntry { size: 1, cached_at: 1 }),
        ("/some//path".to_string(), CacheEntry { size: 99, cached_at: 2000 }),
    ]);
    assert_eq!(cache.get("/some/path"), Some(99));
    assert_eq!(cache.get("/other"), Some(1));
}
