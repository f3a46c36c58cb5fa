use dupfinder::cache::{cache_dir, cache_dir_from, cache_file_path, mtime_secs, CacheData, HashCache};
use dupfinder::types::CacheConfig;

const SEC: i128 = 1_000_000_000;

fn fresh_cache() -> HashCache {
    let config = CacheConfig { enabled: true, cache_dir: Some("/tmp/dupfinder-cache".to_string()) };
    let path = cache_file_path(&cache_dir(&config));
    HashCache::from_loaded(path, None)
}

#[test]
fn test_cache_insert_and_lookup() {
    let mut cache = fresh_cache();
    let path = "/tmp/test.txt";
    let mtime = 1000 * SEC;

    cache.insert(path, 42, mtime, "abc123".to_string());

    assert_eq!(cache.lookup(path, 42, mtime), Some("abc123"));
    // Different size should miss
    assert_eq!(cache.lookup(path, 99, mtime), None);
    // Different mtime should miss
    let other_mtime = 2000 * SEC;
    assert_eq!(cache.lookup(path, 42, other_mtime), None);
}

#[test]
fn test_cache_save_and_reload() {
    let path = "/tmp/test.txt";
    let mtime = 1000 * SEC;
    let saved = {
        let mut cache = fresh_cache();
        cache.insert(path, 42, mtime, "abc123".to_string());
        assert!(cache.needs_save());
        cache.data().clone()
    };
    let cache = HashCache::from_loaded("/tmp/dupfinder-cache/cache.json".to_string(), Some(Some(saved)));
    assert_eq!(cache.lookup(path, 42, mtime), Some("abc123"));
    assert_eq!(cache.entry_count(), 1);
    assert!(!cache.needs_save());
}

#[test]
fn lookup_compares_whole_seconds() {
    let mut cache = fresh_cache();
    cache.insert("/f", 1, 5 * SEC + 10, "h".to_string());
    assert_eq!(cache.lookup("/f", 1, 5 * SEC + 999_999_999), Some("h"));
    assert_eq!(cache.lookup("/f", 1, 6 * SEC), None);
    assert_eq!(cache.lookup("/g", 1, 5 * SEC), None);
    assert_eq!(mtime_secs(-3), 0);
    assert_eq!(mtime_secs(7 * SEC + 1), 7);
}

#[test]
fn insert_replaces_and_clear_empties() {
    let mut cache = fresh_cache();
    cache.insert("/f", 1, SEC, "old".to_string());
    cache.insert("/f", 2, SEC, "new".to_string());
    assert_eq!(cache.entry_count(), 1);
    assert_eq!(cache.lookup("/f", 2, SEC), Some("new"));
    assert_eq!(cache.lookup("/f", 1, SEC), None);
    cache.clear();
    assert_eq!(cache.entry_count(), 0);
    assert!(cache.needs_save());
    assert_eq!(cache.cache_path(), "/tmp/dupfinder-cache/cache.json");
}

#[test]
fn loaded_versions() {
    let fresh = HashCache::from_loaded("/c".to_string(), None);
    assert_eq!(fresh.data().version, 1);
    let corrupt = HashCache::from_loaded("/c".to_string(), Some(None));
    assert_eq!(corrupt.data().version, 0);
    assert_eq!(corrupt.entry_count(), 0);
    let given = HashCache::from_loaded("/c".to_string(), Some(Some(CacheData::empty(7))));
    assert_eq!(given.data().version, 7);
}

#[test]
fn cache_dir_choices() {
    let configured = CacheConfig { enabled: true, cache_dir: Some("/mine".to_string()) };
    assert_eq!(cache_dir_from(&configured, Some("/c".to_string()), None), "/mine");
    let unset = CacheConfig { enabled: true, cache_dir: None };
    assert_eq!(cache_dir_from(&unset, Some("/c".to_string()), None), "/c/dupfinder");
    assert_eq!(cache_dir_from(&unset, None, Some("/home/u".to_string())), "/home/u/.dupfinder");
    assert_eq!(cache_dir_from(&unset, None, None), "./.dupfinder");
    assert_eq!(cache_file_path("/d"), "/d/cache.json");
    assert_eq!(cache_dir(&configured), "/mine");
}

#[test]
fn entry_count_grows_only_for_new_paths() {
    let mut cache = fresh_cache();
    let before = cache.entry_count();
    cache.insert("/a", 1, 0, "h1".to_string());
    assert_eq!(cache.entry_count(), before + 1);
    cache.insert("/b", 2, 0, "h2".to_string());
    assert_eq!(cache.entry_count(), before + 2);
    cache.insert("/a", 3, 0, "h3".to_string());
    assert_eq!(cache.entry_count(), before + 2);
    assert_eq!(cache.lookup("/a", 3, 0), Some("h3"));
}
