use todo_scan::cache::ScanCache;
use todo_scan::config::Config;
use todo_scan::model::{Priority, Tag, TodoItem};

fn make_item(file: &str, line: usize, tag: Tag, message: &str) -> TodoItem {
    TodoItem {
        file: file.to_string(),
        line,
        tag,
        message: message.to_string(),
        author: None,
        issue_ref: None,
        priority: Priority::Normal,
        deadline: None,
    }
}

#[test]
fn test_config_hash_deterministic() {
    let config = Config::default();
    let h1 = ScanCache::config_hash(&config);
    let h2 = ScanCache::config_hash(&config);
    assert_eq!(h1, h2);
}

#[test]
fn test_config_hash_changes_with_tags() {
    let config1 = Config::default();
    let mut config2 = Config::default();
    config2.tags.push("CUSTOM".to_string());
    assert_ne!(
        ScanCache::config_hash(&config1),
        ScanCache::config_hash(&config2)
    );
}

#[test]
fn test_config_hash_changes_with_exclude_dirs() {
    let config1 = Config::default();
    let mut config2 = Config::default();
    config2.exclude_dirs.push("vendor".to_string());
    assert_ne!(
        ScanCache::config_hash(&config1),
        ScanCache::config_hash(&config2)
    );
}

#[test]
fn test_config_hash_changes_with_exclude_patterns() {
    let config1 = Config::default();
    let mut config2 = Config::default();
    config2.exclude_patterns.push(r"\.min\.js$".to_string());
    assert_ne!(
        ScanCache::config_hash(&config1),
        ScanCache::config_hash(&config2)
    );
}

#[test]
fn config_hash_is_blake3_of_terminated_fields() {
    let mut config = Config::default();
    config.tags = vec!["TODO".to_string(), "FIXME".to_string()];
    config.exclude_dirs = vec!["target".to_string()];
    config.exclude_patterns = vec![];
    let expected = blake3::hash(b"TODO\0FIXME\0\x01target\0\x01");
    assert_eq!(ScanCache::config_hash(&config), *expected.as_bytes());
}

#[test]
fn cache_mtime_hit_returns_cached_items() {
    let mut cache = ScanCache::new([7u8; 32]);
    let hash = blake3::hash(b"content");
    cache.insert(
        "test.rs".to_string(),
        *hash.as_bytes(),
        vec![make_item("test.rs", 1, Tag::Todo, "cached")],
        1700000000,
        500,
    );
    let result = cache.check("test.rs", 1700000000, 500);
    assert!(result.is_some());
    assert_eq!(result.unwrap().len(), 1);
    assert_eq!(result.unwrap()[0].message, "cached");
}

#[test]
fn cache_mtime_miss_returns_none() {
    let mut cache = ScanCache::new([0u8; 32]);
    let hash = blake3::hash(b"content");
    cache.insert(
        "test.rs".to_string(),
        *hash.as_bytes(),
        vec![make_item("test.rs", 1, Tag::Todo, "cached")],
        1700000000,
        0,
    );
    assert!(cache.check("test.rs", 1700000001, 0).is_none());
    assert!(cache.check("test.rs", 1700000000, 1).is_none());
    assert!(cache.check("other.rs", 1700000000, 0).is_none());
}

#[test]
fn cache_content_hash_hit_and_miss() {
    let mut cache = ScanCache::new([0u8; 32]);
    let content = b"// TODO: test content";
    let hash = blake3::hash(content);
    cache.insert(
        "test.rs".to_string(),
        *hash.as_bytes(),
        vec![make_item("test.rs", 1, Tag::Todo, "test content")],
        0,
        0,
    );
    let hit = cache.check_with_content("test.rs", content);
    assert_eq!(hit.unwrap()[0].message, "test content");
    assert!(cache.check_with_content("test.rs", b"// TODO: modified").is_none());
}

#[test]
fn cache_insert_replaces_existing_entry() {
    let mut cache = ScanCache::new([0u8; 32]);
    let hash = blake3::hash(b"x");
    cache.insert("a.rs".to_string(), *hash.as_bytes(), vec![make_item("a.rs", 1, Tag::Todo, "old")], 1, 0);
    cache.insert("b.rs".to_string(), *hash.as_bytes(), vec![], 1, 0);
    cache.insert("a.rs".to_string(), *hash.as_bytes(), vec![make_item("a.rs", 2, Tag::Bug, "new")], 2, 0);
    assert_eq!(cache.entries.len(), 2);
    assert_eq!(cache.entries[0].0, "a.rs");
    assert!(cache.check("a.rs", 1, 0).is_none());
    assert_eq!(cache.check("a.rs", 2, 0).unwrap()[0].message, "new");
}

#[test]
fn cache_prune_removes_deleted_files() {
    let mut cache = ScanCache::new([0u8; 32]);
    let hash = blake3::hash(b"content");
    cache.insert("keep.rs".to_string(), *hash.as_bytes(), vec![make_item("keep.rs", 1, Tag::Todo, "keep")], 0, 0);
    cache.insert("delete.rs".to_string(), *hash.as_bytes(), vec![make_item("delete.rs", 1, Tag::Todo, "delete")], 0, 0);
    cache.prune(&vec!["keep.rs".to_string()]);
    assert_eq!(cache.entries.len(), 1);
    assert_eq!(cache.entries[0].0, "keep.rs");
    assert!(cache.check("delete.rs", 0, 0).is_none());
    assert!(cache.check("keep.rs", 0, 0).is_some());
}

#[test]
fn scan_file_scans_then_reuses_by_content() {
    let config = Config::default();
    let pattern = todo_scan::pattern::Pattern::new(&config.tags_pattern()).unwrap();
    let mut cache = ScanCache::new([0u8; 32]);
    let content = "// TODO: first\nfn main() {}\n";
    let (items, hit) = cache.scan_file("a.rs".to_string(), content, 10, 0, &pattern);
    assert!(!hit);
    assert_eq!(items.len(), 1);
    assert_eq!(items[0].message, "first");
    // Same content, new modification time: the cached items come back and the
    // entry takes the new time.
    let (again, hit) = cache.scan_file("a.rs".to_string(), content, 20, 5, &pattern);
    assert!(hit);
    assert_eq!(again.len(), 1);
    assert_eq!(again[0].message, "first");
    assert_eq!(again[0].line, items[0].line);
    assert!(cache.check("a.rs", 20, 5).is_some());
    assert!(cache.check("a.rs", 10, 0).is_none());
    // Changed content is scanned afresh.
    let (changed, hit) = cache.scan_file("a.rs".to_string(), "// FIXME: second\n// TODO: third\n", 30, 0, &pattern);
    assert!(!hit);
    assert_eq!(changed.len(), 2);
    assert_eq!(changed[0].tag, Tag::Fixme);
    assert_eq!(cache.entries.len(), 1);
}
