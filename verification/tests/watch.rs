use todo_scan::config::Config;
use todo_scan::model::Tag;
use todo_scan::pattern::Pattern;
use todo_scan::scanner::scan_content;
use todo_scan::watch::{build_watch_event, build_watch_event_at, TodoIndex};

fn setup_index_with(files: &[(&str, &str)], config: &Config) -> TodoIndex {
    let pattern = Pattern::new(&config.tags_pattern()).unwrap();
    let mut items = Vec::new();
    for (path, content) in files {
        items.extend(scan_content(content, path, &pattern).items);
    }
    TodoIndex::new("/repo", config, items).unwrap()
}

fn setup_index(files: &[(&str, &str)]) -> TodoIndex {
    setup_index_with(files, &Config::default())
}

#[test]
fn test_index_new_populates_items() {
    let index = setup_index(&[
        ("a.rs", "// TODO: first\n// FIXME: second\n"),
        ("b.rs", "// HACK: third\n"),
    ]);
    assert_eq!(index.total_count(), 3);
}

#[test]
fn test_index_tag_counts() {
    let index = setup_index(&[
        ("a.rs", "// TODO: one\n// TODO: two\n"),
        ("b.rs", "// FIXME: three\n"),
    ]);
    let counts = index.tag_counts();
    let todo_count = counts.iter().find(|(t, _)| *t == Tag::Todo).map(|(_, c)| *c);
    let fixme_count = counts.iter().find(|(t, _)| *t == Tag::Fixme).map(|(_, c)| *c);
    assert_eq!(todo_count, Some(2));
    assert_eq!(fixme_count, Some(1));
    assert_eq!(counts.len(), 2);
    assert_eq!(counts[0], (Tag::Todo, 2));
}

#[test]
fn test_index_update_file_detects_added() {
    let mut index = setup_index(&[("a.rs", "// TODO: original\n")]);
    assert_eq!(index.total_count(), 1);
    let update = index.update_file("a.rs", "// TODO: original\n// FIXME: new one\n");
    assert_eq!(update.added.len(), 1);
    assert_eq!(update.added[0].tag, Tag::Fixme);
    assert!(update.removed.is_empty());
    assert_eq!(index.total_count(), 2);
}

#[test]
fn test_index_update_file_detects_removed() {
    let mut index = setup_index(&[("a.rs", "// TODO: one\n// FIXME: two\n")]);
    assert_eq!(index.total_count(), 2);
    let update = index.update_file("a.rs", "// TODO: one\n");
    assert!(update.added.is_empty());
    assert_eq!(update.removed.len(), 1);
    assert_eq!(update.removed[0].tag, Tag::Fixme);
    assert_eq!(index.total_count(), 1);
}

#[test]
fn test_index_update_file_unchanged() {
    let mut index = setup_index(&[("a.rs", "// TODO: same\n")]);
    let update = index.update_file("a.rs", "// TODO: same\n");
    assert!(update.added.is_empty());
    assert!(update.removed.is_empty());
}

#[test]
fn test_index_remove_file() {
    let mut index = setup_index(&[("a.rs", "// TODO: gone\n// FIXME: also gone\n")]);
    assert_eq!(index.total_count(), 2);
    let removed = index.remove_file("a.rs");
    assert_eq!(removed.len(), 2);
    assert_eq!(index.total_count(), 0);
}

#[test]
fn test_index_remove_nonexistent_file() {
    let mut index = setup_index(&[("a.rs", "// TODO: exists\n")]);
    let removed = index.remove_file("nonexistent.rs");
    assert!(removed.is_empty());
    assert_eq!(index.total_count(), 1);
}

#[test]
fn test_should_exclude_dirs() {
    let mut config = Config::default();
    config.exclude_dirs = vec!["node_modules".to_string()];
    let index = setup_index_with(&[], &config);
    assert!(index.should_exclude("node_modules/foo.js"));
    assert!(!index.should_exclude("src/main.rs"));
}

#[test]
fn test_should_exclude_patterns() {
    let mut config = Config::default();
    config.exclude_patterns = vec![r"\.min\.js$".to_string()];
    let index = setup_index_with(&[], &config);
    assert!(index.should_exclude("dist/bundle.min.js"));
    assert!(!index.should_exclude("src/app.js"));
}

#[test]
fn test_build_watch_event_delta() {
    let mut index = setup_index(&[("a.rs", "// TODO: one\n")]);
    let previous_total = index.total_count();
    let update = index.update_file("a.rs", "// TODO: one\n// TODO: two\n// TODO: three\n");
    let event = build_watch_event("a.rs", &update, &index, previous_total);
    assert_eq!(event.total, 3);
    assert_eq!(event.total_delta, 2);
    assert_eq!(event.added.len(), 2);
    assert!(event.removed.is_empty());
}

#[test]
fn watch_event_carries_timestamp_and_tag_summary() {
    let mut index = setup_index(&[("a.rs", "// TODO: one\n// FIXME: two\n// FIXME: three\n")]);
    let update = index.update_file("a.rs", "// FIXME: two\n// FIXME: three\n");
    let event = build_watch_event_at("a.rs", &update, &index, 3, "2024-01-02T03:04:05Z".to_string());
    assert_eq!(event.timestamp, "2024-01-02T03:04:05Z");
    assert_eq!(event.file, "a.rs");
    assert_eq!(event.total, 2);
    assert_eq!(event.total_delta, -1);
    assert_eq!(event.tag_summary, vec![("FIXME".to_string(), 2)]);
    assert_eq!(event.removed.len(), 1);
    assert_eq!(event.removed[0].message, "one");
}

#[test]
fn handle_change_reports_and_filters() {
    let mut index = setup_index(&[("a.rs", "// TODO: one\n")]);
    // Unchanged content: nothing to report.
    assert!(index.handle_change("a.rs", Some("// TODO: one\n"), &vec![], "t".to_string()).is_none());
    // A new FIXME, filtered to TODO only: nothing shown.
    assert!(index
        .handle_change("a.rs", Some("// TODO: one\n// FIXME: two\n"), &vec![Tag::Todo], "t".to_string())
        .is_none());
    assert_eq!(index.total_count(), 2);
    // The file is deleted: both items removed.
    let ev = index.handle_change("a.rs", None, &vec![], "t".to_string()).unwrap();
    assert_eq!(ev.removed.len(), 2);
    assert_eq!(ev.total, 0);
    assert_eq!(ev.total_delta, -2);
}

#[test]
fn handle_change_skips_excluded_paths() {
    let mut config = Config::default();
    config.exclude_dirs = vec!["target".to_string()];
    let mut index = setup_index_with(&[], &config);
    assert!(index.handle_change("target/x.rs", Some("// TODO: a\n"), &vec![], "t".to_string()).is_none());
    assert_eq!(index.total_count(), 0);
}
