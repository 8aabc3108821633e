use todo_scan::diff::{changed_files, check_base_ref, diff_items, file_update, missing_items, output_paths};
use todo_scan::model::{DiffStatus, Priority, ScanResult, Tag, TodoItem};

fn make_item(file: &str, line: usize, tag: Tag, message: &str) -> TodoItem {
    TodoItem {
        file: file.to_string(),
        line,
        tag,
        message: message.to_string(),
        author: None,
        issue_ref: None,
        priority: Priority::Normal,
        deadline: None,
    }
}

fn scan(items: Vec<TodoItem>) -> ScanResult {
    ScanResult { items, ignored_items: vec![], files_scanned: 1 }
}

#[test]
fn base_ref_with_leading_dash_is_refused() {
    assert_eq!(check_base_ref("main"), Ok(()));
    assert_eq!(check_base_ref("HEAD~1"), Ok(()));
    assert_eq!(
        check_base_ref("--output=/tmp/x"),
        Err("invalid git ref '--output=/tmp/x': must not start with '-'".to_string())
    );
}

#[test]
fn output_paths_trims_and_skips_blank_lines() {
    assert_eq!(output_paths("a.rs\n  b.rs \n\n"), vec!["a.rs".to_string(), "b.rs".to_string()]);
    assert!(output_paths("").is_empty());
}

#[test]
fn changed_files_unites_both_diffs_once() {
    let current = scan(vec![]);
    let files = changed_files(Some("a.rs\nb.rs\n"), Some("b.rs\nc.rs\n"), &vec![], &current);
    assert_eq!(files.len(), 3);
    for f in ["a.rs", "b.rs", "c.rs"] {
        assert!(files.iter().any(|x| x == f));
    }
}

#[test]
fn missing_items_compares_match_keys() {
    let a = vec![make_item("a.rs", 1, Tag::Todo, "Fix it"), make_item("a.rs", 2, Tag::Bug, "crash")];
    let b = vec![make_item("a.rs", 9, Tag::Todo, "  fix IT ")];
    let m = missing_items(&a, &b);
    assert_eq!(m.len(), 1);
    assert_eq!(m[0].message, "crash");
}

#[test]
fn file_update_reports_added_and_removed() {
    let old = vec![make_item("a.rs", 1, Tag::Todo, "keep"), make_item("a.rs", 2, Tag::Fixme, "gone")];
    let new = vec![make_item("a.rs", 1, Tag::Todo, "keep"), make_item("a.rs", 3, Tag::Hack, "new")];
    let u = file_update(&old, &new);
    assert_eq!(u.added.len(), 1);
    assert_eq!(u.added[0].message, "new");
    assert_eq!(u.removed.len(), 1);
    assert_eq!(u.removed[0].message, "gone");
}

#[test]
fn diff_items_counts_added_and_removed_in_changed_files() {
    let current = scan(vec![
        make_item("a.rs", 1, Tag::Todo, "keep"),
        make_item("a.rs", 2, Tag::Todo, "added"),
        make_item("b.rs", 1, Tag::Todo, "untouched file"),
    ]);
    let base = vec![make_item("a.rs", 1, Tag::Todo, "keep"), make_item("a.rs", 5, Tag::Bug, "removed")];
    let d = diff_items(&current, &vec!["a.rs".to_string()], &base, "main");
    assert_eq!(d.added_count, 1);
    assert_eq!(d.removed_count, 1);
    assert_eq!(d.base_ref, "main");
    assert_eq!(d.entries.len(), 2);
    assert!(d.entries.iter().any(|e| e.status == DiffStatus::Added && e.item.message == "added"));
    assert!(d.entries.iter().any(|e| e.status == DiffStatus::Removed && e.item.message == "removed"));
}

#[test]
fn diff_of_unchanged_files_is_empty() {
    let current = scan(vec![make_item("a.rs", 1, Tag::Todo, "same")]);
    let base = vec![make_item("a.rs", 1, Tag::Todo, "same")];
    let d = diff_items(&current, &vec!["a.rs".to_string()], &base, "HEAD");
    assert!(d.entries.is_empty());
    assert_eq!(d.added_count, 0);
    assert_eq!(d.removed_count, 0);
}

#[test]
fn moved_and_reworded_case_is_no_change() {
    let current = scan(vec![make_item("a.rs", 40, Tag::Todo, "  Fix The Parser "), make_item("a.rs", 3, Tag::Bug, "crash")]);
    let base = vec![make_item("a.rs", 1, Tag::Bug, "crash"), make_item("a.rs", 2, Tag::Todo, "fix the parser")];
    let d = diff_items(&current, &vec!["a.rs".to_string()], &base, "main");
    assert!(d.entries.is_empty());
    assert_eq!((d.added_count, d.removed_count), (0, 0));
}

#[test]
fn identity_ignores_line() {
    let a = make_item("a.rs", 1, Tag::Todo, "Fix it");
    let b = make_item("a.rs", 99, Tag::Todo, "Fix it");
    assert_eq!(a.id(), b.id());
    assert_eq!(a.match_key(), b.match_key());
    assert_eq!(a.id(), "a.rs:TODO:fix it");
    assert_eq!(a.match_key(), "a.rs:TODO:fix it");
}
