use std::collections::HashMap;

use todo_scan::cli::{BlameSortBy, GroupBy, PriorityFilter, SortBy};
use todo_scan::cmd::blame::{refine_blame, stale_threshold_text, BlameOptions};
use todo_scan::cmd::diff::filter_diff_tags;
use todo_scan::cmd::search::{refine_search, SearchOptions};
use todo_scan::cmd::tasks::{added_items, select_task_items, TasksOptions};
use todo_scan::cmd::workspace::{package_summary, package_violations, workspace_check_result, workspace_result};
use todo_scan::config::{Config, PackageCheckConfig};
use todo_scan::model::{
    BlameEntry, BlameInfo, BlameResult, DiffEntry, DiffResult, DiffStatus, PackageInfo, PackageStatus, Priority,
    SearchResult, Tag, TodoItem, WorkspaceKind,
};

fn item(file: &str, line: usize, tag: Tag, msg: &str) -> TodoItem {
    TodoItem {
        file: file.to_string(),
        line,
        tag,
        message: msg.to_string(),
        author: None,
        issue_ref: None,
        priority: Priority::Normal,
        deadline: None,
    }
}

fn entry(file: &str, line: usize, tag: Tag, author: &str, age: u64, stale: bool) -> BlameEntry {
    BlameEntry {
        item: item(file, line, tag, "m"),
        blame: BlameInfo {
            author: author.to_string(),
            email: "e@x".to_string(),
            date: "2024-01-01".to_string(),
            age_days: age,
            commit: "c".to_string(),
        },
        stale,
    }
}

fn blame_opts(sort: BlameSortBy) -> BlameOptions {
    BlameOptions { sort, author: None, min_age: None, stale_threshold: None, tag: vec![], path: None }
}

fn blame_result() -> BlameResult {
    BlameResult {
        entries: vec![
            entry("b.rs", 1, Tag::Todo, "Alice Smith", 10, false),
            entry("a.rs", 5, Tag::Bug, "bob", 400, true),
            entry("a.rs", 2, Tag::Fixme, "ALICE", 100, false),
        ],
        total: 3,
        avg_age_days: 170,
        stale_count: 1,
        stale_threshold_days: 365,
    }
}

#[test]
fn blame_threshold_prefers_cli_then_config() {
    let mut config = Config::default();
    assert_eq!(stale_threshold_text(&None, &config), "365d");
    config.blame.stale_threshold = Some("30d".to_string());
    assert_eq!(stale_threshold_text(&None, &config), "30d");
    assert_eq!(stale_threshold_text(&Some("7d".to_string()), &config), "7d");
}

#[test]
fn blame_author_filter_ignores_case_and_recomputes() {
    let mut r = blame_result();
    let mut o = blame_opts(BlameSortBy::Age);
    o.author = Some("alice".to_string());
    assert_eq!(refine_blame(&mut r, &o), Ok(()));
    assert_eq!(r.entries.len(), 2);
    assert_eq!(r.entries[0].blame.age_days, 100);
    assert_eq!(r.total, 2);
    assert_eq!(r.stale_count, 0);
    assert_eq!(r.avg_age_days, 55);
}

#[test]
fn blame_min_age_tag_and_sorts() {
    let mut r = blame_result();
    let mut o = blame_opts(BlameSortBy::File);
    o.min_age = Some("50d".to_string());
    assert_eq!(refine_blame(&mut r, &o), Ok(()));
    let locs: Vec<usize> = r.entries.iter().map(|e| e.item.line).collect();
    assert_eq!(locs, vec![2, 5]);
    let mut r2 = blame_result();
    let mut o2 = blame_opts(BlameSortBy::Tag);
    o2.tag = vec!["bug".to_string(), "todo".to_string()];
    assert_eq!(refine_blame(&mut r2, &o2), Ok(()));
    assert_eq!(r2.entries[0].item.tag, Tag::Bug);
    assert_eq!(r2.entries.len(), 2);
    let mut r3 = blame_result();
    assert_eq!(refine_blame(&mut r3, &blame_opts(BlameSortBy::Author)), Ok(()));
    assert_eq!(r3.entries[0].blame.author, "ALICE");
}

#[test]
fn blame_errors_for_bad_age_or_glob() {
    let mut r = blame_result();
    let mut o = blame_opts(BlameSortBy::File);
    o.min_age = Some("soon".to_string());
    assert_eq!(refine_blame(&mut r, &o), Err("invalid duration: soon".to_string()));
    let mut r2 = blame_result();
    let mut o2 = blame_opts(BlameSortBy::File);
    o2.path = Some("[".to_string());
    assert_eq!(refine_blame(&mut r2, &o2), Err("invalid glob pattern".to_string()));
    let mut r3 = blame_result();
    assert_eq!(refine_blame(&mut r3, &BlameOptions { path: Some("a.*".to_string()), ..blame_opts(BlameSortBy::File) }), Ok(()));
    assert_eq!(r3.total, 2);
}

#[test]
fn search_refinement_filters_sorts_and_counts() {
    let mut items = vec![item("b.rs", 1, Tag::Todo, "x"), item("a.rs", 2, Tag::Todo, "y"), item("a.rs", 1, Tag::Bug, "z")];
    items[1].author = Some("amy".to_string());
    let mut r = SearchResult { query: "q".to_string(), exact: false, items, match_count: 3, file_count: 2 };
    let o = SearchOptions {
        query: "q".to_string(),
        exact: false,
        context: None,
        author: None,
        tag: vec!["TODO".to_string()],
        path: None,
        sort: SortBy::File,
        group_by: GroupBy::File,
    };
    assert_eq!(refine_search(&mut r, &o), Ok(()));
    assert_eq!(r.match_count, 2);
    assert_eq!(r.file_count, 2);
    assert_eq!(r.items[0].file, "a.rs");
    let o2 = SearchOptions { author: Some("amy".to_string()), ..o };
    let mut r2 = SearchResult { query: "q".to_string(), exact: false, items: r.items, match_count: 0, file_count: 0 };
    assert_eq!(refine_search(&mut r2, &o2), Ok(()));
    assert_eq!(r2.match_count, 1);
    assert_eq!(r2.file_count, 1);
}

#[test]
fn diff_tag_filter_recounts() {
    let mut d = DiffResult {
        entries: vec![
            DiffEntry { status: DiffStatus::Added, item: item("a.rs", 1, Tag::Todo, "a") },
            DiffEntry { status: DiffStatus::Removed, item: item("a.rs", 2, Tag::Bug, "b") },
            DiffEntry { status: DiffStatus::Added, item: item("a.rs", 3, Tag::Bug, "c") },
        ],
        added_count: 2,
        removed_count: 1,
        base_ref: "main".to_string(),
    };
    filter_diff_tags(&mut d, &vec![]);
    assert_eq!(d.entries.len(), 3);
    filter_diff_tags(&mut d, &vec!["bug".to_string()]);
    assert_eq!(d.entries.len(), 2);
    assert_eq!(d.added_count, 1);
    assert_eq!(d.removed_count, 1);
    let added = added_items(d);
    assert_eq!(added.len(), 1);
    assert_eq!(added[0].message, "c");
}

#[test]
fn tasks_filtered_and_in_order_of_work() {
    let mut items = vec![item("a.rs", 1, Tag::Note, "n"), item("b.rs", 1, Tag::Bug, "b"), item("c.rs", 1, Tag::Todo, "t")];
    items[2].priority = Priority::Urgent;
    items[0].priority = Priority::High;
    let o = TasksOptions {
        tag: vec![],
        context: 3,
        output: None,
        dry_run: true,
        since: None,
        priority: vec![PriorityFilter::Urgent, PriorityFilter::Normal],
        author: None,
        path: None,
    };
    assert_eq!(select_task_items(&mut items, &o), Ok(()));
    let msgs: Vec<&str> = items.iter().map(|i| i.message.as_str()).collect();
    assert_eq!(msgs, vec!["t", "b"]);
}

#[test]
fn workspace_package_rules() {
    let mut config = Config::default();
    let mut packages = HashMap::new();
    packages.insert("core".to_string(), PackageCheckConfig { max: Some(1), block_tags: vec!["bug".to_string()] });
    config.workspace.packages = packages;
    let items = vec![item("src/a.rs", 3, Tag::Bug, "x"), item("src/b.rs", 4, Tag::Todo, "y")];
    let v = package_violations(&config, "core", &items);
    assert_eq!(v.len(), 2);
    assert_eq!(v[0].rule, "workspace/max");
    assert_eq!(v[0].message, "package 'core' has 2 TODOs (max: 1)");
    assert_eq!(v[1].rule, "workspace/block-tag");
    assert_eq!(v[1].message, "package 'core': forbidden tag BUG at src/a.rs:3");
    assert!(package_violations(&config, "cli", &items).is_empty());
    let r = workspace_check_result(v);
    assert!(!r.passed);
    assert_eq!(r.total, 2);
    assert!(workspace_check_result(vec![]).passed);

    let pkg = PackageInfo { name: "core".to_string(), path: "crates/core".to_string(), kind: WorkspaceKind::Cargo };
    let s = package_summary(&config, &pkg, 2);
    assert_eq!(s.max, Some(1));
    assert_eq!(s.status, PackageStatus::Over);
    let other = PackageInfo { name: "cli".to_string(), path: "crates/cli".to_string(), kind: WorkspaceKind::Cargo };
    let s2 = package_summary(&config, &other, 5);
    assert_eq!(s2.status, PackageStatus::Uncapped);
    let w = workspace_result(vec![s, s2]);
    assert_eq!(w.total_packages, 2);
    assert_eq!(w.total_todos, 7);
}

#[test]
fn blame_sort_keeps_order_of_equal_keys() {
    let mut r = BlameResult {
        entries: vec![
            entry("c.rs", 1, Tag::Todo, "zed", 50, false),
            entry("a.rs", 9, Tag::Todo, "amy", 70, false),
            entry("b.rs", 3, Tag::Todo, "amy", 50, false),
            entry("a.rs", 1, Tag::Todo, "bob", 50, false),
        ],
        total: 4,
        avg_age_days: 55,
        stale_count: 0,
        stale_threshold_days: 365,
    };
    assert_eq!(refine_blame(&mut r, &blame_opts(BlameSortBy::Age)), Ok(()));
    let order: Vec<(&str, usize)> = r.entries.iter().map(|e| (e.item.file.as_str(), e.item.line)).collect();
    assert_eq!(order, vec![("a.rs", 9), ("c.rs", 1), ("b.rs", 3), ("a.rs", 1)]);
    assert_eq!(refine_blame(&mut r, &blame_opts(BlameSortBy::Author)), Ok(()));
    let order: Vec<(&str, usize)> = r.entries.iter().map(|e| (e.item.file.as_str(), e.item.line)).collect();
    assert_eq!(order, vec![("a.rs", 9), ("b.rs", 3), ("a.rs", 1), ("c.rs", 1)]);
    assert_eq!(refine_blame(&mut r, &blame_opts(BlameSortBy::Tag)), Ok(()));
    let order: Vec<(&str, usize)> = r.entries.iter().map(|e| (e.item.file.as_str(), e.item.line)).collect();
    assert_eq!(order, vec![("a.rs", 9), ("b.rs", 3), ("a.rs", 1), ("c.rs", 1)]);
}
