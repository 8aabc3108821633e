use todo_scan::model::{DiffResult, Priority, ScanResult, Tag, TodoItem};
use todo_scan::stats::compute_stats;

fn make_item(file: &str, line: usize, tag: Tag, message: &str) -> TodoItem {
    TodoItem {
        file: file.to_string(),
        line,
        tag,
        message: message.to_string(),
        author: None,
        issue_ref: None,
        priority: Priority::Normal,
        deadline: None,
    }
}


#[test]
fn test_basic_counts() {
    let scan = ScanResult {
        items: vec![
            make_item("a.rs", 1, Tag::Todo, "task one"),
            make_item("a.rs", 2, Tag::Todo, "task two"),
            make_item("b.rs", 1, Tag::Fixme, "fix this"),
        ],
        files_scanned: 2,
        ignored_items: vec![],
    };

    let result = compute_stats(&scan, None);
    assert_eq!(result.total_items, 3);
    assert_eq!(result.total_files, 2);
    assert_eq!(result.tag_counts.len(), 2);
    assert!(result.trend.is_none());
}


#[test]
fn test_priority_counts() {
    let mut items = vec![
        make_item("a.rs", 1, Tag::Todo, "normal"),
        make_item("a.rs", 2, Tag::Todo, "high"),
        make_item("a.rs", 3, Tag::Todo, "urgent"),
    ];
    items[1].priority = Priority::High;
    items[2].priority = Priority::Urgent;

    let scan = ScanResult {
        items,
        files_scanned: 1,
        ignored_items: vec![],
    };

    let result = compute_stats(&scan, None);
    assert_eq!(result.priority_counts.normal, 1);
    assert_eq!(result.priority_counts.high, 1);
    assert_eq!(result.priority_counts.urgent, 1);
}


#[test]
fn test_author_counts() {
    let mut items = vec![
        make_item("a.rs", 1, Tag::Todo, "alice task"),
        make_item("a.rs", 2, Tag::Todo, "bob task"),
        make_item("a.rs", 3, Tag::Todo, "no author"),
    ];
    items[0].author = Some("alice".to_string());
    items[1].author = Some("bob".to_string());

    let scan = ScanResult {
        items,
        files_scanned: 1,
        ignored_items: vec![],
    };

    let result = compute_stats(&scan, None);
    assert_eq!(result.author_counts.len(), 3);
}


#[test]
fn test_hotspot_files_limited_to_5() {
    let items: Vec<TodoItem> = (0..10)
        .map(|i| make_item(&format!("file{}.rs", i), 1, Tag::Todo, "task"))
        .collect();

    let scan = ScanResult {
        items,
        files_scanned: 10,
        ignored_items: vec![],
    };

    let result = compute_stats(&scan, None);
    assert_eq!(result.hotspot_files.len(), 5);
}


#[test]
fn test_trend_from_diff() {
    let scan = ScanResult {
        items: vec![make_item("a.rs", 1, Tag::Todo, "task")],
        files_scanned: 1,
        ignored_items: vec![],
    };
    let diff = DiffResult {
        entries: vec![],
        added_count: 3,
        removed_count: 1,
        base_ref: "main".to_string(),
    };

    let result = compute_stats(&scan, Some(&diff));
    assert!(result.trend.is_some());
    let trend = result.trend.unwrap();
    assert_eq!(trend.added, 3);
    assert_eq!(trend.removed, 1);
    assert_eq!(trend.base_ref, "main");
}


#[test]
fn test_empty_scan() {
    let scan = ScanResult {
        items: vec![],
        files_scanned: 0,
        ignored_items: vec![],
    };

    let result = compute_stats(&scan, None);
    assert_eq!(result.total_items, 0);
    assert_eq!(result.total_files, 0);
    assert!(result.tag_counts.is_empty());
    assert!(result.author_counts.is_empty());
    assert!(result.hotspot_files.is_empty());
}

#[test]
fn priority_counts_add_up_to_total() {
    let mut items = vec![
        make_item("a.rs", 1, Tag::Todo, "x"),
        make_item("a.rs", 2, Tag::Bug, "y"),
        make_item("b.rs", 3, Tag::Fixme, "z"),
    ];
    items[0].priority = Priority::Urgent;
    items[1].priority = Priority::High;
    let scan = ScanResult { items, ignored_items: vec![], files_scanned: 2 };
    let s = compute_stats(&scan, None);
    let pc = &s.priority_counts;
    assert_eq!(pc.urgent + pc.high + pc.normal, s.total_items);
    let tag_total: usize = s.tag_counts.iter().map(|(_, c)| *c).sum();
    assert_eq!(tag_total, s.total_items);
}

#[test]
fn stats_breakdowns_count_every_item_once() {
    let mut items = vec![
        make_item("a.rs", 1, Tag::Todo, "one"),
        make_item("b.rs", 1, Tag::Fixme, "two"),
        make_item("c.rs", 1, Tag::Bug, "three"),
        make_item("d.rs", 1, Tag::Todo, "four"),
        make_item("e.rs", 1, Tag::Hack, "five"),
        make_item("f.rs", 1, Tag::Todo, "six"),
        make_item("a.rs", 2, Tag::Fixme, "seven"),
    ];
    items[1].author = Some("ann".to_string());
    items[2].priority = Priority::High;
    items[3].priority = Priority::Urgent;
    let scan = ScanResult { items, files_scanned: 6, ignored_items: vec![] };
    let r = compute_stats(&scan, None);
    assert_eq!(r.total_items, 7);
    assert_eq!(r.total_files, 6);
    assert_eq!(r.tag_counts.iter().map(|(_, c)| *c).sum::<usize>(), 7);
    assert_eq!(r.author_counts.iter().map(|(_, c)| *c).sum::<usize>(), 7);
    assert_eq!(r.priority_counts.normal + r.priority_counts.high + r.priority_counts.urgent, 7);
    assert_eq!(r.hotspot_files.len(), 5);
    assert_eq!(r.hotspot_files[0], ("a.rs".to_string(), 2));
    assert!(r.hotspot_files.windows(2).all(|w| w[0].1 >= w[1].1));
}
