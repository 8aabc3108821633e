use todo_scan::cmd::filter::{apply_filters, FilterOptions};
use todo_scan::cli::PriorityFilter;
use todo_scan::model::{Priority, Tag, TodoItem};

fn make_item(file: &str, line: usize, tag: Tag, message: &str) -> TodoItem {
    TodoItem {
        file: file.to_string(),
        line,
        tag,
        message: message.to_string(),
        author: None,
        issue_ref: None,
        priority: Priority::Normal,
        deadline: None,
    }
}

fn make_filter_item(file: &str, tag: Tag, priority: Priority, author: Option<&str>) -> TodoItem {
    let mut item = make_item(file, 1, tag, "test");
    item.priority = priority;
    item.author = author.map(|a| a.to_string());
    item
}


#[test]
fn filter_by_tag() {
    let mut items = vec![
        make_filter_item("a.rs", Tag::Todo, Priority::Normal, None),
        make_filter_item("b.rs", Tag::Fixme, Priority::Normal, None),
        make_filter_item("c.rs", Tag::Hack, Priority::Normal, None),
    ];
    let filters = FilterOptions {
        tags: vec!["TODO".to_string()],
        author: None,
        path: None,
        priority: vec![],
    };
    apply_filters(&mut items, &filters).unwrap();
    assert_eq!(items.len(), 1);
    assert_eq!(items[0].tag, Tag::Todo);
}


#[test]
fn filter_by_multiple_tags() {
    let mut items = vec![
        make_filter_item("a.rs", Tag::Todo, Priority::Normal, None),
        make_filter_item("b.rs", Tag::Fixme, Priority::Normal, None),
        make_filter_item("c.rs", Tag::Hack, Priority::Normal, None),
    ];
    let filters = FilterOptions {
        tags: vec!["TODO".to_string(), "HACK".to_string()],
        author: None,
        path: None,
        priority: vec![],
    };
    apply_filters(&mut items, &filters).unwrap();
    assert_eq!(items.len(), 2);
    assert_eq!(items[0].tag, Tag::Todo);
    assert_eq!(items[1].tag, Tag::Hack);
}


#[test]
fn filter_by_priority() {
    let mut items = vec![
        make_filter_item("a.rs", Tag::Todo, Priority::Normal, None),
        make_filter_item("b.rs", Tag::Todo, Priority::High, None),
        make_filter_item("c.rs", Tag::Todo, Priority::Urgent, None),
    ];
    let filters = FilterOptions {
        tags: vec![],
        author: None,
        path: None,
        priority: vec![PriorityFilter::High],
    };
    apply_filters(&mut items, &filters).unwrap();
    assert_eq!(items.len(), 1);
    assert_eq!(items[0].priority, Priority::High);
}


#[test]
fn filter_by_author() {
    let mut items = vec![
        make_filter_item("a.rs", Tag::Todo, Priority::Normal, Some("alice")),
        make_filter_item("b.rs", Tag::Todo, Priority::Normal, Some("bob")),
        make_filter_item("c.rs", Tag::Todo, Priority::Normal, None),
    ];
    let filters = FilterOptions {
        tags: vec![],
        author: Some("alice".to_string()),
        path: None,
        priority: vec![],
    };
    apply_filters(&mut items, &filters).unwrap();
    assert_eq!(items.len(), 1);
    assert_eq!(items[0].author.as_deref(), Some("alice"));
}


#[test]
fn filter_by_path() {
    let mut items = vec![
        make_filter_item("src/main.rs", Tag::Todo, Priority::Normal, None),
        make_filter_item("src/lib.rs", Tag::Todo, Priority::Normal, None),
        make_filter_item("tests/test.rs", Tag::Todo, Priority::Normal, None),
    ];
    let filters = FilterOptions {
        tags: vec![],
        author: None,
        path: Some("src/*.rs".to_string()),
        priority: vec![],
    };
    apply_filters(&mut items, &filters).unwrap();
    assert_eq!(items.len(), 2);
    assert!(items.iter().all(|i| i.file.starts_with("src/")));
}


#[test]
fn filter_combined() {
    let mut items = vec![
        make_filter_item("src/main.rs", Tag::Todo, Priority::High, Some("alice")),
        make_filter_item("src/lib.rs", Tag::Fixme, Priority::Normal, Some("alice")),
        make_filter_item("tests/test.rs", Tag::Todo, Priority::High, Some("bob")),
        make_filter_item("src/util.rs", Tag::Todo, Priority::Normal, Some("alice")),
    ];
    let filters = FilterOptions {
        tags: vec!["TODO".to_string()],
        author: Some("alice".to_string()),
        path: Some("src/**".to_string()),
        priority: vec![PriorityFilter::High],
    };
    apply_filters(&mut items, &filters).unwrap();
    assert_eq!(items.len(), 1);
    assert_eq!(items[0].file, "src/main.rs");
}


#[test]
fn empty_filters_retain_all() {
    let mut items = vec![
        make_filter_item("a.rs", Tag::Todo, Priority::Normal, None),
        make_filter_item("b.rs", Tag::Fixme, Priority::High, Some("alice")),
    ];
    let filters = FilterOptions {
        tags: vec![],
        author: None,
        path: None,
        priority: vec![],
    };
    apply_filters(&mut items, &filters).unwrap();
    assert_eq!(items.len(), 2);
}


#[test]
fn invalid_glob_returns_error() {
    let mut items = vec![make_filter_item("a.rs", Tag::Todo, Priority::Normal, None)];
    let filters = FilterOptions {
        tags: vec![],
        author: None,
        path: Some("[invalid".to_string()),
        priority: vec![],
    };
    assert!(apply_filters(&mut items, &filters).is_err());
}

#[test]
fn compile_glob_rejects_malformed_and_accepts_wildcards() {
    assert!(todo_scan::cmd::filter::compile_glob("src/[").is_none());
    assert!(todo_scan::cmd::filter::compile_glob("src/{a,b").is_none());
    assert!(todo_scan::cmd::filter::compile_glob("src/**/*.rs").is_some());
    assert!(todo_scan::cmd::filter::compile_glob("").is_some());
}
