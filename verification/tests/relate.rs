use todo_scan::model::{Priority, Tag, TodoItem};
use todo_scan::relate::{build_clusters, component_groups, compute_suggested_order, extract_keywords, generate_theme};

fn make_item(file: &str, line: usize, tag: Tag, message: &str) -> TodoItem {
    TodoItem {
        file: file.to_string(),
        line,
        tag,
        message: message.to_string(),
        author: None,
        issue_ref: None,
        priority: Priority::Normal,
        deadline: None,
    }
}


#[test]
fn extract_keywords_removes_stopwords_and_lowercases() {
    let kw = extract_keywords("Implement the input validation for users");
    assert!(kw.contains("implement"));
    assert!(kw.contains("input"));
    assert!(kw.contains("validation"));
    assert!(kw.contains("users"));
    assert!(!kw.contains("the"));
    assert!(!kw.contains("for"));
}


#[test]
fn extract_keywords_empty_string() {
    let kw = extract_keywords("");
    assert!(kw.is_empty());
}


#[test]
fn extract_keywords_single_char_words_filtered() {
    let kw = extract_keywords("a b c fix");
    assert!(kw.contains("fix"));
    assert!(!kw.contains("b"));
    assert!(!kw.contains("c"));
}








#[test]
fn generate_theme_extracts_top_keywords() {
    let items = [
        make_item(
            "src/auth.rs",
            10,
            Tag::Todo,
            "fix authentication validation",
        ),
        make_item("src/auth.rs", 20, Tag::Fixme, "broken authentication check"),
    ];
    let refs: Vec<&TodoItem> = items.iter().collect();
    let theme = generate_theme(&refs);
    assert!(theme.contains("authentication"));
}


#[test]
fn compute_suggested_order_by_priority_then_severity() {
    let items = [
        make_item("src/a.rs", 10, Tag::Note, "low prio note"),
        {
            let mut item = make_item("src/b.rs", 20, Tag::Bug, "urgent bug");
            item.priority = Priority::Urgent;
            item
        },
        {
            let mut item = make_item("src/c.rs", 30, Tag::Todo, "high prio todo");
            item.priority = Priority::High;
            item
        },
    ];
    let mut refs: Vec<&TodoItem> = items.iter().collect();
    compute_suggested_order(&mut refs);

    assert_eq!(refs[0].priority, Priority::Urgent);
    assert_eq!(refs[1].priority, Priority::High);
    assert_eq!(refs[2].priority, Priority::Normal);
}

#[test]
fn build_clusters_connected_components() {
    let items = vec![
        make_item("src/a.rs", 10, Tag::Todo, "fix auth"),
        make_item("src/a.rs", 12, Tag::Fixme, "broken auth"),
        make_item("src/b.rs", 100, Tag::Note, "unrelated item"),
    ];
    let links = vec![("src/a.rs:10".to_string(), "src/a.rs:12".to_string())];

    let clusters = build_clusters(&links, &items);
    assert_eq!(clusters.len(), 1);
    assert_eq!(clusters[0].items.len(), 2);
    assert!(clusters[0].items.contains(&"src/a.rs:10".to_string()));
    assert!(clusters[0].items.contains(&"src/a.rs:12".to_string()));
}

#[test]
fn build_clusters_disjoint_groups() {
    let items = vec![
        make_item("src/a.rs", 10, Tag::Todo, "fix auth"),
        make_item("src/a.rs", 12, Tag::Fixme, "broken auth"),
        make_item("src/b.rs", 20, Tag::Todo, "fix database"),
        make_item("src/b.rs", 22, Tag::Bug, "db crash"),
    ];
    let links = vec![
        ("src/a.rs:10".to_string(), "src/a.rs:12".to_string()),
        ("src/b.rs:20".to_string(), "src/b.rs:22".to_string()),
    ];

    let clusters = build_clusters(&links, &items);
    assert_eq!(clusters.len(), 2);
}

#[test]
fn build_clusters_orders_members_and_keeps_inner_links() {
    let mut urgent = make_item("src/b.rs", 5, Tag::Bug, "crash in parser");
    urgent.priority = Priority::Urgent;
    let items = vec![
        make_item("src/a.rs", 1, Tag::Note, "parser note"),
        urgent,
        make_item("src/c.rs", 9, Tag::Todo, "parser cleanup"),
        make_item("src/d.rs", 3, Tag::Todo, "alone"),
    ];
    let links = vec![
        ("src/a.rs:1".to_string(), "src/b.rs:5".to_string()),
        ("src/b.rs:5".to_string(), "src/c.rs:9".to_string()),
        ("src/x.rs:1".to_string(), "src/d.rs:3".to_string()),
    ];
    let clusters = build_clusters(&links, &items);
    assert_eq!(clusters.len(), 1);
    assert_eq!(clusters[0].id, 1);
    assert_eq!(
        clusters[0].items,
        vec!["src/b.rs:5".to_string(), "src/c.rs:9".to_string(), "src/a.rs:1".to_string()]
    );
    assert_eq!(clusters[0].suggested_order, clusters[0].items);
    assert_eq!(clusters[0].link_indices, vec![0, 1]);
    assert!(clusters[0].theme.contains("parser"));
}

#[test]
fn component_groups_largest_first() {
    let groups = component_groups(6, &vec![(0, 1), (2, 3), (3, 4)]);
    assert_eq!(groups, vec![vec![2, 3, 4], vec![0, 1]]);
    assert!(component_groups(3, &vec![]).is_empty());
}
