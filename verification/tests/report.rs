use todo_scan::model::{BlameEntry, BlameInfo, BlameResult, Priority, Tag, TodoItem};
use todo_scan::report::build_age_histogram;
use todo_scan::date_utils::now_iso8601;












#[test]
fn test_build_age_histogram_empty() {
    let blame = BlameResult {
        entries: vec![],
        total: 0,
        avg_age_days: 0,
        stale_count: 0,
        stale_threshold_days: 365,
    };
    let histogram = build_age_histogram(&blame);
    assert_eq!(histogram.len(), 6);
    for bucket in &histogram {
        assert_eq!(bucket.count, 0);
    }
}


#[test]
fn test_build_age_histogram_single_bucket() {
    let entry = BlameEntry {
        item: TodoItem {
            file: "test.rs".to_string(),
            line: 1,
            tag: Tag::Todo,
            message: "test".to_string(),
            author: None,
            issue_ref: None,
            priority: Priority::Normal,
            deadline: None,
        },
        blame: BlameInfo {
            author: "test".to_string(),
            email: "test@test.com".to_string(),
            date: "2024-01-01".to_string(),
            age_days: 3,
            commit: "abc12345".to_string(),
        },
        stale: false,
    };
    let blame = BlameResult {
        entries: vec![entry],
        total: 1,
        avg_age_days: 3,
        stale_count: 0,
        stale_threshold_days: 365,
    };
    let histogram = build_age_histogram(&blame);
    assert_eq!(histogram[0].count, 1); // <1 week
    for bucket in &histogram[1..] {
        assert_eq!(bucket.count, 0);
    }
}


#[test]
fn test_build_age_histogram_all_buckets() {
    let ages = [3, 14, 60, 120, 250, 400];
    let entries: Vec<BlameEntry> = ages
        .iter()
        .map(|&age| BlameEntry {
            item: TodoItem {
                file: "test.rs".to_string(),
                line: 1,
                tag: Tag::Todo,
                message: "test".to_string(),
                author: None,
                issue_ref: None,
                priority: Priority::Normal,
                deadline: None,
            },
            blame: BlameInfo {
                author: "test".to_string(),
                email: "test@test.com".to_string(),
                date: "2024-01-01".to_string(),
                age_days: age,
                commit: "abc12345".to_string(),
            },
            stale: age >= 365,
        })
        .collect();

    let blame = BlameResult {
        entries,
        total: 6,
        avg_age_days: 141,
        stale_count: 1,
        stale_threshold_days: 365,
    };
    let histogram = build_age_histogram(&blame);
    for bucket in &histogram {
        assert_eq!(bucket.count, 1);
    }
}


#[test]
fn test_now_iso8601_format() {
    let ts = now_iso8601();
    assert!(ts.ends_with('Z'));
    assert_eq!(ts.len(), 20);
    assert!(ts.contains('T'));
}

#[test]
fn histogram_counts_add_up_to_entries() {
    let ages = [0u64, 6, 7, 27, 28, 89, 90, 179, 180, 364, 365, 5000];
    let entries: Vec<BlameEntry> = ages
        .iter()
        .map(|a| BlameEntry {
            item: TodoItem {
                file: "a.rs".to_string(),
                line: 1,
                tag: Tag::Todo,
                message: "m".to_string(),
                author: None,
                issue_ref: None,
                priority: Priority::Normal,
                deadline: None,
            },
            blame: BlameInfo {
                author: "a".to_string(),
                email: "e".to_string(),
                date: "2024-01-01".to_string(),
                age_days: *a,
                commit: "abc".to_string(),
            },
            stale: false,
        })
        .collect();
    let result = BlameResult {
        entries,
        total: ages.len(),
        avg_age_days: 0,
        stale_count: 0,
        stale_threshold_days: 365,
    };
    let hist = build_age_histogram(&result);
    let counts: Vec<usize> = hist.iter().map(|b| b.count).collect();
    assert_eq!(counts, vec![2, 2, 2, 2, 2, 2]);
    assert_eq!(counts.iter().sum::<usize>(), ages.len());
}

#[test]
fn commit_log_lines_split_at_first_space() {
    let log = todo_scan::report::parse_commit_log("abc123 2024-01-02T03:04:05+00:00\nnospace\ndef 2023-12-31T00:00:00Z\n");
    assert_eq!(log.len(), 2);
    assert_eq!(log[0], ("abc123".to_string(), "2024-01-02T03:04:05+00:00".to_string()));
    assert_eq!(log[1].0, "def");
}

#[test]
fn history_point_shortens_hash_and_date() {
    let p = todo_scan::report::history_point("0123456789abcdef", "2024-01-02T03:04:05+00:00", 7);
    assert_eq!(p.commit, "01234567");
    assert_eq!(p.date, "2024-01-02");
    assert_eq!(p.count, 7);
    let q = todo_scan::report::history_point("abc", "2024-05-06", 0);
    assert_eq!(q.commit, "abc");
    assert_eq!(q.date, "2024-05-06");
}
