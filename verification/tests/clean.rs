use std::collections::HashMap;
use todo_scan::clean::{extract_issue_number, issue_state_from_report, normalize_message, parse_iso8601_timestamp, run_clean, IssueChecker, IssueState};
use todo_scan::config::Config;
use todo_scan::model::{Priority, ScanResult, Tag, TodoItem};

fn make_item(file: &str, line: usize, tag: Tag, message: &str) -> TodoItem {
    TodoItem {
        file: file.to_string(),
        line,
        tag,
        message: message.to_string(),
        author: None,
        issue_ref: None,
        priority: Priority::Normal,
        deadline: None,
    }
}

struct MockIssueChecker {
    issues: HashMap<u32, Option<IssueState>>,
}

impl MockIssueChecker {
    fn new(issues: Vec<(u32, Option<IssueState>)>) -> Self {
        Self {
            issues: issues.into_iter().collect(),
        }
    }
}

impl IssueChecker for MockIssueChecker {
    fn check_issue(&self, issue_number: u32) -> Result<Option<IssueState>, anyhow::Error> {
        Ok(self.issues.get(&issue_number).cloned().unwrap_or(None))
    }
}

struct ErrorIssueChecker;

impl IssueChecker for ErrorIssueChecker {
    fn check_issue(&self, _issue_number: u32) -> Result<Option<IssueState>, anyhow::Error> {
        Err(anyhow::Error::msg("network error"))
    }
}

fn make_item_with_issue(file: &str, line: usize, tag: Tag, message: &str, issue_ref: &str) -> TodoItem {
    TodoItem {
        file: file.to_string(),
        line,
        tag,
        message: message.to_string(),
        author: None,
        issue_ref: Some(issue_ref.to_string()),
        priority: Priority::Normal,
        deadline: None,
    }
}

fn default_config() -> Config {
    Config::default()
}


#[test]
fn test_stale_closed_issue_detected() {
    let scan = ScanResult {
        items: vec![make_item_with_issue(
            "a.rs",
            1,
            Tag::Todo,
            "fix bug #42",
            "#42",
        )],
        files_scanned: 1,
        ignored_items: vec![],
    };
    let checker =
        MockIssueChecker::new(vec![(42, Some(IssueState::Closed { closed_at: None }))]);
    let result = run_clean(&scan, &default_config(), Some(&checker), None);
    assert!(!result.passed);
    assert_eq!(result.stale_count, 1);
    assert_eq!(result.violations[0].rule, "stale_issue");
    assert!(result.violations[0].message.contains("#42"));
}


#[test]
fn test_open_issue_not_flagged() {
    let scan = ScanResult {
        items: vec![make_item_with_issue(
            "a.rs",
            1,
            Tag::Todo,
            "fix bug #42",
            "#42",
        )],
        files_scanned: 1,
        ignored_items: vec![],
    };
    let checker = MockIssueChecker::new(vec![(42, Some(IssueState::Open))]);
    let result = run_clean(&scan, &default_config(), Some(&checker), None);
    assert!(result.passed);
    assert_eq!(result.stale_count, 0);
}


#[test]
fn test_since_filter_skips_recently_closed() {
    let now_ts = std::time::SystemTime::now()
        .duration_since(std::time::UNIX_EPOCH)
        .unwrap()
        .as_secs() as i64;

    // Closed 5 days ago
    let closed_ts = now_ts - (5 * 86400);

    let scan = ScanResult {
        items: vec![make_item_with_issue(
            "a.rs",
            1,
            Tag::Todo,
            "fix bug #42",
            "#42",
        )],
        files_scanned: 1,
        ignored_items: vec![],
    };
    let checker = MockIssueChecker::new(vec![(
        42,
        Some(IssueState::Closed {
            closed_at: Some(closed_ts),
        }),
    )]);

    // Since 30 days — closed 5 days ago should NOT be flagged
    let result = run_clean(&scan, &default_config(), Some(&checker), Some("30d"));
    assert!(result.passed);
    assert_eq!(result.stale_count, 0);
}


#[test]
fn test_since_filter_flags_old_closed() {
    let now_ts = std::time::SystemTime::now()
        .duration_since(std::time::UNIX_EPOCH)
        .unwrap()
        .as_secs() as i64;

    // Closed 60 days ago
    let closed_ts = now_ts - (60 * 86400);

    let scan = ScanResult {
        items: vec![make_item_with_issue(
            "a.rs",
            1,
            Tag::Todo,
            "fix bug #42",
            "#42",
        )],
        files_scanned: 1,
        ignored_items: vec![],
    };
    let checker = MockIssueChecker::new(vec![(
        42,
        Some(IssueState::Closed {
            closed_at: Some(closed_ts),
        }),
    )]);

    // Since 30 days — closed 60 days ago SHOULD be flagged
    let result = run_clean(&scan, &default_config(), Some(&checker), Some("30d"));
    assert!(!result.passed);
    assert_eq!(result.stale_count, 1);
}


#[test]
fn test_jira_refs_not_checked() {
    let mut item = make_item("a.rs", 1, Tag::Todo, "fix JIRA-456");
    item.issue_ref = Some("JIRA-456".to_string());

    let scan = ScanResult {
        items: vec![item],
        files_scanned: 1,
        ignored_items: vec![],
    };
    let checker = MockIssueChecker::new(vec![]);
    let result = run_clean(&scan, &default_config(), Some(&checker), None);
    assert!(result.passed);
    assert_eq!(result.stale_count, 0);
}


#[test]
fn test_no_issue_checker_skips_stale() {
    let scan = ScanResult {
        items: vec![make_item_with_issue(
            "a.rs",
            1,
            Tag::Todo,
            "fix bug #42",
            "#42",
        )],
        files_scanned: 1,
        ignored_items: vec![],
    };
    let result = run_clean(&scan, &default_config(), None, None);
    assert!(result.passed);
    assert_eq!(result.stale_count, 0);
}


#[test]
fn test_duplicate_exact_match() {
    let scan = ScanResult {
        items: vec![
            make_item("a.rs", 1, Tag::Todo, "implement feature"),
            make_item("b.rs", 5, Tag::Todo, "implement feature"),
        ],
        files_scanned: 2,
        ignored_items: vec![],
    };
    let result = run_clean(&scan, &default_config(), None, None);
    assert!(!result.passed);
    assert_eq!(result.duplicate_count, 1);
    assert_eq!(result.violations[0].rule, "duplicate");
}


#[test]
fn test_duplicate_case_insensitive() {
    let scan = ScanResult {
        items: vec![
            make_item("a.rs", 1, Tag::Todo, "Implement Feature"),
            make_item("b.rs", 5, Tag::Todo, "implement feature"),
        ],
        files_scanned: 2,
        ignored_items: vec![],
    };
    let result = run_clean(&scan, &default_config(), None, None);
    assert!(!result.passed);
    assert_eq!(result.duplicate_count, 1);
}


#[test]
fn test_duplicate_whitespace_normalization() {
    let scan = ScanResult {
        items: vec![
            make_item("a.rs", 1, Tag::Todo, "implement   feature"),
            make_item("b.rs", 5, Tag::Todo, "implement feature"),
        ],
        files_scanned: 2,
        ignored_items: vec![],
    };
    let result = run_clean(&scan, &default_config(), None, None);
    assert!(!result.passed);
    assert_eq!(result.duplicate_count, 1);
}


#[test]
fn test_different_messages_no_duplicate() {
    let scan = ScanResult {
        items: vec![
            make_item("a.rs", 1, Tag::Todo, "implement feature A"),
            make_item("b.rs", 5, Tag::Todo, "implement feature B"),
        ],
        files_scanned: 2,
        ignored_items: vec![],
    };
    let result = run_clean(&scan, &default_config(), None, None);
    assert!(result.passed);
    assert_eq!(result.duplicate_count, 0);
}


#[test]
fn test_empty_messages_not_duplicated() {
    let scan = ScanResult {
        items: vec![
            make_item("a.rs", 1, Tag::Todo, ""),
            make_item("b.rs", 5, Tag::Todo, ""),
        ],
        files_scanned: 2,
        ignored_items: vec![],
    };
    let result = run_clean(&scan, &default_config(), None, None);
    assert!(result.passed);
    assert_eq!(result.duplicate_count, 0);
}


#[test]
fn test_passed_when_no_violations() {
    let scan = ScanResult {
        items: vec![make_item("a.rs", 1, Tag::Todo, "unique message")],
        files_scanned: 1,
        ignored_items: vec![],
    };
    let result = run_clean(&scan, &default_config(), None, None);
    assert!(result.passed);
    assert_eq!(result.stale_count, 0);
    assert_eq!(result.duplicate_count, 0);
}


#[test]
fn test_normalize_message() {
    assert_eq!(normalize_message("  Hello  World  "), "hello world");
    assert_eq!(normalize_message("UPPER"), "upper");
    assert_eq!(normalize_message("a\tb"), "a b");
}


#[test]
fn test_extract_issue_number() {
    assert_eq!(extract_issue_number("#123"), Some(123));
    assert_eq!(extract_issue_number("#1"), Some(1));
    assert_eq!(extract_issue_number("JIRA-456"), None);
    assert_eq!(extract_issue_number("no ref"), None);
}


#[test]
fn test_parse_iso8601_timestamp() {
    let ts = parse_iso8601_timestamp("2024-01-01T00:00:00Z");
    assert!(ts.is_some());
    // 2024-01-01 00:00:00 UTC = 1704067200
    assert_eq!(ts.unwrap(), 1704067200);
}


#[test]
fn test_config_disables_stale() {
    let scan = ScanResult {
        items: vec![make_item_with_issue("a.rs", 1, Tag::Todo, "fix #42", "#42")],
        files_scanned: 1,
        ignored_items: vec![],
    };
    let checker =
        MockIssueChecker::new(vec![(42, Some(IssueState::Closed { closed_at: None }))]);
    let mut config = default_config();
    config.clean.stale_issues = Some(false);
    let result = run_clean(&scan, &config, Some(&checker), None);
    assert!(result.passed);
}


#[test]
fn test_config_disables_duplicates() {
    let scan = ScanResult {
        items: vec![
            make_item("a.rs", 1, Tag::Todo, "same message"),
            make_item("b.rs", 2, Tag::Todo, "same message"),
        ],
        files_scanned: 2,
        ignored_items: vec![],
    };
    let mut config = default_config();
    config.clean.duplicates = Some(false);
    let result = run_clean(&scan, &config, None, None);
    assert!(result.passed);
}


#[test]
fn test_parse_iso8601_timestamp_empty_string() {
    assert_eq!(parse_iso8601_timestamp(""), None);
}


#[test]
fn test_parse_iso8601_timestamp_no_match() {
    assert_eq!(parse_iso8601_timestamp("not a date at all"), None);
}


#[test]
fn test_parse_iso8601_timestamp_partial_date() {
    // Only date portion, missing time components
    assert_eq!(parse_iso8601_timestamp("2024-01-15"), None);
}


#[test]
fn test_since_filter_flags_closed_with_no_timestamp() {
    // When since_days is set but closed_at is None, the issue should
    // still be flagged (line 206: "If no closed_at timestamp, still flag it")
    let scan = ScanResult {
        items: vec![make_item_with_issue(
            "a.rs",
            1,
            Tag::Todo,
            "fix bug #42",
            "#42",
        )],
        files_scanned: 1,
        ignored_items: vec![],
    };
    let checker =
        MockIssueChecker::new(vec![(42, Some(IssueState::Closed { closed_at: None }))]);

    // Since 30 days — but closed_at is None, so it should still be flagged
    let result = run_clean(&scan, &default_config(), Some(&checker), Some("30d"));
    assert!(!result.passed);
    assert_eq!(result.stale_count, 1);
    assert!(result.violations[0].message.contains("#42"));
}


#[test]
fn test_run_clean_since_from_config() {
    let now_ts = std::time::SystemTime::now()
        .duration_since(std::time::UNIX_EPOCH)
        .unwrap()
        .as_secs() as i64;

    // Closed 5 days ago
    let closed_ts = now_ts - (5 * 86400);

    let scan = ScanResult {
        items: vec![make_item_with_issue(
            "a.rs",
            1,
            Tag::Todo,
            "fix bug #42",
            "#42",
        )],
        files_scanned: 1,
        ignored_items: vec![],
    };
    let checker = MockIssueChecker::new(vec![(
        42,
        Some(IssueState::Closed {
            closed_at: Some(closed_ts),
        }),
    )]);

    // Set since in config (not CLI), 30 days — closed 5 days ago should NOT be flagged
    let mut config = default_config();
    config.clean.since = Some("30d".to_string());
    let result = run_clean(&scan, &config, Some(&checker), None);
    assert!(result.passed);
    assert_eq!(result.stale_count, 0);
}


#[test]
fn test_run_clean_cli_since_overrides_config() {
    let now_ts = std::time::SystemTime::now()
        .duration_since(std::time::UNIX_EPOCH)
        .unwrap()
        .as_secs() as i64;

    // Closed 60 days ago
    let closed_ts = now_ts - (60 * 86400);

    let scan = ScanResult {
        items: vec![make_item_with_issue(
            "a.rs",
            1,
            Tag::Todo,
            "fix bug #42",
            "#42",
        )],
        files_scanned: 1,
        ignored_items: vec![],
    };
    let checker = MockIssueChecker::new(vec![(
        42,
        Some(IssueState::Closed {
            closed_at: Some(closed_ts),
        }),
    )]);

    // Config says 90d (would skip), CLI says 30d (should flag)
    let mut config = default_config();
    config.clean.since = Some("90d".to_string());
    let result = run_clean(&scan, &config, Some(&checker), Some("30d"));
    assert!(!result.passed);
    assert_eq!(result.stale_count, 1);
}


#[test]
fn test_multiple_items_same_issue_number() {
    let scan = ScanResult {
        items: vec![
            make_item_with_issue("a.rs", 1, Tag::Todo, "first ref to #42", "#42"),
            make_item_with_issue("b.rs", 10, Tag::Todo, "second ref to #42", "#42"),
        ],
        files_scanned: 2,
        ignored_items: vec![],
    };
    let checker =
        MockIssueChecker::new(vec![(42, Some(IssueState::Closed { closed_at: None }))]);

    let result = run_clean(&scan, &default_config(), Some(&checker), None);
    assert!(!result.passed);
    // Both items should be flagged as stale
    assert_eq!(result.stale_count, 2);
}


#[test]
fn test_issue_checker_error_skips_issue() {
    let scan = ScanResult {
        items: vec![make_item_with_issue(
            "a.rs",
            1,
            Tag::Todo,
            "fix bug #42",
            "#42",
        )],
        files_scanned: 1,
        ignored_items: vec![],
    };
    let checker = ErrorIssueChecker;

    // When the checker returns Err, the issue should be skipped (not flagged)
    let result = run_clean(&scan, &default_config(), Some(&checker), None);
    assert!(result.passed);
    assert_eq!(result.stale_count, 0);
}

#[test]
fn distinct_messages_have_no_duplicates() {
    let mk = |line: usize, msg: &str| TodoItem {
        file: "a.rs".to_string(),
        line,
        tag: Tag::Todo,
        message: msg.to_string(),
        author: None,
        issue_ref: None,
        priority: Priority::Normal,
        deadline: None,
    };
    let items = vec![mk(1, "fix the parser"), mk(2, "fix the lexer"), mk(3, "")];
    assert!(todo_scan::clean::detect_duplicates(&items).is_empty());
    let dup = vec![mk(1, "Fix  the parser"), mk(2, "fix the parser")];
    let v = todo_scan::clean::detect_duplicates(&dup);
    assert_eq!(v.len(), 1);
}

#[test]
fn issue_state_from_tracker_report() {
    assert_eq!(issue_state_from_report(Some("OPEN"), None), IssueState::Open);
    assert_eq!(issue_state_from_report(None, None), IssueState::Open);
    assert_eq!(issue_state_from_report(Some("CLOSED"), None), IssueState::Closed { closed_at: None });
    assert_eq!(
        issue_state_from_report(Some("CLOSED"), Some("2024-01-01T00:00:00Z")),
        IssueState::Closed { closed_at: Some(1704067200) }
    );
    assert_eq!(issue_state_from_report(Some("CLOSED"), Some("yesterday")), IssueState::Closed { closed_at: None });
}

#[test]
fn violations_of_one_line_keep_stale_before_duplicate() {
    let scan = ScanResult {
        items: vec![
            make_item_with_issue("b.rs", 3, Tag::Todo, "fix bug #7", "#7"),
            make_item_with_issue("a.rs", 9, Tag::Todo, "fix bug #7", "#7"),
        ],
        files_scanned: 2,
        ignored_items: vec![],
    };
    let checker = MockIssueChecker::new(vec![(7, Some(IssueState::Closed { closed_at: None }))]);
    let result = run_clean(&scan, &default_config(), Some(&checker), None);
    let got: Vec<(&str, usize, &str)> =
        result.violations.iter().map(|v| (v.file.as_str(), v.line, v.rule.as_str())).collect();
    assert_eq!(
        got,
        vec![("a.rs", 9, "stale_issue"), ("a.rs", 9, "duplicate"), ("b.rs", 3, "stale_issue")]
    );
    assert_eq!(result.stale_count, 2);
    assert_eq!(result.duplicate_count, 1);
}
