use todo_scan::config::Config;
use todo_scan::lint::{run_lint, LintOverrides};
use todo_scan::model::{Priority, ScanResult, Tag, TodoItem};

fn make_item(file: &str, line: usize, tag: Tag, message: &str) -> TodoItem {
    TodoItem {
        file: file.to_string(),
        line,
        tag,
        message: message.to_string(),
        author: None,
        issue_ref: None,
        priority: Priority::Normal,
        deadline: None,
    }
}

fn default_overrides() -> LintOverrides {
    LintOverrides {
        no_bare_tags: false,
        max_message_length: None,
        require_author: vec![],
        require_issue_ref: vec![],
        uppercase_tag: false,
        require_colon: false,
    }
}


#[test]
fn test_no_bare_tags_detects_empty_message() {
    let scan = ScanResult {
        items: vec![make_item("a.rs", 1, Tag::Todo, "")],
        files_scanned: 1,
        ignored_items: vec![],
    };
    let config = Config::default();
    let overrides = default_overrides();
    let result = run_lint(&scan, &config, &overrides, &vec![]);
    assert!(!result.passed);
    assert_eq!(result.violations.len(), 1);
    assert_eq!(result.violations[0].rule, "no_bare_tags");
}


#[test]
fn test_no_bare_tags_allows_non_empty_message() {
    let scan = ScanResult {
        items: vec![make_item("a.rs", 1, Tag::Todo, "real message")],
        files_scanned: 1,
        ignored_items: vec![],
    };
    let mut config = Config::default();
    config.lint.uppercase_tag = Some(false);
    config.lint.require_colon = Some(false);
    let overrides = default_overrides();
    let result = run_lint(&scan, &config, &overrides, &vec![]);
    assert!(result.passed);
}


#[test]
fn test_max_message_length() {
    let scan = ScanResult {
        items: vec![make_item("a.rs", 1, Tag::Todo, "this is a long message")],
        files_scanned: 1,
        ignored_items: vec![],
    };
    let mut config = Config::default();
    config.lint.no_bare_tags = Some(false);
    config.lint.uppercase_tag = Some(false);
    config.lint.require_colon = Some(false);
    let overrides = LintOverrides {
        max_message_length: Some(10),
        ..default_overrides()
    };
    let result = run_lint(&scan, &config, &overrides, &vec![]);
    assert!(!result.passed);
    assert_eq!(result.violations[0].rule, "max_message_length");
}


#[test]
fn test_require_author_missing() {
    let scan = ScanResult {
        items: vec![make_item("a.rs", 1, Tag::Todo, "no author")],
        files_scanned: 1,
        ignored_items: vec![],
    };
    let mut config = Config::default();
    config.lint.no_bare_tags = Some(false);
    config.lint.uppercase_tag = Some(false);
    config.lint.require_colon = Some(false);
    let overrides = LintOverrides {
        require_author: vec!["TODO".to_string()],
        ..default_overrides()
    };
    let result = run_lint(&scan, &config, &overrides, &vec![]);
    assert!(!result.passed);
    assert_eq!(result.violations[0].rule, "require_author");
}


#[test]
fn test_require_author_present() {
    let mut item = make_item("a.rs", 1, Tag::Todo, "has author");
    item.author = Some("alice".to_string());
    let scan = ScanResult {
        items: vec![item],
        files_scanned: 1,
        ignored_items: vec![],
    };
    let mut config = Config::default();
    config.lint.no_bare_tags = Some(false);
    config.lint.uppercase_tag = Some(false);
    config.lint.require_colon = Some(false);
    let overrides = LintOverrides {
        require_author: vec!["TODO".to_string()],
        ..default_overrides()
    };
    let result = run_lint(&scan, &config, &overrides, &vec![]);
    assert!(result.passed);
}


#[test]
fn test_require_issue_ref_missing() {
    let scan = ScanResult {
        items: vec![make_item("a.rs", 1, Tag::Bug, "no issue ref")],
        files_scanned: 1,
        ignored_items: vec![],
    };
    let mut config = Config::default();
    config.lint.no_bare_tags = Some(false);
    config.lint.uppercase_tag = Some(false);
    config.lint.require_colon = Some(false);
    let overrides = LintOverrides {
        require_issue_ref: vec!["BUG".to_string()],
        ..default_overrides()
    };
    let result = run_lint(&scan, &config, &overrides, &vec![]);
    assert!(!result.passed);
    assert_eq!(result.violations[0].rule, "require_issue_ref");
}


#[test]
fn test_require_issue_ref_present() {
    let mut item = make_item("a.rs", 1, Tag::Bug, "fix #123");
    item.issue_ref = Some("#123".to_string());
    let scan = ScanResult {
        items: vec![item],
        files_scanned: 1,
        ignored_items: vec![],
    };
    let mut config = Config::default();
    config.lint.no_bare_tags = Some(false);
    config.lint.uppercase_tag = Some(false);
    config.lint.require_colon = Some(false);
    let overrides = LintOverrides {
        require_issue_ref: vec!["BUG".to_string()],
        ..default_overrides()
    };
    let result = run_lint(&scan, &config, &overrides, &vec![]);
    assert!(result.passed);
}


#[test]
fn test_require_author_ignores_unmatched_tags() {
    let scan = ScanResult {
        items: vec![make_item("a.rs", 1, Tag::Note, "just a note")],
        files_scanned: 1,
        ignored_items: vec![],
    };
    let mut config = Config::default();
    config.lint.no_bare_tags = Some(false);
    config.lint.uppercase_tag = Some(false);
    config.lint.require_colon = Some(false);
    let overrides = LintOverrides {
        require_author: vec!["TODO".to_string()],
        ..default_overrides()
    };
    let result = run_lint(&scan, &config, &overrides, &vec![]);
    assert!(result.passed);
}


#[test]
fn test_config_overrides_defaults() {
    let scan = ScanResult {
        items: vec![make_item("a.rs", 1, Tag::Todo, "valid message")],
        files_scanned: 1,
        ignored_items: vec![],
    };
    let mut config = Config::default();
    // Disable all default-true rules via config
    config.lint.no_bare_tags = Some(false);
    config.lint.uppercase_tag = Some(false);
    config.lint.require_colon = Some(false);
    let overrides = default_overrides();
    let result = run_lint(&scan, &config, &overrides, &vec![]);
    assert!(result.passed);
}


#[test]
fn test_cli_overrides_config() {
    let scan = ScanResult {
        items: vec![make_item("a.rs", 1, Tag::Todo, "")],
        files_scanned: 1,
        ignored_items: vec![],
    };
    let mut config = Config::default();
    config.lint.no_bare_tags = Some(false); // Config disables
    config.lint.uppercase_tag = Some(false);
    config.lint.require_colon = Some(false);
    let overrides = LintOverrides {
        no_bare_tags: true, // CLI enables
        ..default_overrides()
    };
    let result = run_lint(&scan, &config, &overrides, &vec![]);
    assert!(!result.passed);
    assert_eq!(result.violations[0].rule, "no_bare_tags");
}


#[test]
fn test_multiple_violations() {
    let scan = ScanResult {
        items: vec![
            make_item("a.rs", 1, Tag::Todo, ""),
            make_item("a.rs", 2, Tag::Bug, "no issue ref"),
        ],
        files_scanned: 1,
        ignored_items: vec![],
    };
    let mut config = Config::default();
    config.lint.uppercase_tag = Some(false);
    config.lint.require_colon = Some(false);
    let overrides = LintOverrides {
        require_issue_ref: vec!["BUG".to_string()],
        ..default_overrides()
    };
    let result = run_lint(&scan, &config, &overrides, &vec![]);
    assert!(!result.passed);
    assert_eq!(result.violation_count, 2);
}


#[test]
fn test_config_require_author_used_when_override_empty() {
    let scan = ScanResult {
        items: vec![make_item("a.rs", 1, Tag::Fixme, "missing author")],
        files_scanned: 1,
        ignored_items: vec![],
    };
    let mut config = Config::default();
    config.lint.no_bare_tags = Some(false);
    config.lint.uppercase_tag = Some(false);
    config.lint.require_colon = Some(false);
    config.lint.require_author = Some(vec!["FIXME".to_string()]);
    let overrides = default_overrides();
    let result = run_lint(&scan, &config, &overrides, &vec![]);
    assert!(!result.passed);
    assert_eq!(result.violations[0].rule, "require_author");
}


#[test]
fn test_config_require_issue_ref_used_when_override_empty() {
    let scan = ScanResult {
        items: vec![make_item("a.rs", 1, Tag::Todo, "no ref")],
        files_scanned: 1,
        ignored_items: vec![],
    };
    let mut config = Config::default();
    config.lint.no_bare_tags = Some(false);
    config.lint.uppercase_tag = Some(false);
    config.lint.require_colon = Some(false);
    config.lint.require_issue_ref = Some(vec!["TODO".to_string()]);
    let overrides = default_overrides();
    let result = run_lint(&scan, &config, &overrides, &vec![]);
    assert!(!result.passed);
    assert_eq!(result.violations[0].rule, "require_issue_ref");
}


#[test]
fn test_config_max_message_length_from_config() {
    let scan = ScanResult {
        items: vec![make_item(
            "a.rs",
            1,
            Tag::Todo,
            "a fairly long message here",
        )],
        files_scanned: 1,
        ignored_items: vec![],
    };
    let mut config = Config::default();
    config.lint.no_bare_tags = Some(false);
    config.lint.uppercase_tag = Some(false);
    config.lint.require_colon = Some(false);
    config.lint.max_message_length = Some(5);
    let overrides = default_overrides();
    let result = run_lint(&scan, &config, &overrides, &vec![]);
    assert!(!result.passed);
    assert_eq!(result.violations[0].rule, "max_message_length");
}


#[test]
fn test_max_message_length_at_boundary() {
    let scan = ScanResult {
        items: vec![make_item("a.rs", 1, Tag::Todo, "12345")],
        files_scanned: 1,
        ignored_items: vec![],
    };
    let mut config = Config::default();
    config.lint.no_bare_tags = Some(false);
    config.lint.uppercase_tag = Some(false);
    config.lint.require_colon = Some(false);
    let overrides = LintOverrides {
        max_message_length: Some(5), // exactly equal
        ..default_overrides()
    };
    let result = run_lint(&scan, &config, &overrides, &vec![]);
    assert!(result.passed); // len == max, not > max
}


#[test]
fn test_require_author_case_insensitive_match() {
    let scan = ScanResult {
        items: vec![make_item("a.rs", 1, Tag::Todo, "no author")],
        files_scanned: 1,
        ignored_items: vec![],
    };
    let mut config = Config::default();
    config.lint.no_bare_tags = Some(false);
    config.lint.uppercase_tag = Some(false);
    config.lint.require_colon = Some(false);
    // Use lowercase "todo" in config
    let overrides = LintOverrides {
        require_author: vec!["todo".to_string()],
        ..default_overrides()
    };
    let result = run_lint(&scan, &config, &overrides, &vec![]);
    assert!(!result.passed);
    assert_eq!(result.violations[0].rule, "require_author");
}


#[test]
fn test_no_bare_tags_whitespace_only_message() {
    let scan = ScanResult {
        items: vec![make_item("a.rs", 1, Tag::Todo, "   ")],
        files_scanned: 1,
        ignored_items: vec![],
    };
    let mut config = Config::default();
    config.lint.uppercase_tag = Some(false);
    config.lint.require_colon = Some(false);
    let overrides = LintOverrides {
        no_bare_tags: true,
        ..default_overrides()
    };
    let result = run_lint(&scan, &config, &overrides, &vec![]);
    assert!(!result.passed);
    assert_eq!(result.violations[0].rule, "no_bare_tags");
}


#[test]
fn test_violations_sorted_by_file_then_line() {
    let scan = ScanResult {
        items: vec![
            make_item("b.rs", 5, Tag::Todo, ""),
            make_item("a.rs", 10, Tag::Bug, ""),
            make_item("a.rs", 2, Tag::Fixme, ""),
        ],
        files_scanned: 2,
        ignored_items: vec![],
    };
    let mut config = Config::default();
    config.lint.uppercase_tag = Some(false);
    config.lint.require_colon = Some(false);
    let overrides = LintOverrides {
        no_bare_tags: true,
        ..default_overrides()
    };
    let result = run_lint(&scan, &config, &overrides, &vec![]);
    assert_eq!(result.violations.len(), 3);
    // Should be sorted: a.rs:2, a.rs:10, b.rs:5
    assert_eq!(result.violations[0].file, "a.rs");
    assert_eq!(result.violations[0].line, 2);
    assert_eq!(result.violations[1].file, "a.rs");
    assert_eq!(result.violations[1].line, 10);
    assert_eq!(result.violations[2].file, "b.rs");
    assert_eq!(result.violations[2].line, 5);
}


#[test]
fn test_empty_scan_passes() {
    let scan = ScanResult {
        items: vec![],
        files_scanned: 0,
        ignored_items: vec![],
    };
    let config = Config::default();
    let overrides = LintOverrides {
        no_bare_tags: true,
        require_author: vec!["TODO".to_string()],
        require_issue_ref: vec!["BUG".to_string()],
        max_message_length: Some(10),
        ..default_overrides()
    };
    let result = run_lint(&scan, &config, &overrides, &vec![]);
    assert!(result.passed);
    assert_eq!(result.violation_count, 0);
    assert_eq!(result.total_items, 0);
}


#[test]
fn test_file_not_found_skips_raw_text_rules() {
    let scan = ScanResult {
        items: vec![make_item("nonexistent.rs", 1, Tag::Todo, "msg")],
        files_scanned: 1,
        ignored_items: vec![],
    };
    let mut config = Config::default();
    config.lint.no_bare_tags = Some(false);
    let overrides = LintOverrides {
        uppercase_tag: true,
        require_colon: true,
        ..default_overrides()
    };
    // File doesn't exist, so raw text checks should be silently skipped
    let result = run_lint(&scan, &config, &overrides, &vec![]);
    assert!(result.passed);
}


#[test]
fn test_no_bare_tags_suggestion_text() {
    let scan = ScanResult {
        items: vec![make_item("a.rs", 1, Tag::Fixme, "")],
        files_scanned: 1,
        ignored_items: vec![],
    };
    let mut config = Config::default();
    config.lint.uppercase_tag = Some(false);
    config.lint.require_colon = Some(false);
    let overrides = LintOverrides {
        no_bare_tags: true,
        ..default_overrides()
    };
    let result = run_lint(&scan, &config, &overrides, &vec![]);
    let suggestion = result.violations[0].suggestion.as_ref().unwrap();
    assert!(suggestion.contains("FIXME"));
    assert!(suggestion.contains("<description>"));
}

#[test]
fn violations_sorted_by_location_keep_rule_order() {
    let scan = ScanResult {
        items: vec![
            make_item("b.rs", 4, Tag::Fixme, "a rather long message"),
            make_item("a.rs", 7, Tag::Todo, "another long message"),
            make_item("a.rs", 2, Tag::Bug, "short"),
        ],
        files_scanned: 2,
        ignored_items: vec![],
    };
    let config = Config::default();
    let overrides = LintOverrides {
        max_message_length: Some(10),
        require_author: vec!["TODO".to_string(), "FIXME".to_string()],
        require_issue_ref: vec!["TODO".to_string(), "FIXME".to_string(), "BUG".to_string()],
        ..default_overrides()
    };
    let result = run_lint(&scan, &config, &overrides, &vec![]);
    let got: Vec<(&str, usize, &str)> =
        result.violations.iter().map(|v| (v.file.as_str(), v.line, v.rule.as_str())).collect();
    assert_eq!(
        got,
        vec![
            ("a.rs", 2, "require_issue_ref"),
            ("a.rs", 7, "max_message_length"),
            ("a.rs", 7, "require_author"),
            ("a.rs", 7, "require_issue_ref"),
            ("b.rs", 4, "max_message_length"),
            ("b.rs", 4, "require_author"),
            ("b.rs", 4, "require_issue_ref"),
        ]
    );
    assert_eq!(result.violation_count, 7);
}

#[test]
fn metadata_rules_report_in_rule_order_ignoring_tag_case() {
    let scan = ScanResult {
        items: vec![make_item("a.rs", 1, Tag::Todo, "abc"), make_item("a.rs", 2, Tag::Todo, "  ")],
        files_scanned: 1,
        ignored_items: vec![],
    };
    let mut config = Config::default();
    config.lint.uppercase_tag = Some(false);
    config.lint.require_colon = Some(false);
    let overrides = LintOverrides {
        max_message_length: Some(2),
        require_author: vec!["todo".to_string()],
        require_issue_ref: vec!["ToDo".to_string()],
        ..default_overrides()
    };
    let result = run_lint(&scan, &config, &overrides, &vec![]);
    let rules: Vec<(usize, &str)> = result.violations.iter().map(|v| (v.line, v.rule.as_str())).collect();
    assert_eq!(
        rules,
        vec![
            (1, "max_message_length"),
            (1, "require_author"),
            (1, "require_issue_ref"),
            (2, "no_bare_tags"),
            (2, "require_author"),
            (2, "require_issue_ref"),
        ]
    );
    assert_eq!(result.violations[0].message, "Message length (3) exceeds maximum (2)");
    assert_eq!(result.violation_count, 6);
    assert!(!result.passed);
}
