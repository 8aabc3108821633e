use todo_scan::deadline::Deadline;
use todo_scan::model::{BlameEntry, BlameInfo, BlameResult, CheckResult, CheckViolation, DiffEntry, DiffResult, DiffStatus, LintResult, LintViolation, Priority, ScanResult, Tag, TodoItem};
use todo_scan::output::markdown::{escape_cell, format_blame, format_check, format_diff, format_lint, format_list};

fn sample_item(tag: Tag, message: &str) -> TodoItem {
    TodoItem {
        file: "src/main.rs".to_string(),
        line: 10,
        tag,
        message: message.to_string(),
        author: None,
        issue_ref: None,
        priority: Priority::Normal,
        deadline: None,
    }
}


#[test]
fn test_format_list_table_headers() {
    let result = ScanResult {
        items: vec![],
        files_scanned: 0,
        ignored_items: vec![],
    };
    let output = format_list(&result);
    assert!(output
        .contains("| File | Line | Tag | Priority | Message | Author | Issue | Deadline |"));
    assert!(output.contains("**0 items found**"));
}


#[test]
fn test_format_list_with_items() {
    let result = ScanResult {
        items: vec![TodoItem {
            file: "lib.rs".to_string(),
            line: 42,
            tag: Tag::Todo,
            message: "add tests".to_string(),
            author: Some("alice".to_string()),
            issue_ref: Some("#123".to_string()),
            priority: Priority::High,
            deadline: None,
        }],
        files_scanned: 1,
        ignored_items: vec![],
    };
    let output = format_list(&result);
    assert!(output.contains("| lib.rs | 42 | TODO | ! | add tests | alice | #123 |  |"));
    assert!(output.contains("**1 items found**"));
}


#[test]
fn test_escape_cell_replaces_newline_with_space() {
    assert_eq!(escape_cell("line1\nline2"), "line1 line2");
}


#[test]
fn test_escape_cell_removes_carriage_return() {
    assert_eq!(escape_cell("line1\rline2"), "line1line2");
}


#[test]
fn test_escape_cell_escapes_brackets() {
    assert_eq!(escape_cell("[link](url)"), "\\[link\\](url)");
}


#[test]
fn test_escape_cell_escapes_backtick() {
    assert_eq!(escape_cell("use `code` here"), "use \\`code\\` here");
}


#[test]
fn test_escape_cell_still_escapes_pipe() {
    assert_eq!(escape_cell("a | b"), "a \\| b");
}


#[test]
fn test_format_list_escapes_author() {
    let result = ScanResult {
        items: vec![TodoItem {
            file: "test.rs".to_string(),
            line: 1,
            tag: Tag::Todo,
            message: "task".to_string(),
            author: Some("user\ninjected".to_string()),
            issue_ref: None,
            priority: Priority::Normal,
            deadline: None,
        }],
        files_scanned: 1,
        ignored_items: vec![],
    };
    let output = format_list(&result);
    assert!(output.contains("user injected"));
    assert!(!output.contains("user\ninjected"));
}


#[test]
fn test_format_list_escapes_issue_ref() {
    let result = ScanResult {
        items: vec![TodoItem {
            file: "test.rs".to_string(),
            line: 1,
            tag: Tag::Todo,
            message: "task".to_string(),
            author: None,
            issue_ref: Some("[link](evil)".to_string()),
            priority: Priority::Normal,
            deadline: None,
        }],
        files_scanned: 1,
        ignored_items: vec![],
    };
    let output = format_list(&result);
    assert!(output.contains("\\[link\\]"));
    assert!(!output.contains("[link](evil)"));
}


#[test]
fn test_format_blame_escapes_author() {
    let result = BlameResult {
        entries: vec![BlameEntry {
            item: sample_item(Tag::Todo, "task"),
            blame: BlameInfo {
                author: "user|inject".to_string(),
                email: "user@test.com".to_string(),
                date: "2025-01-01".to_string(),
                age_days: 10,
                commit: "abc123".to_string(),
            },
            stale: false,
        }],
        total: 1,
        avg_age_days: 10,
        stale_count: 0,
        stale_threshold_days: 180,
    };
    let output = format_blame(&result);
    assert!(output.contains("user\\|inject"));
}


#[test]
fn test_format_lint_escapes_rule() {
    let result = LintResult {
        passed: false,
        total_items: 1,
        violation_count: 1,
        violations: vec![LintViolation {
            file: "test.rs".to_string(),
            line: 1,
            rule: "no`bare".to_string(),
            message: "msg".to_string(),
            suggestion: Some("use [this]".to_string()),
        }],
    };
    let output = format_lint(&result);
    assert!(output.contains("no\\`bare"));
    assert!(output.contains("\\[this\\]"));
}


#[test]
fn test_format_list_escapes_pipe() {
    let result = ScanResult {
        items: vec![sample_item(Tag::Todo, "a | b")],
        files_scanned: 1,
        ignored_items: vec![],
    };
    let output = format_list(&result);
    assert!(output.contains("a \\| b"));
}


#[test]
fn test_format_diff_table() {
    let result = DiffResult {
        entries: vec![
            DiffEntry {
                status: DiffStatus::Added,
                item: sample_item(Tag::Fixme, "new fix"),
            },
            DiffEntry {
                status: DiffStatus::Removed,
                item: sample_item(Tag::Todo, "old task"),
            },
        ],
        added_count: 1,
        removed_count: 1,
        base_ref: "main".to_string(),
    };
    let output = format_diff(&result);
    assert!(output.contains("| + | src/main.rs | 10 | FIXME | new fix |"));
    assert!(output.contains("| - | src/main.rs | 10 | TODO | old task |"));
    assert!(output.contains("**+1 -1** (base: `main`)"));
}


#[test]
fn markdown_test_format_check_pass() {
    let result = CheckResult {
        passed: true,
        total: 3,
        violations: vec![],
    };
    let output = format_check(&result);
    assert!(output.contains("## PASS"));
    assert!(output.contains("All checks passed (3 items total)."));
}


#[test]
fn markdown_test_format_check_fail() {
    let result = CheckResult {
        passed: false,
        total: 10,
        violations: vec![CheckViolation {
            rule: "max".to_string(),
            message: "10 exceeds max 5".to_string(),
        }],
    };
    let output = format_check(&result);
    assert!(output.contains("## FAIL"));
    assert!(output.contains("- **max**: 10 exceeds max 5"));
}

#[test]
fn escaped_cell_stays_in_one_cell() {
    let e = escape_cell("a|b\nc\r[d]`e`");
    assert_eq!(e, "a\\|b c\\[d\\]\\`e\\`");
    assert!(!e.contains('\n') && !e.contains('\r'));
}
