use todo_scan::model::{CheckResult, CheckViolation, DiffEntry, DiffResult, DiffStatus, Priority, ScanResult, Tag, TodoItem};
use todo_scan::output::github_actions::{format_check, format_diff, format_list};

fn sample_item(tag: Tag, message: &str) -> TodoItem {
    TodoItem {
        file: "src/main.rs".to_string(),
        line: 10,
        tag,
        message: message.to_string(),
        author: None,
        issue_ref: None,
        priority: Priority::Normal,
        deadline: None,
    }
}


#[test]
fn test_format_list_single_item() {
    let result = ScanResult {
        items: vec![sample_item(Tag::Todo, "implement feature")],
        files_scanned: 1,
        ignored_items: vec![],
    };
    let output = format_list(&result);
    assert!(output
        .contains("::warning file=src/main.rs,line=10,title=TODO::[TODO] implement feature"));
    assert!(output.contains("::notice::todox: 1 items found"));
}


#[test]
fn test_format_list_severity_mapping() {
    let result = ScanResult {
        items: vec![
            sample_item(Tag::Bug, "critical bug"),
            sample_item(Tag::Note, "a note"),
        ],
        files_scanned: 1,
        ignored_items: vec![],
    };
    let output = format_list(&result);
    assert!(output.contains("::error file=src/main.rs,line=10,title=BUG::[BUG] critical bug"));
    assert!(output.contains("::notice file=src/main.rs,line=10,title=NOTE::[NOTE] a note"));
}


#[test]
fn test_format_list_urgent_escalates_to_error() {
    let result = ScanResult {
        items: vec![TodoItem {
            file: "lib.rs".to_string(),
            line: 5,
            tag: Tag::Todo,
            message: "urgent task".to_string(),
            author: None,
            issue_ref: None,
            priority: Priority::Urgent,
            deadline: None,
        }],
        files_scanned: 1,
        ignored_items: vec![],
    };
    let output = format_list(&result);
    assert!(output.contains("::error file=lib.rs,line=5,title=TODO::[TODO] urgent task"));
}


#[test]
fn test_escape_special_characters() {
    let result = ScanResult {
        items: vec![sample_item(Tag::Todo, "fix 100% of bugs\nline2")],
        files_scanned: 1,
        ignored_items: vec![],
    };
    let output = format_list(&result);
    assert!(output.contains("fix 100%25 of bugs%0Aline2"));
}


#[test]
fn test_format_diff_added_and_removed() {
    let result = DiffResult {
        entries: vec![
            DiffEntry {
                status: DiffStatus::Added,
                item: sample_item(Tag::Fixme, "new fix"),
            },
            DiffEntry {
                status: DiffStatus::Removed,
                item: sample_item(Tag::Todo, "old task"),
            },
        ],
        added_count: 1,
        removed_count: 1,
        base_ref: "main".to_string(),
    };
    let output = format_diff(&result);
    assert!(output.contains("::error file=src/main.rs,line=10,title=FIXME::[FIXME] new fix"));
    assert!(output
        .contains("::notice file=src/main.rs,line=10,title=Removed TODO::[TODO] old task"));
    assert!(output.contains("::notice::todox diff: +1 -1"));
}


#[test]
fn github_actions_test_format_check_pass() {
    let result = CheckResult {
        passed: true,
        total: 5,
        violations: vec![],
    };
    let output = format_check(&result);
    assert!(output.contains("::notice::todox check: PASS"));
    assert!(!output.contains("::error"));
}


#[test]
fn github_actions_test_format_check_fail() {
    let result = CheckResult {
        passed: false,
        total: 10,
        violations: vec![CheckViolation {
            rule: "max".to_string(),
            message: "10 exceeds max 5".to_string(),
        }],
    };
    let output = format_check(&result);
    assert!(output.contains("::error title=max::10 exceeds max 5"));
    assert!(output.contains("::error::todox check: FAIL"));
}

#[test]
fn escaped_message_and_property_stay_on_one_line() {
    let m: String = todo_scan::output::github_actions::escape_message("a\nb\r%c:d,e").into_iter().collect();
    assert_eq!(m, "a%0Ab%0D%25c:d,e");
    let p: String = todo_scan::output::github_actions::escape_property("x:y,z\n").into_iter().collect();
    assert_eq!(p, "x%3Ay%2Cz%0A");
    assert!(!m.contains('\n') && !m.contains('\r'));
}
