use std::str::FromStr;
use todo_scan::cli::{omitted_item_fields, shows_match_key, DetailLevel};
use todo_scan::model::WorkspaceKind;


#[test]
fn workspace_kind_display() {
    assert_eq!(WorkspaceKind::Cargo.to_string(), "cargo");
    assert_eq!(WorkspaceKind::Npm.to_string(), "npm");
    assert_eq!(WorkspaceKind::Pnpm.to_string(), "pnpm");
    assert_eq!(WorkspaceKind::Nx.to_string(), "nx");
    assert_eq!(WorkspaceKind::GoWork.to_string(), "go");
    assert_eq!(WorkspaceKind::Manual.to_string(), "manual");
}

#[test]
fn tag_parses_from_text_ignoring_case() {
    assert_eq!(todo_scan::model::Tag::from_str("fixme"), Ok(todo_scan::model::Tag::Fixme));
    assert_eq!("Note".parse::<todo_scan::model::Tag>(), Ok(todo_scan::model::Tag::Note));
    assert_eq!(todo_scan::model::Tag::from_str("later"), Err(()));
}

#[test]
fn test_inject_id_field_basic() {
    assert_eq!(todo_scan::model::id_text("src/main.rs", "TODO", "Fix this bug"), "src/main.rs:TODO:fix this bug");
}

#[test]
fn test_inject_id_field_lowercases_message() {
    assert_eq!(
        todo_scan::model::id_text("lib.rs", "FIXME", "Uppercase Message HERE"),
        "lib.rs:FIXME:uppercase message here"
    );
}

#[test]
fn test_inject_id_field_trims_message() {
    assert_eq!(todo_scan::model::id_text("lib.rs", "TODO", "  spaces around  "), "lib.rs:TODO:spaces around");
}

#[test]
fn test_inject_id_field_missing_fields_uses_defaults() {
    assert_eq!(todo_scan::model::id_text("", "", ""), "::");
}

#[test]
fn test_inject_id_field_with_partial_fields() {
    // Only file and tag present, no message
    assert_eq!(todo_scan::model::id_text("test.rs", "BUG", ""), "test.rs:BUG:");
}

#[test]
fn test_inject_id_field_special_chars_in_file() {
    assert_eq!(
        todo_scan::model::id_text("path/to/my file (1).rs", "TODO", "fix it"),
        "path/to/my file (1).rs:TODO:fix it"
    );
}

#[test]
fn test_inject_id_field_special_chars_in_message() {
    assert_eq!(
        todo_scan::model::id_text("src/main.rs", "FIXME", "Handle <script>alert('xss')</script>"),
        "src/main.rs:FIXME:handle <script>alert('xss')</script>"
    );
}

#[test]
fn test_inject_id_field_unicode_in_message() {
    let id = todo_scan::model::id_text("src/i18n.rs", "TODO", "Support \u{00e9}l\u{00e8}ve names");
    assert!(id.starts_with("src/i18n.rs:TODO:"));
    assert!(id.contains("support"));
}

#[test]
fn test_inject_id_field_colons_in_fields() {
    assert_eq!(
        todo_scan::model::id_text("C:\\Users\\dev\\file.rs", "BUG", "error: something: else"),
        "C:\\Users\\dev\\file.rs:BUG:error: something: else"
    );
}

#[test]
fn test_inject_id_field_empty_message() {
    assert_eq!(todo_scan::model::id_text("x.rs", "HACK", ""), "x.rs:HACK:");
}

#[test]
fn test_inject_id_field_message_with_whitespace_only() {
    // trim() on whitespace-only gives empty string; lowercase of empty is empty
    assert_eq!(todo_scan::model::id_text("x.rs", "TODO", "   \t  "), "x.rs:TODO:");
}

#[test]
fn item_id_matches_the_id_text_of_its_fields() {
    let item = todo_scan::model::TodoItem {
        file: "a.rs".to_string(),
        line: 7,
        tag: todo_scan::model::Tag::Bug,
        message: " Crash ".to_string(),
        author: None,
        issue_ref: None,
        priority: todo_scan::model::Priority::Normal,
        deadline: None,
    };
    assert_eq!(item.id(), "a.rs:BUG:crash");
}

#[test]
fn tag_name_reads_back_as_the_same_tag() {
    use_tags_roundtrip();
}

fn use_tags_roundtrip() {
    let tags = [
        todo_scan::model::Tag::Todo,
        todo_scan::model::Tag::Fixme,
        todo_scan::model::Tag::Hack,
        todo_scan::model::Tag::Xxx,
        todo_scan::model::Tag::Bug,
        todo_scan::model::Tag::Note,
    ];
    for t in tags {
        assert_eq!(todo_scan::model::Tag::from_str(t.as_str()), Ok(t));
    }
}

#[test]
fn detail_levels_choose_listed_fields() {
    assert_eq!(omitted_item_fields(DetailLevel::Minimal), vec!["author", "issue_ref", "priority", "deadline"]);
    assert!(omitted_item_fields(DetailLevel::Normal).is_empty());
    assert!(omitted_item_fields(DetailLevel::Full).is_empty());
    assert!(shows_match_key(DetailLevel::Full));
    assert!(!shows_match_key(DetailLevel::Normal));
}
