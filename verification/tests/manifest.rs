use todo_scan::clean::{issue_state_from_gh_output, IssueState};
use todo_scan::manifest::{cargo_workspace_members, npm_workspace_patterns, nx_projects};

#[test]
fn cargo_members_are_the_strings_of_workspace_members() {
    let text = "[package]\nname = \"x\"\n\n[workspace]\nmembers = [\"crates/*\", \"tools/cli\", 3]\n";
    assert_eq!(
        cargo_workspace_members(text),
        Ok(Some(vec!["crates/*".to_string(), "tools/cli".to_string()]))
    );
}

#[test]
fn cargo_without_workspace_members_declares_none() {
    assert_eq!(cargo_workspace_members("[package]\nname = \"x\"\n"), Ok(None));
    assert_eq!(cargo_workspace_members("[workspace]\nresolver = \"2\"\n"), Ok(None));
    assert_eq!(cargo_workspace_members("[workspace]\nmembers = \"a\"\n"), Ok(None));
}

#[test]
fn cargo_manifest_that_does_not_parse_is_an_error() {
    assert!(cargo_workspace_members("[workspace\nmembers = [").is_err());
}

#[test]
fn npm_patterns_are_the_strings_of_workspaces() {
    assert_eq!(
        npm_workspace_patterns(r#"{"name": "root", "workspaces": ["packages/*", "apps/web"]}"#),
        Ok(Some(vec!["packages/*".to_string(), "apps/web".to_string()]))
    );
    assert_eq!(npm_workspace_patterns(r#"{"name": "root"}"#), Ok(None));
    assert_eq!(npm_workspace_patterns(r#"{"workspaces": {"packages": ["a"]}}"#), Ok(None));
    assert!(npm_workspace_patterns("{not json").is_err());
}

#[test]
fn nx_projects_are_the_string_entries_of_projects() {
    let text = r#"{"version": 2, "projects": {"app": "apps/app", "lib": {"root": "libs/lib"}, "ui": "libs/ui"}}"#;
    let mut got = nx_projects(text).unwrap().unwrap();
    got.sort();
    assert_eq!(
        got,
        vec![("app".to_string(), "apps/app".to_string()), ("ui".to_string(), "libs/ui".to_string())]
    );
    assert_eq!(nx_projects(r#"{"projects": ["a"]}"#), Ok(None));
    assert!(nx_projects("").is_err());
}

#[test]
fn gh_output_closed_issue_with_time() {
    let out = br#"{"state":"CLOSED","closedAt":"2024-01-15T10:30:00Z"}"#;
    assert_eq!(issue_state_from_gh_output(out), IssueState::Closed { closed_at: Some(1705314600) });
}

#[test]
fn gh_output_open_or_unreadable_is_open() {
    assert_eq!(issue_state_from_gh_output(br#"{"state":"OPEN","closedAt":null}"#), IssueState::Open);
    assert_eq!(issue_state_from_gh_output(b"not json"), IssueState::Open);
    assert_eq!(issue_state_from_gh_output(br#"{"state":"CLOSED"}"#), IssueState::Closed { closed_at: None });
}
