use todo_scan::model::{CheckResult, CheckViolation, CleanResult, CleanViolation, LintResult, LintViolation};
use todo_scan::output::sarif::{check_sarif, clean_sarif, lint_sarif};

fn lint_violation(rule: &str, line: usize, suggestion: Option<&str>) -> LintViolation {
    LintViolation {
        rule: rule.to_string(),
        message: format!("{} broken", rule),
        file: "src/a.rs".to_string(),
        line,
        suggestion: suggestion.map(|s| s.to_string()),
    }
}

#[test]
fn sarif_lint_passing_report_is_one_summary_note() {
    let r = LintResult { passed: true, total_items: 4, violation_count: 0, violations: vec![] };
    let run = lint_sarif(&r);
    assert_eq!(run.rules.len(), 1);
    assert_eq!(run.rules[0].id, "todox/lint/summary");
    assert_eq!(run.rules[0].description, "todox lint summary");
    assert_eq!(run.results.len(), 1);
    assert_eq!(run.results[0].rule_id, "todox/lint/summary");
    assert_eq!(run.results[0].level, "note");
    assert_eq!(run.results[0].message, "All lint checks passed (4 items)");
    assert!(run.results[0].location.is_none());
}

#[test]
fn sarif_lint_lists_distinct_rules_and_each_violation() {
    let r = LintResult {
        passed: false,
        total_items: 3,
        violation_count: 3,
        violations: vec![
            lint_violation("no_bare_tags", 1, Some("TODO: <description>")),
            lint_violation("require_colon", 2, None),
            lint_violation("no_bare_tags", 5, None),
        ],
    };
    let run = lint_sarif(&r);
    let ids: Vec<&str> = run.rules.iter().map(|x| x.id.as_str()).collect();
    assert_eq!(ids, vec!["todox/lint/no_bare_tags", "todox/lint/require_colon"]);
    assert_eq!(run.rules[1].description, "require_colon lint rule");
    assert_eq!(run.results.len(), 3);
    assert_eq!(run.results[0].rule_id, "todox/lint/no_bare_tags");
    assert_eq!(run.results[0].level, "error");
    assert_eq!(run.results[0].location, Some(("src/a.rs".to_string(), 1)));
    assert_eq!(run.results[0].fix, Some("TODO: <description>".to_string()));
    assert_eq!(run.results[1].fix, None);
    assert_eq!(run.results[2].message, "no_bare_tags broken");
}

#[test]
fn sarif_clean_carries_issue_and_duplicate_properties() {
    let r = CleanResult {
        passed: false,
        total_items: 2,
        stale_count: 1,
        duplicate_count: 1,
        violations: vec![
            CleanViolation {
                rule: "stale".to_string(),
                message: "old".to_string(),
                file: "a.rs".to_string(),
                line: 3,
                issue_ref: Some("#12".to_string()),
                duplicate_of: None,
            },
            CleanViolation {
                rule: "duplicate".to_string(),
                message: "dup".to_string(),
                file: "b.rs".to_string(),
                line: 4,
                issue_ref: None,
                duplicate_of: Some("a.rs:1".to_string()),
            },
        ],
    };
    let run = clean_sarif(&r);
    assert_eq!(run.rules.len(), 2);
    assert_eq!(run.rules[0].id, "todox/clean/stale");
    assert_eq!(run.rules[1].description, "duplicate clean rule");
    assert_eq!(run.results[0].properties, vec![("issueRef".to_string(), "#12".to_string())]);
    assert_eq!(run.results[1].properties, vec![("duplicateOf".to_string(), "a.rs:1".to_string())]);
    assert_eq!(run.results[1].location, Some(("b.rs".to_string(), 4)));

    let passing = CleanResult { passed: true, total_items: 7, stale_count: 0, duplicate_count: 0, violations: vec![] };
    let run = clean_sarif(&passing);
    assert_eq!(run.results[0].message, "All clean checks passed (7 items)");
}

#[test]
fn sarif_check_levels_follow_the_outcome() {
    let failing = CheckResult {
        passed: false,
        total: 10,
        violations: vec![
            CheckViolation { rule: "max".to_string(), message: "too many".to_string() },
            CheckViolation { rule: "max".to_string(), message: "again".to_string() },
        ],
    };
    let run = check_sarif(&failing);
    // one rule per violation, not deduplicated
    assert_eq!(run.rules.len(), 2);
    assert_eq!(run.rules[0].id, "todox/check/max");
    assert_eq!(run.rules[0].description, "max check");
    assert!(run.results.iter().all(|r| r.level == "error" && r.location.is_none()));

    let passing = CheckResult { passed: true, total: 3, violations: vec![] };
    let run = check_sarif(&passing);
    assert_eq!(run.rules[0].id, "todox/check/summary");
    assert_eq!(run.results[0].message, "All checks passed (3 items total)");
    assert_eq!(run.results[0].level, "note");
}
