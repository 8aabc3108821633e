use todo_scan::config::Config;


#[test]
fn test_workspace_config_default() {
    let config = Config::default();
    assert_eq!(config.workspace.auto_detect, None);
    assert!(config.workspace.packages.is_empty());
}


#[test]
fn test_default_config_has_all_expected_fields() {
    let config = Config::default();
    assert_eq!(
        config.tags,
        vec!["TODO", "FIXME", "HACK", "XXX", "BUG", "NOTE"]
    );
    assert!(config.exclude_dirs.is_empty());
    assert!(config.exclude_patterns.is_empty());
    assert!(config.check.max.is_none());
    assert!(config.check.max_new.is_none());
    assert!(config.check.block_tags.is_empty());
    assert!(config.check.expired.is_none());
    assert!(config.blame.stale_threshold.is_none());
    assert!(config.lint.no_bare_tags.is_none());
    assert!(config.lint.max_message_length.is_none());
    assert!(config.lint.require_author.is_none());
    assert!(config.lint.require_issue_ref.is_none());
    assert!(config.lint.uppercase_tag.is_none());
    assert!(config.lint.require_colon.is_none());
    assert!(config.clean.stale_issues.is_none());
    assert!(config.clean.duplicates.is_none());
    assert!(config.clean.since.is_none());
}


#[test]
fn test_default_config_tags_pattern() {
    let config = Config::default();
    let pattern = config.tags_pattern();
    assert!(pattern.contains("TODO"));
    assert!(pattern.contains("FIXME"));
    assert!(pattern.contains("HACK"));
}

#[test]
fn test_tags_pattern_escapes_regex_metacharacters() {
    let config = Config {
        tags: vec!["TODO".into(), "FIX.*".into()],
        ..Config::default()
    };
    let pattern = config.tags_pattern();
    // The .* should be escaped, not treated as regex wildcard
    assert!(pattern.contains(r"FIX\.\*"));
    // Should compile successfully
    let re = regex::Regex::new(&pattern);
    assert!(re.is_ok());
}

#[test]
fn test_tags_pattern_escapes_parentheses() {
    let config = Config {
        tags: vec!["TAG(x)".into()],
        ..Config::default()
    };
    let pattern = config.tags_pattern();
    // Should compile without "unmatched group" error
    let re = regex::Regex::new(&pattern);
    assert!(re.is_ok(), "Regex with escaped parens should compile");
}

#[test]
fn test_tags_pattern_escapes_pipe_literal() {
    let config = Config {
        tags: vec!["A|B".into()],
        ..Config::default()
    };
    let pattern = config.tags_pattern();
    // The pipe should be escaped, not treated as alternation
    assert!(pattern.contains(r"A\|B"));
    let re = regex::Regex::new(&pattern).unwrap();
    // Should NOT match "A" alone (which would happen if | was alternation)
    assert!(!re.is_match("// A: test"));
}

#[test]
fn test_tags_pattern_default_tags_unaffected() {
    let config = Config::default();
    let pattern = config.tags_pattern();
    let re = regex::Regex::new(&pattern).unwrap();
    // Default tags should still match
    assert!(re.is_match("// TODO: test"));
    assert!(re.is_match("// FIXME: test"));
    assert!(re.is_match("// HACK: test"));
}
