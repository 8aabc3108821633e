use todo_scan::config::Config;
use todo_scan::deadline::Deadline;
use todo_scan::model::{Priority, Tag};
use todo_scan::pattern::Pattern;
use todo_scan::scanner::{extract_issue_ref, is_in_comment, parse_paren_content, prefix_outside_quotes, scan_content};

fn default_pattern() -> Pattern {
    let config = Config::default();
    Pattern::new(&config.tags_pattern()).unwrap()
}


#[test]
fn test_extract_issue_ref_function() {
    assert_eq!(extract_issue_ref("fix #42"), Some("#42".to_string()));
    assert_eq!(
        extract_issue_ref("see PROJ-100"),
        Some("PROJ-100".to_string())
    );
    assert_eq!(extract_issue_ref("no reference here"), None);
}


#[test]
fn test_is_in_comment_double_slash() {
    assert!(is_in_comment("// TODO: test", 3));
}


#[test]
fn test_is_in_comment_hash() {
    assert!(is_in_comment("# TODO: test", 2));
}


#[test]
fn test_is_in_comment_block_start() {
    assert!(is_in_comment("/* TODO: test */", 3));
}


#[test]
fn test_is_in_comment_star_line_start() {
    assert!(is_in_comment(" * TODO: test", 3));
}


#[test]
fn test_is_in_comment_html() {
    assert!(is_in_comment("<!-- TODO: test -->", 5));
}


#[test]
fn test_is_in_comment_inline() {
    assert!(is_in_comment("let x = 1; // TODO: fix", 15));
}


#[test]
fn test_is_in_comment_false_for_code() {
    assert!(!is_in_comment("let todo_count = 0;", 4));
}


#[test]
fn test_is_in_comment_false_for_string() {
    assert!(!is_in_comment("let s = \"TODO: test\";", 9));
}


#[test]
fn test_is_in_comment_false_for_identifier() {
    assert!(!is_in_comment("TodoService::new()", 0));
}


#[test]
fn test_is_in_comment_false_for_string_with_comment_prefix() {
    // "// TODO" inside a string literal should not be detected as a comment
    assert!(!is_in_comment(r#"let s = "// TODO: test";"#, 12));
}


#[test]
fn test_is_in_comment_inline_after_code() {
    // Real inline comment after code → should match
    assert!(is_in_comment("let x = 1; // TODO: fix this", 15));
}


#[test]
fn test_is_in_comment_false_for_string_with_hash_prefix() {
    // "# TODO" inside a string literal should not be detected as a comment
    assert!(!is_in_comment(r##"let s = "# TODO: test";"##, 11));
}


#[test]
fn test_is_in_comment_quoted_prefix_then_real_comment() {
    // "//"; // TODO — quoted prefix then real comment → should match
    assert!(is_in_comment(r#""//"; // TODO: fix"#, 10));
}


#[test]
fn test_is_in_comment_false_for_string_with_block_comment_prefix() {
    // "/* TODO" inside a string literal should not be detected as a comment
    assert!(!is_in_comment(r#"let s = "/* TODO: test";"#, 12));
}


#[test]
fn test_parse_paren_author_only() {
    let (author, deadline) = parse_paren_content("alice");
    assert_eq!(author.as_deref(), Some("alice"));
    assert!(deadline.is_none());
}


#[test]
fn test_parse_paren_date_only() {
    let (author, deadline) = parse_paren_content("2025-06-01");
    assert!(author.is_none());
    let d = deadline.unwrap();
    assert_eq!(d.year, 2025);
    assert_eq!(d.month, 6);
    assert_eq!(d.day, 1);
}


#[test]
fn test_parse_paren_author_and_date() {
    let (author, deadline) = parse_paren_content("alice, 2025-06-01");
    assert_eq!(author.as_deref(), Some("alice"));
    let d = deadline.unwrap();
    assert_eq!(d.year, 2025);
    assert_eq!(d.month, 6);
    assert_eq!(d.day, 1);
}


#[test]
fn test_parse_paren_quarter_format() {
    let (author, deadline) = parse_paren_content("2025-Q2");
    assert!(author.is_none());
    let d = deadline.unwrap();
    assert_eq!(d.year, 2025);
    assert_eq!(d.month, 6);
    assert_eq!(d.day, 30);
}


#[test]
fn test_parse_paren_author_and_quarter() {
    let (author, deadline) = parse_paren_content("bob, 2025-Q3");
    assert_eq!(author.as_deref(), Some("bob"));
    let d = deadline.unwrap();
    assert_eq!(d.year, 2025);
    assert_eq!(d.month, 9);
    assert_eq!(d.day, 30);
}


#[test]
fn test_parse_paren_empty() {
    let (author, deadline) = parse_paren_content("");
    assert!(author.is_none());
    assert!(deadline.is_none());
}


#[test]
fn test_parse_paren_comma_empty_left_with_date_right() {
    // ", 2025-06-01" → (None, Some(deadline))
    let (author, deadline) = parse_paren_content(", 2025-06-01");
    assert!(author.is_none(), "empty left side should yield no author");
    let d = deadline.unwrap();
    assert_eq!(d.year, 2025);
    assert_eq!(d.month, 6);
    assert_eq!(d.day, 1);
}


#[test]
fn test_parse_paren_comma_empty_right() {
    // "alice, " → author only, no deadline (right side is empty, not a date)
    let (author, deadline) = parse_paren_content("alice, ");
    // The right side is empty, so neither side is a date.
    // Since left is not a date and right is not a date, whole string is treated as author.
    // Actually let's trace the code: left="alice", right="" (trimmed).
    // parse_deadline("") → None. parse_deadline("alice") → None.
    // Falls through to: return (Some(s.to_string()), None) where s = "alice,"
    // Wait, s is the original trimmed string. Let me re-check.
    // s = "alice, " → trimmed = "alice,". Actually trim() of "alice, " = "alice,".
    // No wait: "alice, ".trim() = "alice," — that has a comma at index 5.
    // left = "alice,"[..5].trim() = "alice", right = "alice,"[6..].trim() = ""
    // Hmm, let me re-read: s = "alice, ".trim() → "alice,".
    // idx = s.find(',') → Some(5). left = s[..5].trim() = "alice". right = s[6..].trim() = "".
    // parse_deadline("") → None. parse_deadline("alice") → None.
    // Falls to: (Some(s.to_string()), None) where s = "alice,".
    assert!(deadline.is_none());
    assert!(author.is_some());
    // Author is the whole trimmed string (including trailing comma)
    assert_eq!(author.unwrap(), "alice,");
}


#[test]
fn test_parse_paren_comma_neither_side_is_date() {
    // "alice, bob" → (Some("alice, bob"), None)
    let (author, deadline) = parse_paren_content("alice, bob");
    assert!(deadline.is_none());
    assert_eq!(
        author.as_deref(),
        Some("alice, bob"),
        "when neither side is a date, whole string becomes author"
    );
}


#[test]
fn test_parse_paren_date_on_left_side() {
    // "2025-06-01, alice" → (Some("alice"), Some(deadline))
    let (author, deadline) = parse_paren_content("2025-06-01, alice");
    assert_eq!(
        author.as_deref(),
        Some("alice"),
        "author should be parsed from right side"
    );
    let d = deadline.unwrap();
    assert_eq!(d.year, 2025);
    assert_eq!(d.month, 6);
    assert_eq!(d.day, 1);
}


#[test]
fn test_parse_paren_whitespace_only() {
    // "   " → (None, None) because trimmed is empty
    let (author, deadline) = parse_paren_content("   ");
    assert!(author.is_none());
    assert!(deadline.is_none());
}


#[test]
fn test_extract_issue_ref_no_reference() {
    assert_eq!(extract_issue_ref("just a plain message"), None);
}


#[test]
fn test_extract_issue_ref_both_jira_and_hash() {
    // When both JIRA-style and hash-style refs are present,
    // the regex should return the first match.
    let result = extract_issue_ref("fix PROJ-42 and also #99");
    // JIRA pattern matches first because the regex alternation tries JIRA first
    assert_eq!(result, Some("PROJ-42".to_string()));
}


#[test]
fn test_extract_issue_ref_hash_only() {
    assert_eq!(extract_issue_ref("see #7"), Some("#7".to_string()));
}


#[test]
fn test_extract_issue_ref_jira_only() {
    assert_eq!(
        extract_issue_ref("relates to ABC-1234"),
        Some("ABC-1234".to_string())
    );
}


#[test]
fn test_extract_issue_ref_empty_string() {
    assert_eq!(extract_issue_ref(""), None);
}


#[test]
fn test_prefix_outside_quotes_no_quotes() {
    // No quotes before position → even count (0) → true (outside)
    assert!(prefix_outside_quotes("// TODO: test", 3));
}


#[test]
fn test_prefix_outside_quotes_inside_one_quote() {
    // One quote before position → odd count → false (inside)
    assert!(!prefix_outside_quotes(r#""// TODO: test"#, 4));
}


#[test]
fn test_prefix_outside_quotes_after_two_quotes() {
    // Two quotes before position → even count → true (outside)
    assert!(prefix_outside_quotes(r#""x" // TODO: test"#, 4));
}


#[test]
fn test_prefix_outside_quotes_at_start() {
    // Position 0 → no chars before → even (0) → true
    assert!(prefix_outside_quotes("TODO: test", 0));
}


#[test]
fn test_prefix_outside_quotes_nested_quotes() {
    // Three quotes before → odd → false (inside)
    assert!(!prefix_outside_quotes(r#""a" "// TODO"#, 5));
}


#[test]
fn test_is_in_comment_star_at_line_start_with_whitespace() {
    // "   * TODO: test" — star at start after whitespace (Javadoc-style)
    assert!(is_in_comment("   * TODO: test", 5));
}


#[test]
fn test_is_in_comment_star_not_at_line_start() {
    // "x * TODO: test" — star NOT at start of line (after non-whitespace)
    assert!(!is_in_comment("x * TODO: test", 4));
}


#[test]
fn test_is_in_comment_star_at_line_start_no_whitespace() {
    // "* TODO: test" — star right at position 0
    assert!(is_in_comment("* TODO: test", 2));
}


#[test]
fn test_is_in_comment_star_in_string_literal() {
    // \" * TODO: test\" — star preceded by quote (inside string)
    // The star is at the line start after trim, but the leading_ws prefix
    // is inside quotes, so prefix_outside_quotes returns false
    assert!(!is_in_comment("\" * TODO: test\"", 5));
}


#[test]
fn test_is_in_comment_tab_then_star() {
    // Tab + star is a line-start prefix pattern
    assert!(is_in_comment("\t* TODO: test", 3));
}


#[test]
fn test_is_in_comment_semicolon_prefix() {
    assert!(is_in_comment("; TODO: test", 2));
}


#[test]
fn test_is_in_comment_double_dash() {
    assert!(is_in_comment("-- TODO: test", 3));
}


#[test]
fn test_is_in_comment_no_comment_prefix_at_all() {
    assert!(!is_in_comment("TODO: test", 0));
}


#[test]
fn test_basic_todo_detection() {
    let pattern = default_pattern();
    let content = "// TODO: implement this feature\n";
    let result = scan_content(content, "test.rs", &pattern);

    assert_eq!(result.items.len(), 1);
    assert_eq!(result.items[0].tag, Tag::Todo);
    assert_eq!(result.items[0].message, "implement this feature");
    assert_eq!(result.items[0].file, "test.rs");
    assert_eq!(result.items[0].line, 1);
    assert_eq!(result.items[0].priority, Priority::Normal);
    assert!(result.items[0].author.is_none());
}

#[test]
fn test_fixme_with_author() {
    let pattern = default_pattern();
    let content = "// FIXME(alice): broken parsing logic\n";
    let result = scan_content(content, "lib.rs", &pattern);

    assert_eq!(result.items.len(), 1);
    assert_eq!(result.items[0].tag, Tag::Fixme);
    assert_eq!(result.items[0].author.as_deref(), Some("alice"));
    assert_eq!(result.items[0].message, "broken parsing logic");
}

#[test]
fn test_priority_high() {
    let pattern = default_pattern();
    let content = "# TODO: ! fix memory leak\n";
    let result = scan_content(content, "main.py", &pattern);

    assert_eq!(result.items.len(), 1);
    assert_eq!(result.items[0].priority, Priority::High);
}

#[test]
fn test_priority_urgent() {
    let pattern = default_pattern();
    let content = "// BUG: !! crashes on empty input\n";
    let result = scan_content(content, "app.rs", &pattern);

    assert_eq!(result.items.len(), 1);
    assert_eq!(result.items[0].tag, Tag::Bug);
    assert_eq!(result.items[0].priority, Priority::Urgent);
}

#[test]
fn test_issue_ref_hash() {
    let pattern = default_pattern();
    let content = "// TODO: fix layout issue #123\n";
    let result = scan_content(content, "ui.rs", &pattern);

    assert_eq!(result.items.len(), 1);
    assert_eq!(result.items[0].issue_ref.as_deref(), Some("#123"));
}

#[test]
fn test_issue_ref_jira() {
    let pattern = default_pattern();
    let content = "// FIXME: address JIRA-456 regression\n";
    let result = scan_content(content, "api.rs", &pattern);

    assert_eq!(result.items.len(), 1);
    assert_eq!(result.items[0].issue_ref.as_deref(), Some("JIRA-456"));
}

#[test]
fn test_case_insensitivity() {
    let pattern = default_pattern();
    let content = "// todo: lowercase tag\n// Todo: mixed case\n// TODO: uppercase\n";
    let result = scan_content(content, "test.rs", &pattern);

    assert_eq!(result.items.len(), 3);
    for item in &result.items {
        assert_eq!(item.tag, Tag::Todo);
    }
}

#[test]
fn test_multiple_tags_in_content() {
    let pattern = default_pattern();
    let content = "\
// TODO: first task
fn foo() {}
// FIXME(bob): second task
// HACK: workaround for upstream bug
// NOTE: remember to update docs
";
    let result = scan_content(content, "multi.rs", &pattern);

    assert_eq!(result.items.len(), 4);
    assert_eq!(result.items[0].tag, Tag::Todo);
    assert_eq!(result.items[1].tag, Tag::Fixme);
    assert_eq!(result.items[1].author.as_deref(), Some("bob"));
    assert_eq!(result.items[2].tag, Tag::Hack);
    assert_eq!(result.items[3].tag, Tag::Note);
}

#[test]
fn test_line_numbers_are_correct() {
    let pattern = default_pattern();
    let content = "\
line one
// TODO: on line two
line three
line four
// FIXME: on line five
";
    let result = scan_content(content, "lines.rs", &pattern);

    assert_eq!(result.items.len(), 2);
    assert_eq!(result.items[0].line, 2);
    assert_eq!(result.items[1].line, 5);
}

#[test]
fn test_xxx_tag() {
    let pattern = default_pattern();
    let content = "// XXX: dangerous code path\n";
    let result = scan_content(content, "danger.rs", &pattern);

    assert_eq!(result.items.len(), 1);
    assert_eq!(result.items[0].tag, Tag::Xxx);
}

#[test]
fn test_no_match_on_plain_text() {
    let pattern = default_pattern();
    let content = "This is just a regular comment with no tags.\n";
    let result = scan_content(content, "plain.rs", &pattern);

    assert!(result.items.is_empty());
}

#[test]
fn test_author_with_special_chars() {
    let pattern = default_pattern();
    let content = "// TODO(user@domain.com): email-style author\n";
    let result = scan_content(content, "test.rs", &pattern);

    assert_eq!(result.items.len(), 1);
    assert_eq!(result.items[0].author.as_deref(), Some("user@domain.com"));
}

#[test]
fn test_no_match_in_identifier() {
    let pattern = default_pattern();
    let content = "let service = TodoService::new();\n";
    let result = scan_content(content, "test.rs", &pattern);
    assert!(
        result.items.is_empty(),
        "should not match TODO inside identifier"
    );
}

#[test]
fn test_no_match_in_camel_case() {
    let pattern = default_pattern();
    let content = "if isTodoCompleted() { return; }\n";
    let result = scan_content(content, "test.rs", &pattern);
    assert!(
        result.items.is_empty(),
        "should not match Todo in camelCase"
    );
}

#[test]
fn test_no_match_in_string_literal() {
    let pattern = default_pattern();
    let content = "let msg = \"TODO: not a real comment\";\n";
    let result = scan_content(content, "test.rs", &pattern);
    assert!(
        result.items.is_empty(),
        "should not match TODO inside string literal"
    );
}

#[test]
fn test_no_match_in_plain_code() {
    let pattern = default_pattern();
    let content = "let todo_count = get_todos().len();\n";
    let result = scan_content(content, "test.rs", &pattern);
    assert!(
        result.items.is_empty(),
        "should not match todo in variable name"
    );
}

#[test]
fn test_no_match_enum_variant() {
    let pattern = default_pattern();
    let content = "enum State { Todo, InProgress, Done }\n";
    let result = scan_content(content, "test.rs", &pattern);
    assert!(
        result.items.is_empty(),
        "should not match Todo enum variant"
    );
}

#[test]
fn test_no_match_struct_name() {
    let pattern = default_pattern();
    let content = "struct TodoItem { title: String }\n";
    let result = scan_content(content, "test.rs", &pattern);
    assert!(
        result.items.is_empty(),
        "should not match Todo in struct name"
    );
}

#[test]
fn test_no_match_comment_prefix_in_string_literal() {
    let pattern = default_pattern();
    let content = r#"let s = "// TODO: not real";"#;
    let result = scan_content(content, "test.rs", &pattern);
    assert!(
        result.items.is_empty(),
        "should not match TODO when // is inside a string literal"
    );
}

#[test]
fn test_no_match_hash_prefix_in_string_literal() {
    let pattern = default_pattern();
    let content = r##"let s = "# TODO: not real";"##;
    let result = scan_content(content, "test.py", &pattern);
    assert!(
        result.items.is_empty(),
        "should not match TODO when # is inside a string literal"
    );
}

#[test]
fn test_match_real_comment_after_quoted_prefix() {
    let pattern = default_pattern();
    let content = r#""//"; // TODO: fix this"#;
    let result = scan_content(content, "test.rs", &pattern);
    assert_eq!(
        result.items.len(),
        1,
        "should match the real comment after quoted prefix"
    );
    assert_eq!(result.items[0].message, "fix this");
}

#[test]
fn test_comment_double_slash() {
    let pattern = default_pattern();
    let content = "// TODO: rust/js/c++ style comment\n";
    let result = scan_content(content, "test.rs", &pattern);
    assert_eq!(result.items.len(), 1);
}

#[test]
fn test_comment_hash() {
    let pattern = default_pattern();
    let content = "# TODO: python/ruby/shell style comment\n";
    let result = scan_content(content, "test.py", &pattern);
    assert_eq!(result.items.len(), 1);
}

#[test]
fn test_comment_block_start() {
    let pattern = default_pattern();
    let content = "/* TODO: c-style block comment */\n";
    let result = scan_content(content, "test.c", &pattern);
    assert_eq!(result.items.len(), 1);
}

#[test]
fn test_comment_block_middle_star() {
    let pattern = default_pattern();
    let content = " * TODO: middle of block comment\n";
    let result = scan_content(content, "test.java", &pattern);
    assert_eq!(result.items.len(), 1);
}

#[test]
fn test_comment_double_dash() {
    let pattern = default_pattern();
    let content = "-- TODO: sql/haskell style comment\n";
    let result = scan_content(content, "test.sql", &pattern);
    assert_eq!(result.items.len(), 1);
}

#[test]
fn test_comment_percent() {
    let pattern = default_pattern();
    let content = "% TODO: latex/erlang style comment\n";
    let result = scan_content(content, "test.erl", &pattern);
    assert_eq!(result.items.len(), 1);
}

#[test]
fn test_comment_html() {
    let pattern = default_pattern();
    let content = "<!-- TODO: html comment -->\n";
    let result = scan_content(content, "test.html", &pattern);
    assert_eq!(result.items.len(), 1);
}

#[test]
fn test_comment_semicolon() {
    let pattern = default_pattern();
    let content = "; TODO: lisp/asm style comment\n";
    let result = scan_content(content, "test.lisp", &pattern);
    assert_eq!(result.items.len(), 1);
}

#[test]
fn test_comment_ocaml_paren_star() {
    let pattern = default_pattern();
    let content = "(* TODO: ocaml/pascal style comment *)\n";
    let result = scan_content(content, "test.ml", &pattern);
    assert_eq!(result.items.len(), 1);
}

#[test]
fn test_comment_haskell_brace_dash() {
    let pattern = default_pattern();
    let content = "{- TODO: haskell block comment -}\n";
    let result = scan_content(content, "test.hs", &pattern);
    assert_eq!(result.items.len(), 1);
}

#[test]
fn test_indented_comment() {
    let pattern = default_pattern();
    let content = "    // TODO: indented with spaces\n\t# FIXME: indented with tab\n";
    let result = scan_content(content, "test.rs", &pattern);
    assert_eq!(result.items.len(), 2);
}

#[test]
fn test_inline_comment() {
    let pattern = default_pattern();
    let content = "let x = 42; // TODO: fix this value\n";
    let result = scan_content(content, "test.rs", &pattern);
    assert_eq!(result.items.len(), 1);
    assert_eq!(result.items[0].message, "fix this value");
}

#[test]
fn test_scan_todo_with_date() {
    let pattern = default_pattern();
    let content = "// TODO(2025-06-01): finish this by June\n";
    let result = scan_content(content, "test.rs", &pattern);

    assert_eq!(result.items.len(), 1);
    assert_eq!(result.items[0].tag, Tag::Todo);
    assert!(result.items[0].author.is_none());
    let d = result.items[0].deadline.unwrap();
    assert_eq!(d.year, 2025);
    assert_eq!(d.month, 6);
    assert_eq!(d.day, 1);
    assert_eq!(result.items[0].message, "finish this by June");
}

#[test]
fn test_scan_todo_with_author_and_date() {
    let pattern = default_pattern();
    let content = "// TODO(alice, 2025-06-01): finish this\n";
    let result = scan_content(content, "test.rs", &pattern);

    assert_eq!(result.items.len(), 1);
    assert_eq!(result.items[0].author.as_deref(), Some("alice"));
    let d = result.items[0].deadline.unwrap();
    assert_eq!(d.year, 2025);
    assert_eq!(d.month, 6);
    assert_eq!(d.day, 1);
}

#[test]
fn test_scan_todo_with_quarter() {
    let pattern = default_pattern();
    let content = "// TODO(2025-Q4): year-end cleanup\n";
    let result = scan_content(content, "test.rs", &pattern);

    assert_eq!(result.items.len(), 1);
    assert!(result.items[0].author.is_none());
    let d = result.items[0].deadline.unwrap();
    assert_eq!(d.year, 2025);
    assert_eq!(d.month, 12);
    assert_eq!(d.day, 31);
}

#[test]
fn test_scan_todo_author_only_still_works() {
    let pattern = default_pattern();
    let content = "// TODO(bob): no date here\n";
    let result = scan_content(content, "test.rs", &pattern);

    assert_eq!(result.items.len(), 1);
    assert_eq!(result.items[0].author.as_deref(), Some("bob"));
    assert!(result.items[0].deadline.is_none());
}

#[test]
fn test_scan_todo_no_parens_no_deadline() {
    let pattern = default_pattern();
    let content = "// TODO: plain task\n";
    let result = scan_content(content, "test.rs", &pattern);

    assert_eq!(result.items.len(), 1);
    assert!(result.items[0].author.is_none());
    assert!(result.items[0].deadline.is_none());
}

#[test]
fn test_no_match_todox_in_comment() {
    let pattern = default_pattern();
    let content = "// todox report generates HTML\n";
    let result = scan_content(content, "test.rs", &pattern);
    assert!(
        result.items.is_empty(),
        "should not match TODO as prefix of 'todox'"
    );
}

#[test]
fn test_no_match_todo_scan_in_comment() {
    let pattern = default_pattern();
    let content = "// todo-scan report generates HTML\n";
    let result = scan_content(content, "test.rs", &pattern);
    assert!(
        result.items.is_empty(),
        "should not match TODO as prefix of 'todo-scan'"
    );
}

#[test]
fn test_no_match_todos_in_comment() {
    let pattern = default_pattern();
    let content = "// TODOS remaining in the backlog\n";
    let result = scan_content(content, "test.rs", &pattern);
    assert!(
        result.items.is_empty(),
        "should not match TODO as prefix of 'TODOS'"
    );
}

#[test]
fn test_no_match_noted_in_comment() {
    let pattern = default_pattern();
    let content = "# NOTEd this for future reference\n";
    let result = scan_content(content, "test.rs", &pattern);
    assert!(
        result.items.is_empty(),
        "should not match NOTE as prefix of 'NOTEd'"
    );
}

#[test]
fn test_no_match_fixme_suffix_in_comment() {
    let pattern = default_pattern();
    let content = "// FIXMEd the issue yesterday\n";
    let result = scan_content(content, "test.rs", &pattern);
    assert!(
        result.items.is_empty(),
        "should not match FIXME as prefix of 'FIXMEd'"
    );
}

#[test]
fn test_still_matches_todo_colon() {
    let pattern = default_pattern();
    let content = "// TODO: fix this\n";
    let result = scan_content(content, "test.rs", &pattern);
    assert_eq!(result.items.len(), 1, "TODO: should still match");
}

#[test]
fn test_still_matches_todo_paren() {
    let pattern = default_pattern();
    let content = "// TODO(alice): fix this\n";
    let result = scan_content(content, "test.rs", &pattern);
    assert_eq!(result.items.len(), 1, "TODO(author) should still match");
}

#[test]
fn test_still_matches_todo_space() {
    let pattern = default_pattern();
    let content = "// TODO fix this\n";
    let result = scan_content(content, "test.rs", &pattern);
    assert_eq!(
        result.items.len(),
        1,
        "TODO followed by space should still match"
    );
}

#[test]
fn test_still_matches_todo_bang() {
    let pattern = default_pattern();
    let content = "// TODO! fix this\n";
    let result = scan_content(content, "test.rs", &pattern);
    assert_eq!(result.items.len(), 1, "TODO! should still match");
}

#[test]
fn test_ignore_inline_suppresses_item() {
    let pattern = default_pattern();
    let content = "// TODO: keep this\n// TODO: suppress this todo-scan:ignore\n";
    let result = scan_content(content, "test.rs", &pattern);

    assert_eq!(result.items.len(), 1);
    assert_eq!(result.items[0].message, "keep this");
    assert_eq!(result.ignored_items.len(), 1);
    assert_eq!(result.ignored_items[0].message, "suppress this");
}

#[test]
fn test_ignore_next_line_suppresses_following_item() {
    let pattern = default_pattern();
    let content = "// todo-scan:ignore-next-line\n// TODO: suppressed by next-line\n// TODO: not suppressed\n";
    let result = scan_content(content, "test.rs", &pattern);

    assert_eq!(result.items.len(), 1);
    assert_eq!(result.items[0].message, "not suppressed");
    assert_eq!(result.ignored_items.len(), 1);
    assert_eq!(result.ignored_items[0].message, "suppressed by next-line");
}

#[test]
fn test_ignore_next_line_only_affects_immediate_next() {
    let pattern = default_pattern();
    let content =
        "// todo-scan:ignore-next-line\n// TODO: suppressed\n// TODO: not suppressed\n";
    let result = scan_content(content, "test.rs", &pattern);

    assert_eq!(result.items.len(), 1);
    assert_eq!(result.items[0].message, "not suppressed");
    assert_eq!(result.ignored_items.len(), 1);
}

#[test]
fn test_ignore_next_line_blank_line_between_does_not_suppress() {
    let pattern = default_pattern();
    let content = "// todo-scan:ignore-next-line\n\n// TODO: should not be suppressed\n";
    let result = scan_content(content, "test.rs", &pattern);

    assert_eq!(result.items.len(), 1);
    assert_eq!(result.items[0].message, "should not be suppressed");
    assert!(result.ignored_items.is_empty());
}

#[test]
fn test_ignore_mixed_items() {
    let pattern = default_pattern();
    let content = "\
// TODO: normal item
// todo-scan:ignore-next-line
// FIXME: suppressed fixme
// HACK: normal hack
// BUG: suppressed bug todo-scan:ignore
";
    let result = scan_content(content, "test.rs", &pattern);

    assert_eq!(result.items.len(), 2);
    assert_eq!(result.items[0].message, "normal item");
    assert_eq!(result.items[1].message, "normal hack");

    assert_eq!(result.ignored_items.len(), 2);
    assert_eq!(result.ignored_items[0].message, "suppressed fixme");
    assert_eq!(result.ignored_items[1].message, "suppressed bug");
}

#[test]
fn test_ignore_no_items_affected_when_no_markers() {
    let pattern = default_pattern();
    let content = "// TODO: first\n// FIXME: second\n";
    let result = scan_content(content, "test.rs", &pattern);

    assert_eq!(result.items.len(), 2);
    assert!(result.ignored_items.is_empty());
}

#[test]
fn test_ignore_strips_marker_from_message() {
    let pattern = default_pattern();
    let content = "// TODO: fix this todo-scan:ignore\n";
    let result = scan_content(content, "test.rs", &pattern);

    assert_eq!(result.ignored_items.len(), 1);
    assert_eq!(result.ignored_items[0].message, "fix this");
}
