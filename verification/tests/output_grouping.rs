use todo_scan::cli::GroupBy;
use todo_scan::model::{LintViolation, Priority, Tag, TodoItem};
use todo_scan::output::{bar, group_items, group_key, sanitize_for_terminal};

fn make_item(file: &str, line: usize, tag: Tag, msg: &str, priority: Priority) -> TodoItem {
    TodoItem {
        file: file.to_string(),
        line,
        tag,
        message: msg.to_string(),
        author: None,
        issue_ref: None,
        priority,
        deadline: None,
    }
}

fn make_item_with_author(
    file: &str,
    line: usize,
    tag: Tag,
    msg: &str,
    priority: Priority,
    author: Option<&str>,
) -> TodoItem {
    TodoItem {
        file: file.to_string(),
        line,
        tag,
        message: msg.to_string(),
        author: author.map(|a| a.to_string()),
        issue_ref: None,
        priority,
        deadline: None,
    }
}


#[test]
fn test_sanitize_strips_ansi_escape() {
    assert_eq!(
        sanitize_for_terminal("hello\x1b[31mworld"),
        "hello[31mworld"
    );
}

#[test]
fn test_sanitize_strips_null_bytes() {
    assert_eq!(sanitize_for_terminal("hello\x00world"), "helloworld");
}

#[test]
fn test_sanitize_strips_cr_lf() {
    assert_eq!(sanitize_for_terminal("hello\r\nworld"), "helloworld");
}

#[test]
fn test_sanitize_preserves_tab() {
    assert_eq!(sanitize_for_terminal("hello\tworld"), "hello\tworld");
}

#[test]
fn test_sanitize_preserves_normal_ascii() {
    assert_eq!(
        sanitize_for_terminal("normal text 123!@#"),
        "normal text 123!@#"
    );
}

#[test]
fn test_sanitize_strips_bell() {
    assert_eq!(sanitize_for_terminal("hello\x07world"), "helloworld");
}

#[test]
fn test_sanitize_preserves_unicode_emoji() {
    assert_eq!(sanitize_for_terminal("hello 🌍 café"), "hello 🌍 café");
}

#[test]
fn test_sanitize_empty_string() {
    assert_eq!(sanitize_for_terminal(""), "");
}

#[test]
fn test_sanitize_strips_delete_0x7f() {
    assert_eq!(sanitize_for_terminal("abc\x7fdef"), "abcdef");
}

#[test]
fn test_sanitize_strips_all_low_control_except_tab() {
    // 0x01 through 0x08, 0x0a through 0x1f should all be stripped
    let input = "a\x01\x02\x03\x04\x05\x06\x07\x08\x09\x0a\x0b\x0c\x0d\x0e\x0f\x10\x11\x12\x13\x14\x15\x16\x17\x18\x19\x1a\x1b\x1c\x1d\x1e\x1fb";
    // Only \x09 (tab) survives
    assert_eq!(sanitize_for_terminal(input), "a\tb");
}

#[test]
fn test_sanitize_mixed_valid_invalid() {
    assert_eq!(
        sanitize_for_terminal("TODO\x1b[0m(alice): fix \x00this"),
        "TODO[0m(alice): fix this"
    );
}

#[test]
fn test_group_key_file() {
    let item = make_item("src/main.rs", 10, Tag::Todo, "test", Priority::Normal);
    assert_eq!(group_key(&item, &GroupBy::File), "src/main.rs");
}

#[test]
fn test_group_key_tag() {
    let item = make_item("src/main.rs", 10, Tag::Fixme, "test", Priority::Normal);
    assert_eq!(group_key(&item, &GroupBy::Tag), "FIXME");
}

#[test]
fn test_group_key_tag_all_variants() {
    for (tag, expected) in [
        (Tag::Todo, "TODO"),
        (Tag::Fixme, "FIXME"),
        (Tag::Hack, "HACK"),
        (Tag::Bug, "BUG"),
        (Tag::Note, "NOTE"),
        (Tag::Xxx, "XXX"),
    ] {
        let item = make_item("f.rs", 1, tag, "msg", Priority::Normal);
        assert_eq!(group_key(&item, &GroupBy::Tag), expected);
    }
}

#[test]
fn test_group_key_priority_urgent() {
    let item = make_item("f.rs", 1, Tag::Todo, "msg", Priority::Urgent);
    assert_eq!(group_key(&item, &GroupBy::Priority), "!! Urgent");
}

#[test]
fn test_group_key_priority_high() {
    let item = make_item("f.rs", 1, Tag::Todo, "msg", Priority::High);
    assert_eq!(group_key(&item, &GroupBy::Priority), "! High");
}

#[test]
fn test_group_key_priority_normal() {
    let item = make_item("f.rs", 1, Tag::Todo, "msg", Priority::Normal);
    assert_eq!(group_key(&item, &GroupBy::Priority), "Normal");
}

#[test]
fn test_group_key_author_with_author() {
    let item =
        make_item_with_author("f.rs", 1, Tag::Todo, "msg", Priority::Normal, Some("alice"));
    assert_eq!(group_key(&item, &GroupBy::Author), "alice");
}

#[test]
fn test_group_key_author_without_author() {
    let item = make_item("f.rs", 1, Tag::Todo, "msg", Priority::Normal);
    assert_eq!(group_key(&item, &GroupBy::Author), "unassigned");
}

#[test]
fn test_group_key_dir_with_subdirectory() {
    let item = make_item(
        "src/utils/helpers.rs",
        1,
        Tag::Todo,
        "msg",
        Priority::Normal,
    );
    assert_eq!(group_key(&item, &GroupBy::Dir), "src/utils");
}

#[test]
fn test_group_key_dir_top_level_file() {
    let item = make_item("main.rs", 1, Tag::Todo, "msg", Priority::Normal);
    assert_eq!(group_key(&item, &GroupBy::Dir), ".");
}

#[test]
fn test_group_key_dir_single_level() {
    let item = make_item("src/lib.rs", 1, Tag::Todo, "msg", Priority::Normal);
    assert_eq!(group_key(&item, &GroupBy::Dir), "src");
}

#[test]
fn test_group_key_dir_deeply_nested() {
    let item = make_item("a/b/c/d/e.rs", 1, Tag::Todo, "msg", Priority::Normal);
    assert_eq!(group_key(&item, &GroupBy::Dir), "a/b/c/d");
}

#[test]
fn test_group_items_by_file_groups_correctly() {
    let items = vec![
        make_item("a.rs", 1, Tag::Todo, "first", Priority::Normal),
        make_item("b.rs", 5, Tag::Fixme, "second", Priority::High),
        make_item("a.rs", 10, Tag::Bug, "third", Priority::Urgent),
    ];

    let groups = group_items(&items, &GroupBy::File);

    assert_eq!(groups.len(), 2);
    // Sorted alphabetically by filename
    assert_eq!(groups[0].0, "a.rs");
    assert_eq!(groups[0].1.len(), 2);
    assert_eq!(groups[1].0, "b.rs");
    assert_eq!(groups[1].1.len(), 1);
}

#[test]
fn test_group_items_by_tag_sorted_by_severity_descending() {
    let items = vec![
        make_item("a.rs", 1, Tag::Note, "low", Priority::Normal), // severity 0
        make_item("b.rs", 2, Tag::Bug, "high", Priority::Normal), // severity 5
        make_item("c.rs", 3, Tag::Todo, "medium", Priority::Normal), // severity 1
        make_item("d.rs", 4, Tag::Fixme, "high2", Priority::Normal), // severity 4
    ];

    let groups = group_items(&items, &GroupBy::Tag);

    // Should be ordered: BUG(5), FIXME(4), TODO(1), NOTE(0) — descending severity
    assert_eq!(groups.len(), 4);
    assert_eq!(groups[0].0, "BUG");
    assert_eq!(groups[1].0, "FIXME");
    assert_eq!(groups[2].0, "TODO");
    assert_eq!(groups[3].0, "NOTE");
}

#[test]
fn test_group_items_by_priority_sorted_urgency_first() {
    let items = vec![
        make_item("a.rs", 1, Tag::Todo, "normal", Priority::Normal),
        make_item("b.rs", 2, Tag::Todo, "urgent", Priority::Urgent),
        make_item("c.rs", 3, Tag::Todo, "high", Priority::High),
    ];

    let groups = group_items(&items, &GroupBy::Priority);

    assert_eq!(groups.len(), 3);
    assert_eq!(groups[0].0, "!! Urgent");
    assert_eq!(groups[1].0, "! High");
    assert_eq!(groups[2].0, "Normal");
}

#[test]
fn test_group_items_by_author_sorted_alphabetically() {
    let items = vec![
        make_item_with_author(
            "a.rs",
            1,
            Tag::Todo,
            "msg1",
            Priority::Normal,
            Some("charlie"),
        ),
        make_item_with_author(
            "b.rs",
            2,
            Tag::Todo,
            "msg2",
            Priority::Normal,
            Some("alice"),
        ),
        make_item_with_author("c.rs", 3, Tag::Todo, "msg3", Priority::Normal, None),
    ];

    let groups = group_items(&items, &GroupBy::Author);

    // Alphabetical: alice, charlie, unassigned
    assert_eq!(groups.len(), 3);
    assert_eq!(groups[0].0, "alice");
    assert_eq!(groups[1].0, "charlie");
    assert_eq!(groups[2].0, "unassigned");
}

#[test]
fn test_group_items_by_dir_sorted_alphabetically() {
    let items = vec![
        make_item("src/utils/a.rs", 1, Tag::Todo, "msg", Priority::Normal),
        make_item("lib/b.rs", 2, Tag::Todo, "msg", Priority::Normal),
        make_item("src/core/c.rs", 3, Tag::Todo, "msg", Priority::Normal),
    ];

    let groups = group_items(&items, &GroupBy::Dir);

    assert_eq!(groups.len(), 3);
    assert_eq!(groups[0].0, "lib");
    assert_eq!(groups[1].0, "src/core");
    assert_eq!(groups[2].0, "src/utils");
}

#[test]
fn test_group_items_empty_input() {
    let items: Vec<TodoItem> = vec![];
    let groups = group_items(&items, &GroupBy::File);
    assert!(groups.is_empty());
}

#[test]
fn test_group_items_single_item() {
    let items = vec![make_item("a.rs", 1, Tag::Todo, "only", Priority::Normal)];
    let groups = group_items(&items, &GroupBy::File);
    assert_eq!(groups.len(), 1);
    assert_eq!(groups[0].0, "a.rs");
    assert_eq!(groups[0].1.len(), 1);
}

#[test]
fn test_group_items_by_tag_multiple_items_same_tag() {
    let items = vec![
        make_item("a.rs", 1, Tag::Todo, "first", Priority::Normal),
        make_item("b.rs", 2, Tag::Todo, "second", Priority::Normal),
        make_item("c.rs", 3, Tag::Bug, "bug1", Priority::Normal),
    ];

    let groups = group_items(&items, &GroupBy::Tag);

    assert_eq!(groups.len(), 2);
    // BUG has higher severity (5) than TODO (1)
    assert_eq!(groups[0].0, "BUG");
    assert_eq!(groups[0].1.len(), 1);
    assert_eq!(groups[1].0, "TODO");
    assert_eq!(groups[1].1.len(), 2);
}

#[test]
fn test_group_items_by_priority_all_same_priority() {
    let items = vec![
        make_item("a.rs", 1, Tag::Todo, "msg1", Priority::High),
        make_item("b.rs", 2, Tag::Bug, "msg2", Priority::High),
    ];

    let groups = group_items(&items, &GroupBy::Priority);
    assert_eq!(groups.len(), 1);
    assert_eq!(groups[0].0, "! High");
    assert_eq!(groups[0].1.len(), 2);
}

#[test]
fn test_group_items_preserves_insertion_order_within_group() {
    let items = vec![
        make_item("a.rs", 10, Tag::Todo, "first", Priority::Normal),
        make_item("a.rs", 20, Tag::Todo, "second", Priority::Normal),
        make_item("a.rs", 5, Tag::Todo, "third", Priority::Normal),
    ];

    let groups = group_items(&items, &GroupBy::File);
    assert_eq!(groups.len(), 1);
    // Within the group, items should appear in the original order
    assert_eq!(groups[0].1[0].line, 10);
    assert_eq!(groups[0].1[1].line, 20);
    assert_eq!(groups[0].1[2].line, 5);
}

#[test]
fn test_bar_max_zero_returns_empty() {
    assert_eq!(bar(5, 0, 20), "");
}

#[test]
fn test_bar_count_zero_returns_empty() {
    // 0 * 20 / 10 = 0, div_ceil(0, 10) = 0
    assert_eq!(bar(0, 10, 20), "");
}

#[test]
fn test_bar_full_width() {
    let result = bar(10, 10, 20);
    // 10 * 20 / 10 = 20 blocks
    assert_eq!(result.chars().count(), 20);
    assert!(result.chars().all(|c| c == '\u{2588}'));
}

#[test]
fn test_bar_half_width() {
    let result = bar(5, 10, 20);
    // (5 * 20).div_ceil(10) = 100.div_ceil(10) = 10
    assert_eq!(result.chars().count(), 10);
}

#[test]
fn test_bar_small_fraction_rounds_up() {
    let result = bar(1, 10, 20);
    // (1 * 20).div_ceil(10) = 20.div_ceil(10) = 2
    assert_eq!(result.chars().count(), 2);
}

#[test]
fn test_bar_width_one() {
    let result = bar(3, 10, 1);
    // (3 * 1).div_ceil(10) = 3.div_ceil(10) = 1
    assert_eq!(result.chars().count(), 1);
}

#[test]
fn test_bar_count_equals_max() {
    let result = bar(7, 7, 15);
    // (7 * 15).div_ceil(7) = 105.div_ceil(7) = 15
    assert_eq!(result.chars().count(), 15);
}

#[test]
fn test_bar_uses_block_character() {
    let result = bar(5, 10, 4);
    // All characters should be the full block character U+2588
    for c in result.chars() {
        assert_eq!(c, '\u{2588}');
    }
}

#[test]
fn test_bar_width_zero() {
    // (count * 0).div_ceil(max) = 0
    let result = bar(5, 10, 0);
    assert_eq!(result, "");
}

#[test]
fn test_group_items_by_tag_all_six_tags_sorted() {
    let items = vec![
        make_item("a.rs", 1, Tag::Note, "note", Priority::Normal), // severity 0
        make_item("b.rs", 2, Tag::Todo, "todo", Priority::Normal), // severity 1
        make_item("c.rs", 3, Tag::Hack, "hack", Priority::Normal), // severity 2
        make_item("d.rs", 4, Tag::Xxx, "xxx", Priority::Normal),   // severity 3
        make_item("e.rs", 5, Tag::Fixme, "fixme", Priority::Normal), // severity 4
        make_item("f.rs", 6, Tag::Bug, "bug", Priority::Normal),   // severity 5
    ];

    let groups = group_items(&items, &GroupBy::Tag);

    assert_eq!(groups.len(), 6);
    assert_eq!(groups[0].0, "BUG"); // 5
    assert_eq!(groups[1].0, "FIXME"); // 4
    assert_eq!(groups[2].0, "XXX"); // 3
    assert_eq!(groups[3].0, "HACK"); // 2
    assert_eq!(groups[4].0, "TODO"); // 1
    assert_eq!(groups[5].0, "NOTE"); // 0
}

#[test]
fn test_group_key_dir_windows_style_path() {
    // std::path::Path handles this: on Unix, backslashes are part of the filename
    // On Linux, "src\\main.rs" has no parent directory separator
    let item = make_item("file.txt", 1, Tag::Todo, "msg", Priority::Normal);
    assert_eq!(group_key(&item, &GroupBy::Dir), ".");
}

#[test]
fn test_group_items_by_priority_only_urgent() {
    let items = vec![
        make_item("a.rs", 1, Tag::Bug, "critical", Priority::Urgent),
        make_item("b.rs", 2, Tag::Fixme, "also critical", Priority::Urgent),
    ];

    let groups = group_items(&items, &GroupBy::Priority);
    assert_eq!(groups.len(), 1);
    assert_eq!(groups[0].0, "!! Urgent");
    assert_eq!(groups[0].1.len(), 2);
}

#[test]
fn test_group_items_by_author_mixed() {
    let items = vec![
        make_item("a.rs", 1, Tag::Todo, "msg1", Priority::Normal),
        make_item_with_author("b.rs", 2, Tag::Todo, "msg2", Priority::Normal, Some("zoe")),
        make_item("c.rs", 3, Tag::Todo, "msg3", Priority::Normal),
        make_item_with_author("d.rs", 4, Tag::Todo, "msg4", Priority::Normal, Some("adam")),
    ];

    let groups = group_items(&items, &GroupBy::Author);
    assert_eq!(groups.len(), 3);
    // Alphabetically sorted
    assert_eq!(groups[0].0, "adam");
    assert_eq!(groups[0].1.len(), 1);
    assert_eq!(groups[1].0, "unassigned");
    assert_eq!(groups[1].1.len(), 2);
    assert_eq!(groups[2].0, "zoe");
    assert_eq!(groups[2].1.len(), 1);
}

#[test]
fn test_bar_count_greater_than_max_still_works() {
    // This could happen with stale data; should produce width or more blocks
    let result = bar(20, 10, 10);
    // (20 * 10).div_ceil(10) = 200.div_ceil(10) = 20
    assert_eq!(result.chars().count(), 20);
}

#[test]
fn test_bar_tiny_fraction() {
    let result = bar(1, 100, 10);
    // (1 * 10).div_ceil(100) = 10.div_ceil(100) = 1
    assert_eq!(result.chars().count(), 1);
}

#[test]
fn test_bar_exact_division() {
    let result = bar(4, 8, 16);
    // (4 * 16).div_ceil(8) = 64.div_ceil(8) = 8
    assert_eq!(result.chars().count(), 8);
}

#[test]
fn test_sanitize_strips_backspace() {
    assert_eq!(sanitize_for_terminal("abc\x08def"), "abcdef");
}

#[test]
fn test_sanitize_strips_form_feed() {
    assert_eq!(sanitize_for_terminal("page1\x0cpage2"), "page1page2");
}

#[test]
fn test_sanitize_strips_full_ansi_escape_sequence() {
    // A typical ANSI color reset: ESC[0m
    assert_eq!(
        sanitize_for_terminal("before\x1b[0mafter"),
        "before[0mafter"
    );
}

#[test]
fn test_sanitize_strips_ansi_color_code() {
    // ESC[31m (red) ... ESC[0m (reset)
    assert_eq!(
        sanitize_for_terminal("\x1b[31mred text\x1b[0m"),
        "[31mred text[0m"
    );
}

#[test]
fn test_sanitize_long_string_with_control_chars() {
    let base = "a".repeat(1000);
    let input = format!("{}\x00\x01\x02{}", base, base);
    let expected = format!("{}{}", base, base);
    assert_eq!(sanitize_for_terminal(&input), expected);
}

#[test]
fn test_sanitize_only_control_chars() {
    assert_eq!(
        sanitize_for_terminal("\x00\x01\x02\x03\x04\x05\x06\x07\x08"),
        ""
    );
}

#[test]
fn test_sanitize_multiple_escape_sequences() {
    assert_eq!(
        sanitize_for_terminal("\x1b[1m\x1b[31mbold red\x1b[0m"),
        "[1m[31mbold red[0m"
    );
}

#[test]
fn test_sanitize_tab_preserved_among_stripped_chars() {
    assert_eq!(sanitize_for_terminal("\x01\t\x02\t\x03"), "\t\t");
}

#[test]
fn test_group_key_dir_bare_filename_no_slash() {
    // A file with no path separator at all, like "Makefile"
    let item = make_item("Makefile", 1, Tag::Todo, "msg", Priority::Normal);
    // Path::new("Makefile").parent() returns Some(""), which is mapped to "."
    assert_eq!(group_key(&item, &GroupBy::Dir), ".");
}

#[test]
fn test_group_key_dir_dotfile() {
    let item = make_item(".gitignore", 1, Tag::Todo, "msg", Priority::Normal);
    assert_eq!(group_key(&item, &GroupBy::Dir), ".");
}

#[test]
fn test_group_items_multiple_same_group_insertion_order_by_tag() {
    let items = vec![
        make_item("x.rs", 30, Tag::Todo, "third", Priority::Normal),
        make_item("y.rs", 10, Tag::Todo, "first", Priority::Normal),
        make_item("z.rs", 20, Tag::Todo, "second", Priority::Normal),
    ];

    let groups = group_items(&items, &GroupBy::Tag);
    assert_eq!(groups.len(), 1);
    assert_eq!(groups[0].0, "TODO");
    // Items within a group maintain insertion order
    assert_eq!(groups[0].1[0].message, "third");
    assert_eq!(groups[0].1[1].message, "first");
    assert_eq!(groups[0].1[2].message, "second");
}

#[test]
fn test_group_items_multiple_groups_insertion_order_preserved() {
    let items = vec![
        make_item("a.rs", 1, Tag::Todo, "a-todo-1", Priority::Normal),
        make_item("a.rs", 2, Tag::Bug, "a-bug-1", Priority::Normal),
        make_item("a.rs", 3, Tag::Todo, "a-todo-2", Priority::Normal),
        make_item("a.rs", 4, Tag::Bug, "a-bug-2", Priority::Normal),
    ];

    let groups = group_items(&items, &GroupBy::Tag);
    // BUG (severity 5) before TODO (severity 1)
    assert_eq!(groups[0].0, "BUG");
    assert_eq!(groups[0].1.len(), 2);
    assert_eq!(groups[0].1[0].message, "a-bug-1");
    assert_eq!(groups[0].1[1].message, "a-bug-2");

    assert_eq!(groups[1].0, "TODO");
    assert_eq!(groups[1].1.len(), 2);
    assert_eq!(groups[1].1[0].message, "a-todo-1");
    assert_eq!(groups[1].1[1].message, "a-todo-2");
}

#[test]
fn test_bar_both_max_and_width_zero() {
    // max == 0 returns early with empty string, width doesn't matter
    assert_eq!(bar(5, 0, 0), "");
}

#[test]
fn test_bar_all_zeros() {
    assert_eq!(bar(0, 0, 0), "");
}

#[test]
fn test_bar_large_values() {
    let result = bar(1000, 1000, 100);
    // (1000 * 100).div_ceil(1000) = 100
    assert_eq!(result.chars().count(), 100);
}

#[test]
fn test_bar_function() {
    // max=0 returns empty
    assert_eq!(bar(5, 0, 20), "");
    // count=0, max>0 returns 0 blocks (div_ceil(0)=0)
    assert_eq!(bar(0, 10, 20), "");
    // full bar
    assert_eq!(bar(10, 10, 20).chars().count(), 20);
    // partial bar
    let b = bar(5, 10, 20);
    assert_eq!(b.chars().count(), 10);
}

#[test]
fn test_group_by_author() {
    let items = vec![
        make_item_with_author(
            "a.rs",
            1,
            Tag::Todo,
            "task",
            Priority::Normal,
            Some("alice"),
        ),
        make_item_with_author("b.rs", 2, Tag::Todo, "task2", Priority::Normal, None),
        make_item_with_author(
            "c.rs",
            3,
            Tag::Todo,
            "task3",
            Priority::Normal,
            Some("alice"),
        ),
    ];
    let groups = group_items(&items, &GroupBy::Author);
    // alice has 2 items, unassigned has 1
    assert_eq!(groups.len(), 2);
}

#[test]
fn test_group_by_dir() {
    let items = vec![
        make_item("src/main.rs", 1, Tag::Todo, "task", Priority::Normal),
        make_item("src/lib.rs", 2, Tag::Todo, "task2", Priority::Normal),
        make_item("tests/test.rs", 3, Tag::Todo, "task3", Priority::Normal),
        make_item("root_file.rs", 4, Tag::Todo, "task4", Priority::Normal),
    ];
    let groups = group_items(&items, &GroupBy::Dir);
    // src, tests, . (root)
    assert_eq!(groups.len(), 3);
}

#[test]
fn script_safe_json_escapes_every_open_angle() {
    let s = todo_scan::output::script_safe_json(r#"{"m":"</Script><b>"}"#);
    assert_eq!(s, r#"{"m":"\u003c/Script>\u003cb>"}"#);
    assert!(!s.contains('<'));
}

#[test]
fn violations_grouped_by_file_in_order_of_appearance() {
    let v = |file: &str, line: usize, rule: &str| LintViolation {
        rule: rule.to_string(),
        message: String::new(),
        file: file.to_string(),
        line,
        suggestion: None,
    };
    let vs = vec![v("b.rs", 3, "r1"), v("a.rs", 1, "r2"), v("b.rs", 1, "r3"), v("a.rs", 9, "r4")];
    let groups = todo_scan::output::group_by_file(&vs);
    let got: Vec<(String, Vec<&str>)> =
        groups.into_iter().map(|(f, members)| (f, members.iter().map(|m| m.rule.as_str()).collect())).collect();
    assert_eq!(got, vec![("b.rs".to_string(), vec!["r1", "r3"]), ("a.rs".to_string(), vec!["r2", "r4"])]);
}
