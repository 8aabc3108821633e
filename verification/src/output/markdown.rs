//! Markdown renderings of results: tables and summaries.
use vstd::prelude::*;

use crate::deadline::{deadline_text, Deadline};
use crate::model::{
    item_views, opt_view, tag_name, BlameEntry, BlameResult, CheckResult, CheckViolation,
    CleanResult, CleanViolation, DiffEntry, DiffResult, DiffStatus, LintResult, LintViolation,
    Priority, ScanResult, SearchResult, TodoItem, TodoItemView,
};
use crate::text::{
    chars_of, decimal, join_lines, join_with, push_all, push_decimal, push_piece, string_from_chars,
    views,
};

verus! {

// ───────────────────────── escaping ─────────────────────────

/// Escape of one character in a table cell: `|`, `[`, `]` and backtick get a
/// backslash, a line feed becomes a space, a carriage return is dropped.
pub open spec fn esc_char(c: char) -> Seq<char> {
    if c == '|' {
        seq!['\\', '|']
    } else if c == '\n' {
        seq![' ']
    } else if c == '\r' {
        seq![]
    } else if c == '[' {
        seq!['\\', '[']
    } else if c == ']' {
        seq!['\\', ']']
    } else if c == '`' {
        seq!['\\', '`']
    } else {
        seq![c]
    }
}

/// Escape of a table cell's text, character by character.
pub open spec fn escape(s: Seq<char>) -> Seq<char>
    decreases s.len(),
{
    if s.len() == 0 {
        seq![]
    } else {
        escape(s.drop_last()) + esc_char(s.last())
    }
}

/// An escaped cell stays on one table row and in one cell: it has no line
/// breaks, and each `|` in it follows a backslash.
pub proof fn lemma_escaped_cell(s: Seq<char>)
    ensures
        forall|i: int| 0 <= i < escape(s).len() ==> #[trigger] escape(s)[i] != '\n' && escape(s)[i] != '\r',
        forall|i: int| 0 <= i < escape(s).len() && #[trigger] escape(s)[i] == '|' ==> i > 0 && escape(s)[i - 1] == '\\',
    decreases s.len(),
{
    if s.len() > 0 {
        lemma_escaped_cell(s.drop_last());
        let a = escape(s.drop_last());
        let b = esc_char(s.last());
        assert forall|i: int| 0 <= i < (a + b).len() implies #[trigger] (a + b)[i] != '\n' && (a + b)[i] != '\r' by {
            if i >= a.len() {
                assert((a + b)[i] == b[i - a.len()]);
            } else {
                assert((a + b)[i] == a[i]);
            }
        }
        assert forall|i: int| 0 <= i < (a + b).len() && #[trigger] (a + b)[i] == '|' implies i > 0 && (a + b)[i - 1] == '\\' by {
            if i >= a.len() {
                assert((a + b)[i] == b[i - a.len()]);
                assert(i == a.len() + 1);
                assert((a + b)[i - 1] == b[0]);
            } else {
                assert((a + b)[i] == a[i]);
                assert((a + b)[i - 1] == a[i - 1]);
            }
        }
    }
}

/// Append the escape of `s`.
pub fn push_escaped(out: &mut Vec<char>, s: &[char])
    ensures
        final(out)@ == old(out)@ + escape(s@),
{
    let mut i: usize = 0;
    assert(s@.take(0) =~= Seq::<char>::empty());
    assert(old(out)@ + escape(s@.take(0)) =~= old(out)@);
    while i < s.len()
        invariant
            i <= s@.len(),
            out@ == old(out)@ + escape(s@.take(i as int)),
        decreases s@.len() - i,
    {
        assert(s@.take(i + 1).drop_last() =~= s@.take(i as int));
        assert(s@.take(i + 1).last() == s@[i as int]);
        let c = s[i];
        let ghost before = out@;
        if c == '|' {
            out.push('\\');
            out.push('|');
        } else if c == '\n' {
            out.push(' ');
        } else if c == '\r' {
        } else if c == '[' {
            out.push('\\');
            out.push('[');
        } else if c == ']' {
            out.push('\\');
            out.push(']');
        } else if c == '`' {
            out.push('\\');
            out.push('`');
        } else {
            out.push(c);
        }
        assert(out@ =~= before + esc_char(c));
        i += 1;
    }
    assert(s@.take(s@.len() as int) =~= s@);
}

/// Escape characters that break markdown table cells.
pub fn escape_cell(s: &str) -> (res: String)
    ensures
        res@ == escape(s@),
{
    let mut out: Vec<char> = Vec::new();
    push_escaped(&mut out, &chars_of(s));
    string_from_chars(&out)
}

fn push_escaped_str(out: &mut Vec<char>, s: &str)
    ensures
        final(out)@ == old(out)@ + escape(s@),
{
    push_escaped(out, &chars_of(s));
}

// ───────────────────────── item tables ─────────────────────────

/// Priority marker: empty, `!` or `!!`.
pub open spec fn priority_mark(p: Priority) -> Seq<char> {
    match p {
        Priority::Normal => seq![],
        Priority::High => seq!['!'],
        Priority::Urgent => seq!['!', '!'],
    }
}

/// The text of an optional value, empty when absent.
pub open spec fn opt_text(o: Option<Seq<char>>) -> Seq<char> {
    match o {
        Some(t) => t,
        None => seq![],
    }
}

pub open spec fn deadline_cell(d: Option<Deadline>) -> Seq<char> {
    match d {
        Some(d) => escape(deadline_text(d)),
        None => seq![],
    }
}

/// One row of the item table.
pub open spec fn item_row(v: TodoItemView) -> Seq<char> {
    "| "@ + escape(v.file) + " | "@ + decimal(v.line as nat) + " | "@ + tag_name(v.tag) + " | "@
        + priority_mark(v.priority) + " | "@ + escape(v.message) + " | "@ + escape(opt_text(v.author))
        + " | "@ + escape(opt_text(v.issue_ref)) + " | "@ + deadline_cell(v.deadline) + " |"@
}

pub open spec fn item_table_header() -> Seq<Seq<char>> {
    seq![
        "| File | Line | Tag | Priority | Message | Author | Issue | Deadline |"@,
        "|------|------|-----|----------|---------|--------|-------|----------|"@,
    ]
}

pub open spec fn item_rows(items: Seq<TodoItemView>) -> Seq<Seq<char>> {
    items.map_values(|v: TodoItemView| item_row(v))
}

fn push_opt_escaped(out: &mut Vec<char>, o: &Option<String>)
    ensures
        final(out)@ == old(out)@ + escape(opt_text(opt_view(*o))),
{
    match o {
        Some(s) => push_escaped_str(out, s.as_str()),
        None => {
            assert(escape(opt_text(opt_view(*o))) =~= seq![]);
            assert(out@ =~= old(out)@ + seq![]);
        },
    }
}

fn item_row_exec(item: &TodoItem) -> (res: Vec<char>)
    ensures
        res@ == item_row(item@),
{
    let mut out = chars_of("| ");
    push_escaped_str(&mut out, item.file.as_str());
    push_all(&mut out, &chars_of(" | "));
    push_decimal(&mut out, item.line as u64);
    push_all(&mut out, &chars_of(" | "));
    push_all(&mut out, &item.tag.name_chars());
    push_all(&mut out, &chars_of(" | "));
    match item.priority {
        Priority::Normal => {},
        Priority::High => out.push('!'),
        Priority::Urgent => {
            out.push('!');
            out.push('!');
        },
    }
    push_all(&mut out, &chars_of(" | "));
    push_escaped_str(&mut out, item.message.as_str());
    push_all(&mut out, &chars_of(" | "));
    push_opt_escaped(&mut out, &item.author);
    push_all(&mut out, &chars_of(" | "));
    push_opt_escaped(&mut out, &item.issue_ref);
    push_all(&mut out, &chars_of(" | "));
    match &item.deadline {
        Some(d) => {
            let t = d.to_text();
            push_escaped(&mut out, &t);
        },
        None => {},
    }
    push_all(&mut out, &chars_of(" |"));
    assert(out@ =~= item_row(item@));
    out
}

fn push_item_table(lines: &mut Vec<Vec<char>>, items: &Vec<TodoItem>)
    ensures
        views(final(lines)@) == views(old(lines)@) + item_table_header() + item_rows(item_views(items@)),
{
    let ghost start = views(lines@);
    push_piece(lines, chars_of("| File | Line | Tag | Priority | Message | Author | Issue | Deadline |"));
    push_piece(lines, chars_of("|------|------|-----|----------|---------|--------|-------|----------|"));
    assert(views(lines@) =~= start + item_table_header());
    let ghost head = views(lines@);
    let mut i: usize = 0;
    while i < items.len()
        invariant
            i <= items@.len(),
            views(lines@) == head + item_rows(item_views(items@)).take(i as int),
        decreases items@.len() - i,
    {
        let r = item_row_exec(&items[i]);
        push_piece(lines, r);
        assert(item_rows(item_views(items@)).take(i + 1) =~= item_rows(item_views(items@)).take(i as int).push(
            r@,
        ));
        i += 1;
    }
    assert(item_rows(item_views(items@)).take(items@.len() as int) =~= item_rows(item_views(items@)));
}

/// The markdown table of a scan's items.
pub open spec fn list_lines(items: Seq<TodoItemView>) -> Seq<Seq<char>> {
    item_table_header() + item_rows(items) + seq![
        seq![],
        "**"@ + decimal(items.len()) + " items found**"@,
        seq![],
    ]
}

/// Render a scan as a markdown table.
pub fn format_list(result: &ScanResult) -> (res: String)
    ensures
        res@ == join_with(list_lines(item_views(result.items@)), seq!['\n']),
{
    let mut lines: Vec<Vec<char>> = Vec::new();
    push_item_table(&mut lines, &result.items);
    push_piece(&mut lines, Vec::new());
    let mut s = chars_of("**");
    push_decimal(&mut s, result.items.len() as u64);
    push_all(&mut s, &chars_of(" items found**"));
    push_piece(&mut lines, s);
    push_piece(&mut lines, Vec::new());
    assert(views(lines@) =~= list_lines(item_views(result.items@)));
    join_lines(&lines)
}

/// The markdown table of search results.
pub open spec fn search_lines(r: SearchResult) -> Seq<Seq<char>> {
    item_table_header() + item_rows(item_views(r.items@)) + seq![
        seq![],
        "**"@ + decimal(r.match_count as nat) + " matches across "@ + decimal(r.file_count as nat)
            + " files** (query: \""@ + r.query@ + "\")"@,
        seq![],
    ]
}

/// Render search results as a markdown table.
pub fn format_search(result: &SearchResult) -> (res: String)
    ensures
        res@ == join_with(search_lines(*result), seq!['\n']),
{
    let mut lines: Vec<Vec<char>> = Vec::new();
    push_item_table(&mut lines, &result.items);
    push_piece(&mut lines, Vec::new());
    let mut s = chars_of("**");
    push_decimal(&mut s, result.match_count as u64);
    push_all(&mut s, &chars_of(" matches across "));
    push_decimal(&mut s, result.file_count as u64);
    push_all(&mut s, &chars_of(" files** (query: \""));
    push_all(&mut s, &chars_of(result.query.as_str()));
    push_all(&mut s, &chars_of("\")"));
    push_piece(&mut lines, s);
    push_piece(&mut lines, Vec::new());
    assert(views(lines@) =~= search_lines(*result));
    join_lines(&lines)
}

// ───────────────────────── diff ─────────────────────────

pub open spec fn diff_row(e: DiffEntry) -> Seq<char> {
    "| "@ + (match e.status {
        DiffStatus::Added => seq!['+'],
        DiffStatus::Removed => seq!['-'],
    }) + " | "@ + escape(e.item.file@) + " | "@ + decimal(e.item.line as nat) + " | "@ + tag_name(e.item.tag)
        + " | "@ + escape(e.item.message@) + " |"@
}

pub open spec fn diff_lines(r: DiffResult) -> Seq<Seq<char>> {
    seq!["| Status | File | Line | Tag | Message |"@, "|--------|------|------|-----|---------|"@]
        + r.entries@.map_values(|e: DiffEntry| diff_row(e)) + seq![
        seq![],
        "**+"@ + decimal(r.added_count as nat) + " -"@ + decimal(r.removed_count as nat) + "** (base: `"@
            + r.base_ref@ + "`)"@,
        seq![],
    ]
}

/// Render a diff as a markdown table.
pub fn format_diff(result: &DiffResult) -> (res: String)
    ensures
        res@ == join_with(diff_lines(*result), seq!['\n']),
{
    let mut lines: Vec<Vec<char>> = Vec::new();
    push_piece(&mut lines, chars_of("| Status | File | Line | Tag | Message |"));
    push_piece(&mut lines, chars_of("|--------|------|------|-----|---------|"));
    let ghost head = views(lines@);
    let ghost rows = result.entries@.map_values(|e: DiffEntry| diff_row(e));
    let mut i: usize = 0;
    while i < result.entries.len()
        invariant
            i <= result.entries@.len(),
            rows == result.entries@.map_values(|e: DiffEntry| diff_row(e)),
            views(lines@) == head + rows.take(i as int),
        decreases result.entries@.len() - i,
    {
        let e = &result.entries[i];
        let mut out = chars_of("| ");
        match e.status {
            DiffStatus::Added => out.push('+'),
            DiffStatus::Removed => out.push('-'),
        }
        push_all(&mut out, &chars_of(" | "));
        push_escaped_str(&mut out, e.item.file.as_str());
        push_all(&mut out, &chars_of(" | "));
        push_decimal(&mut out, e.item.line as u64);
        push_all(&mut out, &chars_of(" | "));
        push_all(&mut out, &e.item.tag.name_chars());
        push_all(&mut out, &chars_of(" | "));
        push_escaped_str(&mut out, e.item.message.as_str());
        push_all(&mut out, &chars_of(" |"));
        assert(out@ =~= diff_row(*e));
        push_piece(&mut lines, out);
        assert(rows.take(i + 1) =~= rows.take(i as int).push(diff_row(*e)));
        i += 1;
    }
    assert(rows.take(result.entries@.len() as int) =~= rows);
    push_piece(&mut lines, Vec::new());
    let mut s = chars_of("**+");
    push_decimal(&mut s, result.added_count as u64);
    push_all(&mut s, &chars_of(" -"));
    push_decimal(&mut s, result.removed_count as u64);
    push_all(&mut s, &chars_of("** (base: `"));
    push_all(&mut s, &chars_of(result.base_ref.as_str()));
    push_all(&mut s, &chars_of("`)"));
    push_piece(&mut lines, s);
    push_piece(&mut lines, Vec::new());
    assert(views(lines@) =~= diff_lines(*result));
    join_lines(&lines)
}

// ───────────────────────── blame ─────────────────────────

pub open spec fn blame_row(e: BlameEntry) -> Seq<char> {
    "| "@ + escape(e.item.file@) + " | "@ + decimal(e.item.line as nat) + " | "@ + tag_name(e.item.tag) + " | "@
        + escape(e.item.message@) + " | "@ + escape(e.blame.author@) + " | "@ + escape(e.blame.date@) + " | "@
        + decimal(e.blame.age_days as nat) + " | "@ + (if e.stale {
        "Yes"@
    } else {
        seq![]
    }) + " |"@
}

pub open spec fn blame_lines(r: BlameResult) -> Seq<Seq<char>> {
    seq![
        "| File | Line | Tag | Message | Author | Date | Age (days) | Stale |"@,
        "|------|------|-----|---------|--------|------|------------|-------|"@,
    ] + r.entries@.map_values(|e: BlameEntry| blame_row(e)) + seq![
        seq![],
        "**"@ + decimal(r.total as nat) + " items, avg age "@ + decimal(r.avg_age_days as nat) + " days, "@
            + decimal(r.stale_count as nat) + " stale** (threshold: "@ + decimal(r.stale_threshold_days as nat)
            + " days)"@,
        seq![],
    ]
}

fn blame_row_exec(e: &BlameEntry) -> (res: Vec<char>)
    ensures
        res@ == blame_row(*e),
{
    let mut out = chars_of("| ");
    push_escaped_str(&mut out, e.item.file.as_str());
    push_all(&mut out, &chars_of(" | "));
    push_decimal(&mut out, e.item.line as u64);
    push_all(&mut out, &chars_of(" | "));
    push_all(&mut out, &e.item.tag.name_chars());
    push_all(&mut out, &chars_of(" | "));
    push_escaped_str(&mut out, e.item.message.as_str());
    push_all(&mut out, &chars_of(" | "));
    push_escaped_str(&mut out, e.blame.author.as_str());
    push_all(&mut out, &chars_of(" | "));
    push_escaped_str(&mut out, e.blame.date.as_str());
    push_all(&mut out, &chars_of(" | "));
    push_decimal(&mut out, e.blame.age_days);
    push_all(&mut out, &chars_of(" | "));
    if e.stale {
        push_all(&mut out, &chars_of("Yes"));
    }
    push_all(&mut out, &chars_of(" |"));
    assert(out@ =~= blame_row(*e));
    out
}

/// Render a blame report as a markdown table.
pub fn format_blame(result: &BlameResult) -> (res: String)
    ensures
        res@ == join_with(blame_lines(*result), seq!['\n']),
{
    let mut lines: Vec<Vec<char>> = Vec::new();
    push_piece(&mut lines, chars_of("| File | Line | Tag | Message | Author | Date | Age (days) | Stale |"));
    push_piece(&mut lines, chars_of("|------|------|-----|---------|--------|------|------------|-------|"));
    let ghost head = views(lines@);
    let ghost rows = result.entries@.map_values(|e: BlameEntry| blame_row(e));
    let mut i: usize = 0;
    while i < result.entries.len()
        invariant
            i <= result.entries@.len(),
            rows == result.entries@.map_values(|e: BlameEntry| blame_row(e)),
            views(lines@) == head + rows.take(i as int),
        decreases result.entries@.len() - i,
    {
        let r = blame_row_exec(&result.entries[i]);
        push_piece(&mut lines, r);
        assert(rows.take(i + 1) =~= rows.take(i as int).push(r@));
        i += 1;
    }
    assert(rows.take(result.entries@.len() as int) =~= rows);
    push_piece(&mut lines, Vec::new());
    let mut s = chars_of("**");
    push_decimal(&mut s, result.total as u64);
    push_all(&mut s, &chars_of(" items, avg age "));
    push_decimal(&mut s, result.avg_age_days);
    push_all(&mut s, &chars_of(" days, "));
    push_decimal(&mut s, result.stale_count as u64);
    push_all(&mut s, &chars_of(" stale** (threshold: "));
    push_decimal(&mut s, result.stale_threshold_days);
    push_all(&mut s, &chars_of(" days)"));
    push_piece(&mut lines, s);
    push_piece(&mut lines, Vec::new());
    assert(views(lines@) =~= blame_lines(*result));
    join_lines(&lines)
}

// ───────────────────────── lint ─────────────────────────

pub open spec fn lint_row(v: LintViolation) -> Seq<char> {
    "| "@ + escape(v.file@) + " | "@ + decimal(v.line as nat) + " | "@ + escape(v.rule@) + " | "@
        + escape(v.message@) + " | "@ + escape(opt_text(opt_view(v.suggestion))) + " |"@
}

pub open spec fn lint_lines(r: LintResult) -> Seq<Seq<char>> {
    (if r.passed {
        seq![
            "## PASS"@,
            seq![],
            "All lint checks passed ("@ + decimal(r.total_items as nat) + " items total)."@,
        ]
    } else {
        seq![
            "## FAIL"@,
            seq![],
            "| File | Line | Rule | Message | Suggestion |"@,
            "|------|------|------|---------|------------|"@,
        ] + r.violations@.map_values(|v: LintViolation| lint_row(v)) + seq![
            seq![],
            "**"@ + decimal(r.violation_count as nat) + " violations in "@ + decimal(r.total_items as nat)
                + " items**"@,
        ]
    }) + seq![seq![]]
}

/// Render a lint result in markdown.
pub fn format_lint(result: &LintResult) -> (res: String)
    ensures
        res@ == join_with(lint_lines(*result), seq!['\n']),
{
    let mut lines: Vec<Vec<char>> = Vec::new();
    if result.passed {
        push_piece(&mut lines, chars_of("## PASS"));
        push_piece(&mut lines, Vec::new());
        let mut s = chars_of("All lint checks passed (");
        push_decimal(&mut s, result.total_items as u64);
        push_all(&mut s, &chars_of(" items total)."));
        push_piece(&mut lines, s);
    } else {
        push_piece(&mut lines, chars_of("## FAIL"));
        push_piece(&mut lines, Vec::new());
        push_piece(&mut lines, chars_of("| File | Line | Rule | Message | Suggestion |"));
        push_piece(&mut lines, chars_of("|------|------|------|---------|------------|"));
        let ghost head = views(lines@);
        let ghost rows = result.violations@.map_values(|v: LintViolation| lint_row(v));
        let mut i: usize = 0;
        while i < result.violations.len()
            invariant
                i <= result.violations@.len(),
                rows == result.violations@.map_values(|v: LintViolation| lint_row(v)),
                views(lines@) == head + rows.take(i as int),
            decreases result.violations@.len() - i,
        {
            let v = &result.violations[i];
            let mut out = chars_of("| ");
            push_escaped_str(&mut out, v.file.as_str());
            push_all(&mut out, &chars_of(" | "));
            push_decimal(&mut out, v.line as u64);
            push_all(&mut out, &chars_of(" | "));
            push_escaped_str(&mut out, v.rule.as_str());
            push_all(&mut out, &chars_of(" | "));
            push_escaped_str(&mut out, v.message.as_str());
            push_all(&mut out, &chars_of(" | "));
            push_opt_escaped(&mut out, &v.suggestion);
            push_all(&mut out, &chars_of(" |"));
            assert(out@ =~= lint_row(*v));
            push_piece(&mut lines, out);
            assert(rows.take(i + 1) =~= rows.take(i as int).push(lint_row(*v)));
            i += 1;
        }
        assert(rows.take(result.violations@.len() as int) =~= rows);
        push_piece(&mut lines, Vec::new());
        let mut s = chars_of("**");
        push_decimal(&mut s, result.violation_count as u64);
        push_all(&mut s, &chars_of(" violations in "));
        push_decimal(&mut s, result.total_items as u64);
        push_all(&mut s, &chars_of(" items**"));
        push_piece(&mut lines, s);
    }
    push_piece(&mut lines, Vec::new());
    assert(views(lines@) =~= lint_lines(*result));
    join_lines(&lines)
}

// ───────────────────────── check ─────────────────────────

pub open spec fn check_row(v: CheckViolation) -> Seq<char> {
    "- **"@ + escape(v.rule@) + "**: "@ + escape(v.message@)
}

pub open spec fn check_lines(r: CheckResult) -> Seq<Seq<char>> {
    (if r.passed {
        seq!["## PASS"@, seq![], "All checks passed ("@ + decimal(r.total as nat) + " items total)."@]
    } else {
        seq!["## FAIL"@, seq![]] + r.violations@.map_values(|v: CheckViolation| check_row(v))
    }) + seq![seq![]]
}

/// Render a check result in markdown.
pub fn format_check(result: &CheckResult) -> (res: String)
    ensures
        res@ == join_with(check_lines(*result), seq!['\n']),
{
    let mut lines: Vec<Vec<char>> = Vec::new();
    if result.passed {
        push_piece(&mut lines, chars_of("## PASS"));
        push_piece(&mut lines, Vec::new());
        let mut s = chars_of("All checks passed (");
        push_decimal(&mut s, result.total as u64);
        push_all(&mut s, &chars_of(" items total)."));
        push_piece(&mut lines, s);
    } else {
        push_piece(&mut lines, chars_of("## FAIL"));
        push_piece(&mut lines, Vec::new());
        let ghost head = views(lines@);
        let ghost rows = result.violations@.map_values(|v: CheckViolation| check_row(v));
        let mut i: usize = 0;
        while i < result.violations.len()
            invariant
                i <= result.violations@.len(),
                rows == result.violations@.map_values(|v: CheckViolation| check_row(v)),
                views(lines@) == head + rows.take(i as int),
            decreases result.violations@.len() - i,
        {
            let v = &result.violations[i];
            let mut out = chars_of("- **");
            push_escaped_str(&mut out, v.rule.as_str());
            push_all(&mut out, &chars_of("**: "));
            push_escaped_str(&mut out, v.message.as_str());
            assert(out@ =~= check_row(*v));
            push_piece(&mut lines, out);
            assert(rows.take(i + 1) =~= rows.take(i as int).push(check_row(*v)));
            i += 1;
        }
        assert(rows.take(result.violations@.len() as int) =~= rows);
    }
    push_piece(&mut lines, Vec::new());
    assert(views(lines@) =~= check_lines(*result));
    join_lines(&lines)
}

// ───────────────────────── clean ─────────────────────────

/// Detail cell of a clean violation: what it duplicates, else its issue.
pub open spec fn clean_detail(v: CleanViolation) -> Seq<char> {
    match opt_view(v.duplicate_of) {
        Some(d) => escape("duplicate of "@ + d),
        None => match opt_view(v.issue_ref) {
            Some(r) => escape(r),
            None => seq![],
        },
    }
}

pub open spec fn clean_row(v: CleanViolation) -> Seq<char> {
    "| "@ + escape(v.file@) + " | "@ + decimal(v.line as nat) + " | "@ + escape(v.rule@) + " | "@
        + escape(v.message@) + " | "@ + clean_detail(v) + " |"@
}

pub open spec fn clean_lines(r: CleanResult) -> Seq<Seq<char>> {
    (if r.passed {
        seq![
            "## PASS"@,
            seq![],
            "All clean checks passed ("@ + decimal(r.total_items as nat) + " items total)."@,
        ]
    } else {
        seq![
            "## FAIL"@,
            seq![],
            "| File | Line | Rule | Message | Detail |"@,
            "|------|------|------|---------|--------|"@,
        ] + r.violations@.map_values(|v: CleanViolation| clean_row(v)) + seq![
            seq![],
            "**"@ + decimal(r.violations@.len()) + " violations ("@ + decimal(r.stale_count as nat)
                + " stale, "@ + decimal(r.duplicate_count as nat) + " duplicates) in "@ + decimal(
                r.total_items as nat,
            ) + " items**"@,
        ]
    }) + seq![seq![]]
}

fn clean_row_exec(v: &CleanViolation) -> (res: Vec<char>)
    ensures
        res@ == clean_row(*v),
{
    let mut out = chars_of("| ");
    push_escaped_str(&mut out, v.file.as_str());
    push_all(&mut out, &chars_of(" | "));
    push_decimal(&mut out, v.line as u64);
    push_all(&mut out, &chars_of(" | "));
    push_escaped_str(&mut out, v.rule.as_str());
    push_all(&mut out, &chars_of(" | "));
    push_escaped_str(&mut out, v.message.as_str());
    push_all(&mut out, &chars_of(" | "));
    match &v.duplicate_of {
        Some(d) => {
            let mut t = chars_of("duplicate of ");
            push_all(&mut t, &chars_of(d.as_str()));
            push_escaped(&mut out, &t);
        },
        None => match &v.issue_ref {
            Some(r) => push_escaped_str(&mut out, r.as_str()),
            None => {},
        },
    }
    push_all(&mut out, &chars_of(" |"));
    assert(out@ =~= clean_row(*v));
    out
}

/// Render a clean result in markdown.
pub fn format_clean(result: &CleanResult) -> (res: String)
    ensures
        res@ == join_with(clean_lines(*result), seq!['\n']),
{
    let mut lines: Vec<Vec<char>> = Vec::new();
    if result.passed {
        push_piece(&mut lines, chars_of("## PASS"));
        push_piece(&mut lines, Vec::new());
        let mut s = chars_of("All clean checks passed (");
        push_decimal(&mut s, result.total_items as u64);
        push_all(&mut s, &chars_of(" items total)."));
        push_piece(&mut lines, s);
    } else {
        push_piece(&mut lines, chars_of("## FAIL"));
        push_piece(&mut lines, Vec::new());
        push_piece(&mut lines, chars_of("| File | Line | Rule | Message | Detail |"));
        push_piece(&mut lines, chars_of("|------|------|------|---------|--------|"));
        let ghost head = views(lines@);
        let ghost rows = result.violations@.map_values(|v: CleanViolation| clean_row(v));
        let mut i: usize = 0;
        while i < result.violations.len()
            invariant
                i <= result.violations@.len(),
                rows == result.violations@.map_values(|v: CleanViolation| clean_row(v)),
                views(lines@) == head + rows.take(i as int),
            decreases result.violations@.len() - i,
        {
            let r = clean_row_exec(&result.violations[i]);
            push_piece(&mut lines, r);
            assert(rows.take(i + 1) =~= rows.take(i as int).push(r@));
            i += 1;
        }
        assert(rows.take(result.violations@.len() as int) =~= rows);
        push_piece(&mut lines, Vec::new());
        let mut s = chars_of("**");
        push_decimal(&mut s, result.violations.len() as u64);
        push_all(&mut s, &chars_of(" violations ("));
        push_decimal(&mut s, result.stale_count as u64);
        push_all(&mut s, &chars_of(" stale, "));
        push_decimal(&mut s, result.duplicate_count as u64);
        push_all(&mut s, &chars_of(" duplicates) in "));
        push_decimal(&mut s, result.total_items as u64);
        push_all(&mut s, &chars_of(" items**"));
        push_piece(&mut lines, s);
    }
    push_piece(&mut lines, Vec::new());
    assert(views(lines@) =~= clean_lines(*result));
    join_lines(&lines)
}

} // verus!
