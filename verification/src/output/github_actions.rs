//! GitHub Actions workflow-command renderings of results (annotations).
use vstd::prelude::*;

use crate::deadline::deadline_text;
use crate::model::{
    github_level, severity_of, tag_name, BlameEntry, BlameResult, CheckResult, CheckViolation,
    DiffEntry, DiffResult, DiffStatus, ScanResult, SearchResult, Severity, TodoItem, TodoItemView,
    item_views,
};
use crate::text::{chars_of, decimal, join_lines, join_with, push_all, push_decimal, push_piece, views};

verus! {

// ───────────────────────── escaping ─────────────────────────

/// Escape of one character of a workflow command: `%`, line feed and carriage
/// return are percent-encoded, and in a property `:` and `,` too.
pub open spec fn gh_esc_char(c: char, property: bool) -> Seq<char> {
    if c == '%' {
        seq!['%', '2', '5']
    } else if c == '\n' {
        seq!['%', '0', 'A']
    } else if c == '\r' {
        seq!['%', '0', 'D']
    } else if property && c == ':' {
        seq!['%', '3', 'A']
    } else if property && c == ',' {
        seq!['%', '2', 'C']
    } else {
        seq![c]
    }
}

/// Escape of a message (`property` false) or a property value (`property` true).
pub open spec fn gh_escape(s: Seq<char>, property: bool) -> Seq<char>
    decreases s.len(),
{
    if s.len() == 0 {
        seq![]
    } else {
        gh_escape(s.drop_last(), property) + gh_esc_char(s.last(), property)
    }
}

/// Decoding of workflow-command escapes: `%25`, `%0A`, `%0D`, `%3A` and
/// `%2C` stand for `%`, line feed, carriage return, `:` and `,`.
pub open spec fn gh_unescape(s: Seq<char>) -> Seq<char>
    decreases s.len(),
{
    if s.len() == 0 {
        seq![]
    } else if s.len() >= 3 && s[0] == '%' && s[1] == '2' && s[2] == '5' {
        seq!['%'] + gh_unescape(s.skip(3))
    } else if s.len() >= 3 && s[0] == '%' && s[1] == '0' && s[2] == 'A' {
        seq!['\n'] + gh_unescape(s.skip(3))
    } else if s.len() >= 3 && s[0] == '%' && s[1] == '0' && s[2] == 'D' {
        seq!['\r'] + gh_unescape(s.skip(3))
    } else if s.len() >= 3 && s[0] == '%' && s[1] == '3' && s[2] == 'A' {
        seq![':'] + gh_unescape(s.skip(3))
    } else if s.len() >= 3 && s[0] == '%' && s[1] == '2' && s[2] == 'C' {
        seq![','] + gh_unescape(s.skip(3))
    } else {
        seq![s[0]] + gh_unescape(s.drop_first())
    }
}

proof fn lemma_gh_escape_concat(a: Seq<char>, b: Seq<char>, property: bool)
    ensures
        gh_escape(a + b, property) == gh_escape(a, property) + gh_escape(b, property),
    decreases b.len(),
{
    if b.len() == 0 {
        assert(a + b =~= a);
        assert(gh_escape(a, property) + gh_escape(b, property) =~= gh_escape(a, property));
    } else {
        lemma_gh_escape_concat(a, b.drop_last(), property);
        assert((a + b).drop_last() =~= a + b.drop_last());
        assert((a + b).last() == b.last());
        assert(gh_escape(a, property) + gh_escape(b, property) =~= gh_escape(a, property) + gh_escape(
            b.drop_last(),
            property,
        ) + gh_esc_char(b.last(), property));
    }
}

proof fn lemma_gh_unescape_char(c: char, rest: Seq<char>, property: bool)
    ensures
        gh_unescape(gh_esc_char(c, property) + rest) == seq![c] + gh_unescape(rest),
{
    let e = gh_esc_char(c, property) + rest;
    if gh_esc_char(c, property).len() == 3 {
        assert(e.skip(3) =~= rest);
    } else {
        assert(e.drop_first() =~= rest);
    }
}

/// Escaping for a workflow command can be undone: decoding the escaped text
/// gives the unescaped text back.
pub proof fn lemma_gh_escape_roundtrip(s: Seq<char>, property: bool)
    ensures
        gh_unescape(gh_escape(s, property)) == s,
    decreases s.len(),
{
    if s.len() > 0 {
        let t = s.drop_first();
        lemma_gh_escape_roundtrip(t, property);
        assert(s =~= seq![s[0]] + t);
        lemma_gh_escape_concat(seq![s[0]], t, property);
        let one = seq![s[0]];
        assert(one.drop_last() =~= Seq::<char>::empty());
        assert(gh_escape(one.drop_last(), property) == Seq::<char>::empty());
        assert(one.last() == s[0]);
        assert(gh_escape(one, property) == gh_escape(one.drop_last(), property) + gh_esc_char(s[0], property));
        assert(gh_escape(one, property) =~= gh_esc_char(s[0], property));
        lemma_gh_unescape_char(s[0], gh_escape(t, property), property);
    }
}

/// Escaped text has no line breaks, so a message cannot start a new
/// workflow command.
pub proof fn lemma_gh_escape_single_line(s: Seq<char>, property: bool)
    ensures
        forall|i: int| 0 <= i < gh_escape(s, property).len() ==> #[trigger] gh_escape(s, property)[i] != '\n' && gh_escape(
            s,
            property,
        )[i] != '\r',
    decreases s.len(),
{
    if s.len() > 0 {
        lemma_gh_escape_single_line(s.drop_last(), property);
        let a = gh_escape(s.drop_last(), property);
        let b = gh_esc_char(s.last(), property);
        assert forall|i: int| 0 <= i < (a + b).len() implies #[trigger] (a + b)[i] != '\n' && (a + b)[i] != '\r' by {
            if i >= a.len() {
                assert((a + b)[i] == b[i - a.len()]);
            } else {
                assert((a + b)[i] == a[i]);
            }
        }
    }
}

fn push_gh_escaped(out: &mut Vec<char>, s: &[char], property: bool)
    ensures
        final(out)@ == old(out)@ + gh_escape(s@, property),
{
    let mut i: usize = 0;
    assert(s@.take(0) =~= Seq::<char>::empty());
    assert(old(out)@ + gh_escape(s@.take(0), property) =~= old(out)@);
    while i < s.len()
        invariant
            i <= s@.len(),
            out@ == old(out)@ + gh_escape(s@.take(i as int), property),
        decreases s@.len() - i,
    {
        assert(s@.take(i + 1).drop_last() =~= s@.take(i as int));
        assert(s@.take(i + 1).last() == s@[i as int]);
        let c = s[i];
        let ghost before = out@;
        if c == '%' {
            out.push('%');
            out.push('2');
            out.push('5');
        } else if c == '\n' {
            out.push('%');
            out.push('0');
            out.push('A');
        } else if c == '\r' {
            out.push('%');
            out.push('0');
            out.push('D');
        } else if property && c == ':' {
            out.push('%');
            out.push('3');
            out.push('A');
        } else if property && c == ',' {
            out.push('%');
            out.push('2');
            out.push('C');
        } else {
            out.push(c);
        }
        assert(out@ =~= before + gh_esc_char(c, property));
        i += 1;
    }
    assert(s@.take(s@.len() as int) =~= s@);
}

/// Escape special characters per the workflow command syntax.
pub fn escape_message(s: &str) -> (res: Vec<char>)
    ensures
        res@ == gh_escape(s@, false),
{
    let mut out: Vec<char> = Vec::new();
    push_gh_escaped(&mut out, &chars_of(s), false);
    out
}

/// Escape a property value (additionally `:` and `,`).
pub fn escape_property(s: &str) -> (res: Vec<char>)
    ensures
        res@ == gh_escape(s@, true),
{
    let mut out: Vec<char> = Vec::new();
    push_gh_escaped(&mut out, &chars_of(s), true);
    out
}

// ───────────────────────── annotations ─────────────────────────

/// The annotation of an item, at the level of its severity.
pub open spec fn item_annotation(v: TodoItemView) -> Seq<char> {
    "::"@ + github_level(severity_of(v)) + " file="@ + gh_escape(v.file, true) + ",line="@ + decimal(v.line as nat)
        + ",title="@ + tag_name(v.tag) + "::["@ + tag_name(v.tag) + "] "@ + gh_escape(v.message, false) + (
    match v.deadline {
        Some(d) => " (deadline: "@ + deadline_text(d) + ")"@,
        None => seq![],
    })
}

fn item_annotation_exec(item: &TodoItem) -> (res: Vec<char>)
    ensures
        res@ == item_annotation(item@),
{
    let level = Severity::from_item(item).as_github_actions_str();
    let mut out = chars_of("::");
    push_all(&mut out, &chars_of(level));
    push_all(&mut out, &chars_of(" file="));
    push_all(&mut out, &escape_property(item.file.as_str()));
    push_all(&mut out, &chars_of(",line="));
    push_decimal(&mut out, item.line as u64);
    push_all(&mut out, &chars_of(",title="));
    push_all(&mut out, &item.tag.name_chars());
    push_all(&mut out, &chars_of("::["));
    push_all(&mut out, &item.tag.name_chars());
    push_all(&mut out, &chars_of("] "));
    push_all(&mut out, &escape_message(item.message.as_str()));
    match &item.deadline {
        Some(d) => {
            push_all(&mut out, &chars_of(" (deadline: "));
            push_all(&mut out, &d.to_text());
            push_all(&mut out, &chars_of(")"));
        },
        None => {},
    }
    assert(out@ =~= item_annotation(item@));
    out
}

pub open spec fn item_annotations(items: Seq<TodoItemView>) -> Seq<Seq<char>> {
    items.map_values(|v: TodoItemView| item_annotation(v))
}

fn item_annotations_exec(items: &Vec<TodoItem>) -> (res: Vec<Vec<char>>)
    ensures
        views(res@) == item_annotations(item_views(items@)),
{
    let mut lines: Vec<Vec<char>> = Vec::new();
    let ghost anns = item_annotations(item_views(items@));
    let mut i: usize = 0;
    while i < items.len()
        invariant
            i <= items@.len(),
            anns == item_annotations(item_views(items@)),
            views(lines@) == anns.take(i as int),
        decreases items@.len() - i,
    {
        let a = item_annotation_exec(&items[i]);
        push_piece(&mut lines, a);
        assert(anns.take(i + 1) =~= anns.take(i as int).push(a@));
        i += 1;
    }
    assert(anns.take(items@.len() as int) =~= anns);
    lines
}

/// Annotations of a scan's items and a summary notice.
pub open spec fn list_commands(items: Seq<TodoItemView>) -> Seq<Seq<char>> {
    item_annotations(items) + seq!["::notice::todox: "@ + decimal(items.len()) + " items found"@, seq![]]
}

/// Render a scan as workflow commands.
pub fn format_list(result: &ScanResult) -> (res: String)
    ensures
        res@ == join_with(list_commands(item_views(result.items@)), seq!['\n']),
{
    let mut lines = item_annotations_exec(&result.items);
    let mut s = chars_of("::notice::todox: ");
    push_decimal(&mut s, result.items.len() as u64);
    push_all(&mut s, &chars_of(" items found"));
    push_piece(&mut lines, s);
    push_piece(&mut lines, Vec::new());
    assert(views(lines@) =~= list_commands(item_views(result.items@)));
    join_lines(&lines)
}

/// Annotations of search results and a summary notice.
pub open spec fn search_commands(r: SearchResult) -> Seq<Seq<char>> {
    item_annotations(item_views(r.items@)) + seq![
        "::notice::todox search: "@ + decimal(r.match_count as nat) + " matches (query: \""@ + r.query@ + "\")"@,
        seq![],
    ]
}

/// Render search results as workflow commands.
pub fn format_search(result: &SearchResult) -> (res: String)
    ensures
        res@ == join_with(search_commands(*result), seq!['\n']),
{
    let mut lines = item_annotations_exec(&result.items);
    let mut s = chars_of("::notice::todox search: ");
    push_decimal(&mut s, result.match_count as u64);
    push_all(&mut s, &chars_of(" matches (query: \""));
    push_all(&mut s, &chars_of(result.query.as_str()));
    push_all(&mut s, &chars_of("\")"));
    push_piece(&mut lines, s);
    push_piece(&mut lines, Vec::new());
    assert(views(lines@) =~= search_commands(*result));
    join_lines(&lines)
}

/// Annotation of a diff entry: an added item as an item annotation, a
/// removed one as a notice.
pub open spec fn diff_annotation(e: DiffEntry) -> Seq<char> {
    match e.status {
        DiffStatus::Added => item_annotation(e.item@),
        DiffStatus::Removed => "::notice file="@ + gh_escape(e.item.file@, true) + ",line="@ + decimal(
            e.item.line as nat,
        ) + ",title=Removed "@ + tag_name(e.item.tag) + "::["@ + tag_name(e.item.tag) + "] "@ + gh_escape(
            e.item.message@,
            false,
        ),
    }
}

pub open spec fn diff_commands(r: DiffResult) -> Seq<Seq<char>> {
    r.entries@.map_values(|e: DiffEntry| diff_annotation(e)) + seq![
        "::notice::todox diff: +"@ + decimal(r.added_count as nat) + " -"@ + decimal(r.removed_count as nat),
        seq![],
    ]
}

fn diff_annotation_exec(e: &DiffEntry) -> (res: Vec<char>)
    ensures
        res@ == diff_annotation(*e),
{
    match e.status {
        DiffStatus::Added => item_annotation_exec(&e.item),
        DiffStatus::Removed => {
            let mut out = chars_of("::notice file=");
            push_all(&mut out, &escape_property(e.item.file.as_str()));
            push_all(&mut out, &chars_of(",line="));
            push_decimal(&mut out, e.item.line as u64);
            push_all(&mut out, &chars_of(",title=Removed "));
            push_all(&mut out, &e.item.tag.name_chars());
            push_all(&mut out, &chars_of("::["));
            push_all(&mut out, &e.item.tag.name_chars());
            push_all(&mut out, &chars_of("] "));
            push_all(&mut out, &escape_message(e.item.message.as_str()));
            assert(out@ =~= diff_annotation(*e));
            out
        },
    }
}

/// Render a diff as workflow commands.
pub fn format_diff(result: &DiffResult) -> (res: String)
    ensures
        res@ == join_with(diff_commands(*result), seq!['\n']),
{
    let mut lines: Vec<Vec<char>> = Vec::new();
    let ghost rows = result.entries@.map_values(|e: DiffEntry| diff_annotation(e));
    let mut i: usize = 0;
    while i < result.entries.len()
        invariant
            i <= result.entries@.len(),
            rows == result.entries@.map_values(|e: DiffEntry| diff_annotation(e)),
            views(lines@) == rows.take(i as int),
        decreases result.entries@.len() - i,
    {
        let a = diff_annotation_exec(&result.entries[i]);
        push_piece(&mut lines, a);
        assert(rows.take(i + 1) =~= rows.take(i as int).push(a@));
        i += 1;
    }
    assert(rows.take(result.entries@.len() as int) =~= rows);
    let mut s = chars_of("::notice::todox diff: +");
    push_decimal(&mut s, result.added_count as u64);
    push_all(&mut s, &chars_of(" -"));
    push_decimal(&mut s, result.removed_count as u64);
    push_piece(&mut lines, s);
    push_piece(&mut lines, Vec::new());
    assert(views(lines@) =~= diff_commands(*result));
    join_lines(&lines)
}

/// Annotation of a blame entry: a warning when stale, else a notice.
pub open spec fn blame_annotation(e: BlameEntry) -> Seq<char> {
    let tag = tag_name(e.item.tag);
    "::"@ + (if e.stale {
        "warning"@
    } else {
        "notice"@
    }) + " file="@ + gh_escape(e.item.file@, true) + ",line="@ + decimal(e.item.line as nat) + ",title="@ + (
    if e.stale {
        "Stale "@ + tag
    } else {
        tag
    }) + "::"@ + gh_escape(
        "["@ + tag + "] "@ + e.item.message@ + " @"@ + e.blame.author@ + " "@ + e.blame.date@ + " ("@ + decimal(
            e.blame.age_days as nat,
        ) + " days ago)"@,
        false,
    )
}

pub open spec fn blame_commands(r: BlameResult) -> Seq<Seq<char>> {
    r.entries@.map_values(|e: BlameEntry| blame_annotation(e)) + seq![
        "::notice::todox blame: "@ + decimal(r.total as nat) + " items, "@ + decimal(r.stale_count as nat)
            + " stale"@,
        seq![],
    ]
}

fn blame_annotation_exec(e: &BlameEntry) -> (res: Vec<char>)
    ensures
        res@ == blame_annotation(*e),
{
    let tag = e.item.tag.name_chars();
    let mut out = chars_of("::");
    if e.stale {
        push_all(&mut out, &chars_of("warning"));
    } else {
        push_all(&mut out, &chars_of("notice"));
    }
    push_all(&mut out, &chars_of(" file="));
    push_all(&mut out, &escape_property(e.item.file.as_str()));
    push_all(&mut out, &chars_of(",line="));
    push_decimal(&mut out, e.item.line as u64);
    push_all(&mut out, &chars_of(",title="));
    if e.stale {
        push_all(&mut out, &chars_of("Stale "));
    }
    push_all(&mut out, &tag);
    push_all(&mut out, &chars_of("::"));
    let mut m = chars_of("[");
    push_all(&mut m, &tag);
    push_all(&mut m, &chars_of("] "));
    push_all(&mut m, &chars_of(e.item.message.as_str()));
    push_all(&mut m, &chars_of(" @"));
    push_all(&mut m, &chars_of(e.blame.author.as_str()));
    push_all(&mut m, &chars_of(" "));
    push_all(&mut m, &chars_of(e.blame.date.as_str()));
    push_all(&mut m, &chars_of(" ("));
    push_decimal(&mut m, e.blame.age_days);
    push_all(&mut m, &chars_of(" days ago)"));
    push_gh_escaped(&mut out, &m, false);
    assert(out@ =~= blame_annotation(*e));
    out
}

/// Render a blame report as workflow commands.
pub fn format_blame(result: &BlameResult) -> (res: String)
    ensures
        res@ == join_with(blame_commands(*result), seq!['\n']),
{
    let mut lines: Vec<Vec<char>> = Vec::new();
    let ghost rows = result.entries@.map_values(|e: BlameEntry| blame_annotation(e));
    let mut i: usize = 0;
    while i < result.entries.len()
        invariant
            i <= result.entries@.len(),
            rows == result.entries@.map_values(|e: BlameEntry| blame_annotation(e)),
            views(lines@) == rows.take(i as int),
        decreases result.entries@.len() - i,
    {
        let a = blame_annotation_exec(&result.entries[i]);
        push_piece(&mut lines, a);
        assert(rows.take(i + 1) =~= rows.take(i as int).push(a@));
        i += 1;
    }
    assert(rows.take(result.entries@.len() as int) =~= rows);
    let mut s = chars_of("::notice::todox blame: ");
    push_decimal(&mut s, result.total as u64);
    push_all(&mut s, &chars_of(" items, "));
    push_decimal(&mut s, result.stale_count as u64);
    push_all(&mut s, &chars_of(" stale"));
    push_piece(&mut lines, s);
    push_piece(&mut lines, Vec::new());
    assert(views(lines@) =~= blame_commands(*result));
    join_lines(&lines)
}

pub open spec fn check_command(v: CheckViolation) -> Seq<char> {
    "::error title="@ + v.rule@ + "::"@ + gh_escape(v.message@, false)
}

pub open spec fn check_commands(r: CheckResult) -> Seq<Seq<char>> {
    (if r.passed {
        seq!["::notice::todox check: PASS"@]
    } else {
        r.violations@.map_values(|v: CheckViolation| check_command(v)) + seq!["::error::todox check: FAIL"@]
    }) + seq![seq![]]
}

/// Render a check result as workflow commands.
pub fn format_check(result: &CheckResult) -> (res: String)
    ensures
        res@ == join_with(check_commands(*result), seq!['\n']),
{
    let mut lines: Vec<Vec<char>> = Vec::new();
    if result.passed {
        push_piece(&mut lines, chars_of("::notice::todox check: PASS"));
    } else {
        let ghost rows = result.violations@.map_values(|v: CheckViolation| check_command(v));
        let mut i: usize = 0;
        while i < result.violations.len()
            invariant
                i <= result.violations@.len(),
                rows == result.violations@.map_values(|v: CheckViolation| check_command(v)),
                views(lines@) == rows.take(i as int),
            decreases result.violations@.len() - i,
        {
            let v = &result.violations[i];
            let mut out = chars_of("::error title=");
            push_all(&mut out, &chars_of(v.rule.as_str()));
            push_all(&mut out, &chars_of("::"));
            push_all(&mut out, &escape_message(v.message.as_str()));
            assert(out@ =~= check_command(*v));
            push_piece(&mut lines, out);
            assert(rows.take(i + 1) =~= rows.take(i as int).push(check_command(*v)));
            i += 1;
        }
        assert(rows.take(result.violations@.len() as int) =~= rows);
        push_piece(&mut lines, chars_of("::error::todox check: FAIL"));
    }
    push_piece(&mut lines, Vec::new());
    assert(views(lines@) =~= check_commands(*result));
    join_lines(&lines)
}

} // verus!
