//! Finding TODO-style comments in text.
//!
//! A line holds a TODO when the tag pattern (see
//! [`crate::config::Config::tags_pattern`]) matches it, the tag stands inside a
//! comment, and the tag is not glued to a following `-`.  Suppression markers
//! move an item from `items` to `ignored_items`.
use vstd::prelude::*;

use crate::deadline::{deadline_of, parse_deadline_chars, Deadline};
use crate::model::{tag_from_text, Priority, ScanResult, Tag, TodoItem, TodoItemView, item_views};
use crate::pattern::{group_view, groups_view, regex_accepts, regex_captures, Group, Pattern};
use crate::text::{
    chars_of, contains, contains_exec, count_char, find, find_exec, index_of_char,
    index_of_char_exec, lemma_index_of_char, occurs_at, occurs_at_exec, split_lines,
    split_lines_exec, string_from_chars, sub_chars, trim, trim_chars, trim_start,
    trim_start_len, views,
};

verus! {

/// Largest file (10 MiB) that a directory scan reads.
pub const MAX_FILE_SIZE: u64 = 10485760;

// ───────────────────────── comment detection ─────────────────────────

/// The quote-parity heuristic: an even number of `"` in `s`.
pub open spec fn quotes_even(s: Seq<char>) -> bool {
    count_char(s, '"') % 2 == 0
}

/// One of the comment openers `//`, `#`, `/*`, `--`, `<!--`, `;`, `(*`, `{-`, `%`
/// starts at position `i` of `s`.
pub open spec fn comment_opener_at(s: Seq<char>, i: int) -> bool {
    ||| occurs_at(s, seq!['/', '/'], i)
    ||| occurs_at(s, seq!['#'], i)
    ||| occurs_at(s, seq!['/', '*'], i)
    ||| occurs_at(s, seq!['-', '-'], i)
    ||| occurs_at(s, seq!['<', '!', '-', '-'], i)
    ||| occurs_at(s, seq![';'], i)
    ||| occurs_at(s, seq!['(', '*'], i)
    ||| occurs_at(s, seq!['{', '-'], i)
    ||| occurs_at(s, seq!['%'], i)
}

/// The text before a tag opens a comment: some comment opener stands outside
/// any string literal (an even number of quotes before it), or the text is
/// white space followed by `*` (a block-comment continuation line).
pub open spec fn in_comment(before: Seq<char>) -> bool {
    ||| exists|i: int|
        0 <= i <= before.len() && #[trigger] comment_opener_at(before, i) && quotes_even(
            before.take(i),
        )
    ||| {
        let t = trim_start(before);
        t.len() > 0 && t[0] == '*' && quotes_even(before.take(before.len() - t.len()))
    }
}

fn comment_opener_at_exec(s: &[char], i: usize) -> (res: bool)
    ensures
        res == comment_opener_at(s@, i as int),
{
    let p0 = vec!['/', '/'];
    let p1 = vec!['#'];
    let p2 = vec!['/', '*'];
    let p3 = vec!['-', '-'];
    let p4 = vec!['<', '!', '-', '-'];
    let p5 = vec![';'];
    let p6 = vec!['(', '*'];
    let p7 = vec!['{', '-'];
    let p8 = vec!['%'];
    assert(p0@ =~= seq!['/', '/']);
    assert(p1@ =~= seq!['#']);
    assert(p2@ =~= seq!['/', '*']);
    assert(p3@ =~= seq!['-', '-']);
    assert(p4@ =~= seq!['<', '!', '-', '-']);
    assert(p5@ =~= seq![';']);
    assert(p6@ =~= seq!['(', '*']);
    assert(p7@ =~= seq!['{', '-']);
    assert(p8@ =~= seq!['%']);
    occurs_at_exec(s, &p0, i) || occurs_at_exec(s, &p1, i) || occurs_at_exec(s, &p2, i)
        || occurs_at_exec(s, &p3, i) || occurs_at_exec(s, &p4, i) || occurs_at_exec(s, &p5, i)
        || occurs_at_exec(s, &p6, i) || occurs_at_exec(s, &p7, i) || occurs_at_exec(s, &p8, i)
}

proof fn lemma_count_char_step(s: Seq<char>, i: int, c: char)
    requires
        0 <= i < s.len(),
    ensures
        count_char(s.take(i + 1), c) == count_char(s.take(i), c) + if s[i] == c {
            1nat
        } else {
            0nat
        },
{
    assert(s.take(i + 1).drop_last() =~= s.take(i));
}

/// Number of `"` among the first `pos` characters.
fn count_quotes(s: &[char], pos: usize) -> (res: usize)
    requires
        pos <= s@.len(),
    ensures
        res == count_char(s@.take(pos as int), '"'),
{
    let mut q: usize = 0;
    let mut i: usize = 0;
    assert(s@.take(0) =~= Seq::<char>::empty());
    while i < pos
        invariant
            i <= pos <= s@.len(),
            q == count_char(s@.take(i as int), '"'),
            q <= i,
        decreases pos - i,
    {
        proof {
            lemma_count_char_step(s@, i as int, '"');
        }
        if s[i] == '"' {
            q += 1;
        }
        i += 1;
    }
    q
}

/// Quote-parity heuristic: the position `pos` of `text` (in characters) lies
/// outside any string literal when an even number of `"` precede it.
pub fn prefix_outside_quotes(text: &str, pos: usize) -> (res: bool)
    requires
        pos <= text@.len(),
    ensures
        res == quotes_even(text@.take(pos as int)),
{
    let cs = chars_of(text);
    count_quotes(&cs, pos) % 2 == 0
}

/// [`in_comment`] on the characters before a tag.
pub fn in_comment_chars(before: &[char]) -> (res: bool)
    ensures
        res == in_comment(before@),
{
    let n = before.len();
    let mut q: usize = 0;
    let mut i: usize = 0;
    assert(before@.take(0) =~= Seq::<char>::empty());
    while i < n
        invariant
            n == before@.len(),
            i <= n,
            q == count_char(before@.take(i as int), '"'),
            q <= i,
            forall|j: int|
                0 <= j < i ==> !(#[trigger] comment_opener_at(before@, j) && quotes_even(
                    before@.take(j),
                )),
        decreases n - i,
    {
        if q % 2 == 0 && comment_opener_at_exec(before, i) {
            assert(comment_opener_at(before@, i as int) && quotes_even(before@.take(i as int)));
            return true;
        }
        proof {
            lemma_count_char_step(before@, i as int, '"');
        }
        if before[i] == '"' {
            q += 1;
        }
        i += 1;
    }
    if q % 2 == 0 && comment_opener_at_exec(before, n) {
        assert(comment_opener_at(before@, n as int) && quotes_even(before@.take(n as int)));
        return true;
    }
    assert forall|j: int| 0 <= j <= before@.len() implies !(#[trigger] comment_opener_at(
        before@,
        j,
    ) && quotes_even(before@.take(j))) by {}
    let lead = trim_start_len(before);
    if lead < n && before[lead] == '*' {
        count_quotes(before, lead) % 2 == 0
    } else {
        false
    }
}

/// Heuristic: does the tag starting at character `tag_start` of `line` appear
/// inside a comment?
pub fn is_in_comment(line: &str, tag_start: usize) -> (res: bool)
    requires
        tag_start <= line@.len(),
    ensures
        res == in_comment(line@.take(tag_start as int)),
{
    let cs = chars_of(line);
    let before = sub_chars(&cs, 0, tag_start);
    assert(before@ =~= line@.take(tag_start as int));
    in_comment_chars(&before)
}

// ───────────────────────── parenthesized metadata ─────────────────────────

/// `Some(s)` unless `s` is empty.
pub open spec fn nonempty(s: Seq<char>) -> Option<Seq<char>> {
    if s.len() == 0 {
        None
    } else {
        Some(s)
    }
}

/// What [`parse_paren_content`] returns: `(author, deadline)` from the text in
/// the parentheses after a tag: `author`, `date`, `author, date` or
/// `date, author`; a comma-separated text with no date is all author.
pub open spec fn paren_content(s0: Seq<char>) -> (Option<Seq<char>>, Option<Deadline>) {
    let s = trim(s0);
    if s.len() == 0 {
        (None, None)
    } else {
        match index_of_char(s, ',') {
            Some(idx) => {
                let left = trim(s.take(idx as int));
                let right = trim(s.skip(idx + 1 as int));
                match deadline_of(right) {
                    Some(d) => (nonempty(left), Some(d)),
                    None => match deadline_of(left) {
                        Some(d) => (nonempty(right), Some(d)),
                        None => (Some(s), None),
                    },
                }
            },
            None => match deadline_of(s) {
                Some(d) => (None, Some(d)),
                None => (Some(s), None),
            },
        }
    }
}

fn nonempty_string(s: &[char]) -> (res: Option<String>)
    ensures
        match res {
            Some(t) => nonempty(s@) == Some(t@),
            None => nonempty(s@) is None,
        },
{
    if s.len() == 0 {
        None
    } else {
        Some(string_from_chars(s))
    }
}

/// Plain view of an optional author.
pub open spec fn author_view(o: Option<String>) -> Option<Seq<char>> {
    match o {
        Some(s) => Some(s@),
        None => None,
    }
}

/// [`parse_paren_content`] on characters.
pub fn parse_paren_chars(s0: &[char]) -> (res: (Option<String>, Option<Deadline>))
    ensures
        (author_view(res.0), res.1) == paren_content(s0@),
{
    let s = trim_chars(s0);
    if s.len() == 0 {
        return (None, None);
    }
    match index_of_char_exec(&s, ',') {
        Some(idx) => {
            proof {
                lemma_index_of_char(s@, ',');
            }
            let l0 = sub_chars(&s, 0, idx);
            let r0 = sub_chars(&s, idx + 1, s.len());
            assert(l0@ =~= s@.take(idx as int));
            assert(r0@ =~= s@.skip(idx + 1 as int));
            let left = trim_chars(&l0);
            let right = trim_chars(&r0);
            match parse_deadline_chars(&right) {
                Some(d) => {
                    let a = nonempty_string(&left);
                    (a, Some(d))
                },
                None => {
                    match parse_deadline_chars(&left) {
                        Some(d) => {
                            let a = nonempty_string(&right);
                            (a, Some(d))
                        },
                        None => (Some(string_from_chars(&s)), None),
                    }
                },
            }
        },
        None => {
            match parse_deadline_chars(&s) {
                Some(d) => (None, Some(d)),
                None => (Some(string_from_chars(&s)), None),
            }
        },
    }
}

/// Parse the parenthesized text after a tag into `(author, deadline)`.
pub fn parse_paren_content(s: &str) -> (res: (Option<String>, Option<Deadline>))
    ensures
        (author_view(res.0), res.1) == paren_content(s@),
{
    let cs = chars_of(s);
    parse_paren_chars(&cs)
}

// ───────────────────────── issue references ─────────────────────────

/// Source of the issue-reference pattern: `JIRA-456` or `#123`.
pub open spec fn issue_ref_source() -> Seq<char> {
    "(?:([A-Z]+-\\d+)|#(\\d+))"@
}

/// Text of capture group `k`, when it took part in the match.
pub open spec fn group_text(gs: Seq<Option<(Seq<char>, Seq<char>)>>, k: int) -> Option<Seq<char>> {
    if 0 <= k < gs.len() {
        match gs[k] {
            Some(g) => Some(g.1),
            None => None,
        }
    } else {
        None
    }
}

/// The issue reference that a match of the issue pattern denotes: the
/// `JIRA-456` text, or `#` and the number.
pub open spec fn issue_ref_of_captures(c: Option<Seq<Option<(Seq<char>, Seq<char>)>>>) -> Option<
    Seq<char>,
> {
    match c {
        Some(gs) => match group_text(gs, 1) {
            Some(t) => Some(t),
            None => match group_text(gs, 2) {
                Some(t) => Some(seq!['#'] + t),
                None => None,
            },
        },
        None => None,
    }
}

/// What [`extract_issue_ref`] returns for `message`.
pub open spec fn issue_ref_of(message: Seq<char>) -> Option<Seq<char>> {
    if regex_accepts(issue_ref_source()) {
        issue_ref_of_captures(regex_captures(issue_ref_source(), message))
    } else {
        None
    }
}

/// Text of group `k` of a match.
pub fn group_text_exec(gs: &Vec<Option<Group>>, k: usize) -> (res: Option<String>)
    ensures
        match res {
            Some(t) => group_text(groups_view(gs@), k as int) == Some(t@),
            None => group_text(groups_view(gs@), k as int) is None,
        },
{
    if k < gs.len() {
        match &gs[k] {
            Some(g) => {
                assert(groups_view(gs@)[k as int] == group_view(gs@[k as int]));
                Some(g.text.clone())
            },
            None => {
                assert(groups_view(gs@)[k as int] == group_view(gs@[k as int]));
                None
            },
        }
    } else {
        None
    }
}

/// The issue reference denoted by the result of matching the issue pattern.
pub fn issue_ref_from_captures(caps: Option<Vec<Option<Group>>>) -> (res: Option<String>)
    ensures
        author_view(res) == issue_ref_of_captures(
            match caps {
                Some(gs) => Some(groups_view(gs@)),
                None => None,
            },
        ),
{
    match caps {
        Some(gs) => match group_text_exec(&gs, 1) {
            Some(t) => Some(t),
            None => match group_text_exec(&gs, 2) {
                Some(t) => {
                    let mut v = vec!['#'];
                    let tc = chars_of(t.as_str());
                    crate::text::push_all(&mut v, &tc);
                    assert(v@ =~= seq!['#'] + t@);
                    Some(string_from_chars(&v))
                },
                None => None,
            },
        },
        None => None,
    }
}

/// The compiled issue-reference pattern, when the `regex` crate accepts it.
pub fn issue_ref_pattern() -> (res: Option<Pattern>)
    ensures
        res is Some <==> regex_accepts(issue_ref_source()),
        res matches Some(p) ==> p@ == issue_ref_source(),
{
    Pattern::new("(?:([A-Z]+-\\d+)|#(\\d+))")
}

fn issue_ref_with(p: &Option<Pattern>, message: &str) -> (res: Option<String>)
    requires
        p is Some <==> regex_accepts(issue_ref_source()),
        p matches Some(q) ==> q@ == issue_ref_source(),
    ensures
        author_view(res) == issue_ref_of(message@),
{
    match p {
        Some(q) => issue_ref_from_captures(q.captures(message)),
        None => None,
    }
}

/// Extract an issue reference (`#123` or `JIRA-456`) from a message.
pub fn extract_issue_ref(message: &str) -> (res: Option<String>)
    ensures
        author_view(res) == issue_ref_of(message@),
{
    let p = issue_ref_pattern();
    issue_ref_with(&p, message)
}

// ───────────────────────── scanning ─────────────────────────

/// Marker that suppresses the TODO on its own line.
pub open spec fn ignore_marker() -> Seq<char> {
    "todo-scan:ignore"@
}

/// Marker that suppresses the TODO on the next line.
pub open spec fn ignore_next_marker() -> Seq<char> {
    "todo-scan:ignore-next-line"@
}

/// Priority given by the `!`/`!!` capture.
pub open spec fn priority_of(bang: Option<Seq<char>>) -> Priority {
    if bang == Some(seq!['!', '!']) {
        Priority::Urgent
    } else if bang == Some(seq!['!']) {
        Priority::High
    } else {
        Priority::Normal
    }
}

/// Line `j` (0-based) is suppressed by a next-line marker on line `j - 1`,
/// unless it is blank.
pub open spec fn next_line_suppressed(lines: Seq<Seq<char>>, j: int) -> bool {
    1 <= j < lines.len() && contains(lines[j - 1], ignore_next_marker()) && trim(lines[j]).len() > 0
}

/// Message of an item: the trimmed message capture; on a line with an inline
/// ignore marker, the text before the marker, trimmed again.
pub open spec fn message_of(line: Seq<char>, gs: Seq<Option<(Seq<char>, Seq<char>)>>) -> Seq<char> {
    let m = match group_text(gs, 4) {
        Some(t) => trim(t),
        None => Seq::empty(),
    };
    let inline = contains(line, ignore_marker()) && !contains(line, ignore_next_marker());
    if inline {
        match find(m, ignore_marker()) {
            Some(pos) => trim(m.take(pos as int)),
            None => m,
        }
    } else {
        m
    }
}

/// The item that a match of the tag pattern on line `idx` (0-based) yields,
/// with whether it is suppressed; `None` when the line holds no TODO.
pub open spec fn item_of_match(
    line: Seq<char>,
    idx: int,
    file: Seq<char>,
    gs: Seq<Option<(Seq<char>, Seq<char>)>>,
    suppressed_next: bool,
) -> Option<(TodoItemView, bool)> {
    if gs.len() < 2 || gs[1] is None {
        None
    } else {
        let g1 = gs[1]->0;
        let before = g1.0;
        let tag_text = g1.1;
        let end = before.len() + tag_text.len();
        if !in_comment(before) {
            None
        } else if end < line.len() && line[end as int] == '-' {
            None
        } else {
            match tag_from_text(tag_text) {
                None => None,
                Some(tag) => {
                    let ad = match group_text(gs, 2) {
                        Some(t) => paren_content(t),
                        None => (None, None),
                    };
                    let message = message_of(line, gs);
                    let inline = contains(line, ignore_marker()) && !contains(
                        line,
                        ignore_next_marker(),
                    );
                    Some(
                        (
                            TodoItemView {
                                file,
                                line: (idx + 1) as usize,
                                tag,
                                message,
                                author: ad.0,
                                issue_ref: issue_ref_of(message),
                                priority: priority_of(group_text(gs, 3)),
                                deadline: ad.1,
                            },
                            inline || suppressed_next,
                        ),
                    )
                },
            }
        }
    }
}

/// The item on line `idx` of a file, given the tag pattern's source.
pub open spec fn scan_line(
    line: Seq<char>,
    idx: int,
    file: Seq<char>,
    pattern: Seq<char>,
    suppressed_next: bool,
) -> Option<(TodoItemView, bool)> {
    match regex_captures(pattern, line) {
        Some(gs) => item_of_match(line, idx, file, gs, suppressed_next),
        None => None,
    }
}

/// Items and suppressed items of the first `n` lines.
pub open spec fn scan_lines(lines: Seq<Seq<char>>, file: Seq<char>, pattern: Seq<char>, n: nat) -> (
    Seq<TodoItemView>,
    Seq<TodoItemView>,
)
    decreases n,
{
    if n == 0 {
        (Seq::empty(), Seq::empty())
    } else {
        let prev = scan_lines(lines, file, pattern, (n - 1) as nat);
        match scan_line(
            lines[n - 1],
            n - 1,
            file,
            pattern,
            next_line_suppressed(lines, n - 1),
        ) {
            Some((it, true)) => (prev.0, prev.1.push(it)),
            Some((it, false)) => (prev.0.push(it), prev.1),
            None => prev,
        }
    }
}

/// What [`scan_content`] finds in `content`: (items, suppressed items).
pub open spec fn scan_content_spec(content: Seq<char>, file: Seq<char>, pattern: Seq<char>) -> (
    Seq<TodoItemView>,
    Seq<TodoItemView>,
) {
    let lines = split_lines(content);
    scan_lines(lines, file, pattern, lines.len())
}

/// A scan made through the cache, with how many files the cache answered and
/// how many were read and scanned afresh.
#[derive(Debug)]
pub struct CachedScanResult {
    pub result: ScanResult,
    pub cache_hits: usize,
    pub cache_misses: usize,
}

/// Result of scanning content: matched items and suppressed items.
pub struct ScanContentResult {
    pub items: Vec<TodoItem>,
    pub ignored_items: Vec<TodoItem>,
}

/// The item that a match of the tag pattern yields on a line (see
/// [`item_of_match`]).  `issue_pattern` is the compiled issue-reference
/// pattern, if the `regex` crate accepted it.
pub fn item_from_match(
    line: &[char],
    idx: usize,
    file: &str,
    gs: &Vec<Option<Group>>,
    suppressed_next: bool,
    issue_pattern: &Option<Pattern>,
) -> (res: Option<(TodoItem, bool)>)
    requires
        idx < usize::MAX,
        issue_pattern is Some <==> regex_accepts(issue_ref_source()),
        issue_pattern matches Some(q) ==> q@ == issue_ref_source(),
    ensures
        match res {
            Some((it, sup)) => item_of_match(line@, idx as int, file@, groups_view(gs@), suppressed_next)
                == Some((it@, sup)),
            None => item_of_match(line@, idx as int, file@, groups_view(gs@), suppressed_next) is None,
        },
{
    let ghost g = groups_view(gs@);
    if gs.len() < 2 {
        return None;
    }
    let g1 = match &gs[1] {
        Some(g1) => g1,
        None => {
            assert(g[1] == group_view(gs@[1]));
            return None;
        },
    };
    assert(g[1] == group_view(gs@[1]));
    let before = chars_of(g1.before.as_str());
    let tag_text = chars_of(g1.text.as_str());
    if !in_comment_chars(&before) {
        return None;
    }
    if before.len() < line.len() && tag_text.len() < line.len() - before.len() {
        let end = before.len() + tag_text.len();
        if line[end] == '-' {
            return None;
        }
    }
    let tag = match Tag::parse_tag_chars(&tag_text) {
        Some(t) => t,
        None => return None,
    };
    let (author, deadline) = match group_text_exec(gs, 2) {
        Some(t) => {
            let tc = chars_of(t.as_str());
            parse_paren_chars(&tc)
        },
        None => (None, None),
    };
    let priority = match group_text_exec(gs, 3) {
        Some(t) => {
            let tc = chars_of(t.as_str());
            if tc.len() == 2 && tc[0] == '!' && tc[1] == '!' {
                assert(tc@ =~= seq!['!', '!']);
                Priority::Urgent
            } else if tc.len() == 1 && tc[0] == '!' {
                assert(tc@ =~= seq!['!']);
                Priority::High
            } else {
                assert(tc@ != seq!['!', '!'] && tc@ != seq!['!']) by {
                    if tc@ == seq!['!', '!'] {
                        assert(tc@.len() == 2 && tc@[0] == '!' && tc@[1] == '!');
                    }
                    if tc@ == seq!['!'] {
                        assert(tc@.len() == 1 && tc@[0] == '!');
                    }
                }
                Priority::Normal
            }
        },
        None => Priority::Normal,
    };
    let m0 = match group_text_exec(gs, 4) {
        Some(t) => {
            let tc = chars_of(t.as_str());
            trim_chars(&tc)
        },
        None => Vec::new(),
    };
    let marker = chars_of("todo-scan:ignore");
    let next_marker = chars_of("todo-scan:ignore-next-line");
    let inline = contains_exec(line, &marker) && !contains_exec(line, &next_marker);
    let message = if inline {
        match find_exec(&m0, &marker) {
            Some(pos) => {
                proof {
                    crate::text::lemma_find_from_spec(m0@, marker@, 0);
                }
                let head = sub_chars(&m0, 0, pos);
                assert(head@ =~= m0@.take(pos as int));
                trim_chars(&head)
            },
            None => m0,
        }
    } else {
        m0
    };
    assert(message@ == message_of(line@, g));
    let message_s = string_from_chars(&message);
    let issue_ref = issue_ref_with(issue_pattern, message_s.as_str());
    let item = TodoItem {
        file: crate::text::str_to_string(file),
        line: idx + 1,
        tag,
        message: message_s,
        author,
        issue_ref,
        priority,
        deadline,
    };
    Some((item, inline || suppressed_next))
}

/// Which lines are suppressed by a next-line marker on the line before.
fn next_line_flags(lines: &Vec<Vec<char>>) -> (res: Vec<bool>)
    ensures
        res@.len() == lines@.len(),
        forall|j: int| 0 <= j < lines@.len() ==> res@[j] == next_line_suppressed(views(lines@), j),
{
    let next_marker = chars_of("todo-scan:ignore-next-line");
    let mut res: Vec<bool> = Vec::new();
    let mut j: usize = 0;
    while j < lines.len()
        invariant
            j <= lines@.len(),
            next_marker@ == ignore_next_marker(),
            res@.len() == j,
            forall|k: int| 0 <= k < j ==> res@[k] == next_line_suppressed(views(lines@), k),
        decreases lines@.len() - j,
    {
        let ghost ls = views(lines@);
        let f = if j >= 1 {
            let has = contains_exec(&lines[j - 1], &next_marker);
            if has {
                let t = trim_chars(&lines[j]);
                t.len() > 0
            } else {
                false
            }
        } else {
            false
        };
        assert(ls[j as int] == lines@[j as int]@);
        assert(j >= 1 ==> ls[j - 1] == lines@[j - 1]@);
        res.push(f);
        j += 1;
    }
    res
}

/// Scan text content line by line for TODO-style comments.
///
/// `pattern` is the compiled tag pattern; its groups are 1: tag, 2: text in
/// parentheses, 3: `!`/`!!`, 4: message.  A line with `todo-scan:ignore`
/// (and not `todo-scan:ignore-next-line`) has its item suppressed and the
/// marker cut from the message; a `todo-scan:ignore-next-line` line suppresses
/// the item on the following line unless that line is blank.
pub fn scan_content(content: &str, file_path: &str, pattern: &Pattern) -> (res: ScanContentResult)
    ensures
        item_views(res.items@) == scan_content_spec(content@, file_path@, pattern@).0,
        item_views(res.ignored_items@) == scan_content_spec(content@, file_path@, pattern@).1,
{
    let cs = chars_of(content);
    let lines = split_lines_exec(&cs);
    let ghost ls = split_lines(content@);
    assert(views(lines@) == ls);
    let flags = next_line_flags(&lines);
    let issue_pattern = issue_ref_pattern();
    let mut items: Vec<TodoItem> = Vec::new();
    let mut ignored: Vec<TodoItem> = Vec::new();
    let mut i: usize = 0;
    while i < lines.len()
        invariant
            i <= lines@.len(),
            views(lines@) == ls,
            flags@.len() == lines@.len(),
            forall|j: int| 0 <= j < lines@.len() ==> flags@[j] == next_line_suppressed(ls, j),
            issue_pattern is Some <==> regex_accepts(issue_ref_source()),
            issue_pattern matches Some(q) ==> q@ == issue_ref_source(),
            item_views(items@) == scan_lines(ls, file_path@, pattern@, i as nat).0,
            item_views(ignored@) == scan_lines(ls, file_path@, pattern@, i as nat).1,
        decreases lines@.len() - i,
    {
        assert(ls[i as int] == lines@[i as int]@);
        let line_s = string_from_chars(&lines[i]);
        let caps = pattern.captures(line_s.as_str());
        let r = match caps {
            Some(gs) => item_from_match(&lines[i], i, file_path, &gs, flags[i], &issue_pattern),
            None => None,
        };
        match r {
            Some((it, true)) => {
                let ghost old = ignored@;
                ignored.push(it);
                assert(item_views(ignored@) =~= item_views(old).push(it@));
            },
            Some((it, false)) => {
                let ghost old = items@;
                items.push(it);
                assert(item_views(items@) =~= item_views(old).push(it@));
            },
            None => {},
        }
        i += 1;
    }
    ScanContentResult { items, ignored_items: ignored }
}

} // verus!
