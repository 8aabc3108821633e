//! Source context around TODO items, and parsing of `file:line` locations.
//!
//! Reading files is left to the caller, which hands over their text.
use vstd::prelude::*;

use crate::model::{id_of, item_views, tag_name, TodoItem, TodoItemView};
use crate::text::{
    decimal, is_ascii_digit, lemma_decimal_value, lemma_parse_zero_padded, zero_padded,
    chars_of, parse_unsigned, parse_unsigned_exec, push_all, split_lines, split_lines_exec,
    string_from_chars, sub_chars, views,
};

verus! {

/// One numbered line of source text.
#[derive(Debug, Clone)]
pub struct ContextLine {
    pub line_number: usize,
    pub content: String,
}

/// Lines before and after a target line.
#[derive(Debug, Clone)]
pub struct ContextInfo {
    pub before: Vec<ContextLine>,
    pub after: Vec<ContextLine>,
}

/// Context of one TODO for the `context` command.
#[derive(Debug, Clone)]
pub struct RichContext {
    pub file: String,
    pub line: usize,
    pub before: Vec<ContextLine>,
    pub todo_line: String,
    pub after: Vec<ContextLine>,
    pub related_todos: Vec<RelatedTodo>,
}

/// Another TODO near the target line.
#[derive(Debug, Clone)]
pub struct RelatedTodo {
    pub line: usize,
    pub tag: String,
    pub message: String,
}

/// Model of a context line: (line number, text).
pub open spec fn context_line_view(c: ContextLine) -> (int, Seq<char>) {
    (c.line_number as int, c.content@)
}

pub open spec fn context_views(cs: Seq<ContextLine>) -> Seq<(int, Seq<char>)> {
    cs.map_values(|c: ContextLine| context_line_view(c))
}

/// Lines `from..to` (0-based) of `lines`, numbered from 1.
pub open spec fn numbered_lines(lines: Seq<Seq<char>>, from: int, to: int) -> Seq<(int, Seq<char>)> {
    Seq::new((to - from) as nat, |k: int| (from + k + 1, lines[from + k]))
}

/// Whether `target_line` (1-based) names a line of `lines`.
pub open spec fn names_line(lines: Seq<Seq<char>>, target_line: int) -> bool {
    1 <= target_line <= lines.len()
}

/// The up to `n` lines before the 1-based `target_line`, or none when the
/// target is not a line of the text.
pub open spec fn context_before(lines: Seq<Seq<char>>, target_line: int, n: int) -> Seq<(int, Seq<char>)> {
    if names_line(lines, target_line) {
        let idx = target_line - 1;
        numbered_lines(lines, if idx >= n { idx - n } else { 0 }, idx)
    } else {
        seq![]
    }
}

/// The up to `n` lines after the 1-based `target_line`, or none when the
/// target is not a line of the text.
pub open spec fn context_after(lines: Seq<Seq<char>>, target_line: int, n: int) -> Seq<(int, Seq<char>)> {
    if names_line(lines, target_line) {
        let idx = target_line - 1;
        let end = if idx + 1 + n <= lines.len() { idx + 1 + n } else { lines.len() as int };
        numbered_lines(lines, idx + 1, end)
    } else {
        seq![]
    }
}

fn numbered_lines_exec(lines: &Vec<Vec<char>>, from: usize, to: usize) -> (res: Vec<ContextLine>)
    requires
        from <= to <= lines@.len(),
    ensures
        context_views(res@) == numbered_lines(views(lines@), from as int, to as int),
{
    let mut res: Vec<ContextLine> = Vec::new();
    let mut i = from;
    while i < to
        invariant
            from <= i <= to <= lines@.len(),
            res@.len() == i - from,
            forall|k: int| 0 <= k < res@.len() ==> context_line_view(#[trigger] res@[k]) == (from + k + 1, lines@[from + k]@),
        decreases to - i,
    {
        res.push(ContextLine { line_number: i + 1, content: string_from_chars(&lines[i]) });
        i += 1;
    }
    assert(context_views(res@) =~= numbered_lines(views(lines@), from as int, to as int));
    res
}

fn context_of_lines(lines: &Vec<Vec<char>>, target_line: usize, n: usize) -> (res: ContextInfo)
    requires
        names_line(views(lines@), target_line as int) ==> target_line + n <= usize::MAX,
    ensures
        context_views(res.before@) == context_before(views(lines@), target_line as int, n as int),
        context_views(res.after@) == context_after(views(lines@), target_line as int, n as int),
{
    if target_line == 0 || target_line - 1 >= lines.len() {
        let empty: Vec<ContextLine> = Vec::new();
        assert(context_views(empty@) =~= seq![]);
        return ContextInfo { before: empty, after: Vec::new() };
    }
    let idx = target_line - 1;
    let before_start = if idx >= n {
        idx - n
    } else {
        0
    };
    let before = numbered_lines_exec(lines, before_start, idx);
    let after_end = if idx + 1 + n <= lines.len() {
        idx + 1 + n
    } else {
        lines.len()
    };
    let after = numbered_lines_exec(lines, idx + 1, after_end);
    ContextInfo { before, after }
}

/// Extract the context lines around a 1-based target line of `content`: up to
/// `n` lines before and `n` after, numbered from 1.  Both are empty when the
/// target is not a line of the text.
pub fn extract_context(content: &str, target_line: usize, n: usize) -> (res: ContextInfo)
    requires
        names_line(split_lines(content@), target_line as int) ==> target_line + n <= usize::MAX,
    ensures
        context_views(res.before@) == context_before(split_lines(content@), target_line as int, n as int),
        context_views(res.after@) == context_after(split_lines(content@), target_line as int, n as int),
{
    let cs = chars_of(content);
    let lines = split_lines_exec(&cs);
    context_of_lines(&lines, target_line, n)
}

/// The text of the 1-based line `line`, or empty when there is no such line.
pub open spec fn line_text(lines: Seq<Seq<char>>, line: int) -> Seq<char> {
    if names_line(lines, line) {
        lines[line - 1]
    } else {
        seq![]
    }
}

/// The context around `line` of a file's text, and the text of that line.
pub fn file_context(content: &str, line: usize, n: usize) -> (res: (ContextInfo, String))
    requires
        names_line(split_lines(content@), line as int) ==> line + n <= usize::MAX,
    ensures
        context_views(res.0.before@) == context_before(split_lines(content@), line as int, n as int),
        context_views(res.0.after@) == context_after(split_lines(content@), line as int, n as int),
        res.1@ == line_text(split_lines(content@), line as int),
{
    let cs = chars_of(content);
    let lines = split_lines_exec(&cs);
    let todo_line = if line > 0 && line <= lines.len() {
        string_from_chars(&lines[line - 1])
    } else {
        string_from_chars(&Vec::new())
    };
    let ctx = context_of_lines(&lines, line, n);
    (ctx, todo_line)
}

/// Model of a related TODO: (line, tag name, message).
pub open spec fn related_view(r: RelatedTodo) -> (int, Seq<char>, Seq<char>) {
    (r.line as int, r.tag@, r.message@)
}

pub open spec fn related_views(rs: Seq<RelatedTodo>) -> Seq<(int, Seq<char>, Seq<char>)> {
    rs.map_values(|r: RelatedTodo| related_view(r))
}

/// The TODOs other than the one on `line` that lie within `n` lines of it, in order.
pub open spec fn related_todos(items: Seq<TodoItemView>, line: int, n: int) -> Seq<(int, Seq<char>, Seq<char>)>
    decreases items.len(),
{
    if items.len() == 0 {
        seq![]
    } else {
        let rest = related_todos(items.drop_last(), line, n);
        let v = items.last();
        let start = if line >= n { line - n } else { 0 };
        if v.line != line && start <= v.line <= line + n {
            rest.push((v.line as int, tag_name(v.tag), v.message))
        } else {
            rest
        }
    }
}

/// Build the context of the TODO at `line` of `file`, whose text is `content`;
/// `todos_in_file` are the TODOs found in that file.
pub fn build_rich_context(file: &str, content: &str, line: usize, n: usize, todos_in_file: &Vec<TodoItem>) -> (res: RichContext)
    requires
        line + n <= usize::MAX,
    ensures
        res.file@ == file@,
        res.line == line,
        context_views(res.before@) == context_before(split_lines(content@), line as int, n as int),
        context_views(res.after@) == context_after(split_lines(content@), line as int, n as int),
        res.todo_line@ == line_text(split_lines(content@), line as int),
        related_views(res.related_todos@) == related_todos(item_views(todos_in_file@), line as int, n as int),
{
    let (ctx, todo_line) = file_context(content, line, n);
    let window_start = if line >= n {
        line - n
    } else {
        0
    };
    let window_end = line + n;
    let ghost items = item_views(todos_in_file@);
    let mut related: Vec<RelatedTodo> = Vec::new();
    let mut i: usize = 0;
    assert(items.take(0) =~= Seq::<TodoItemView>::empty());
    while i < todos_in_file.len()
        invariant
            items == item_views(todos_in_file@),
            i <= todos_in_file@.len(),
            window_start == (if line >= n { line - n } else { 0 }),
            window_end == line + n,
            related_views(related@) == related_todos(items.take(i as int), line as int, n as int),
        decreases todos_in_file@.len() - i,
    {
        assert(items.take(i + 1).drop_last() =~= items.take(i as int));
        assert(items.take(i + 1).last() == todos_in_file@[i as int]@);
        let item = &todos_in_file[i];
        if item.line != line && item.line >= window_start && item.line <= window_end {
            let r = RelatedTodo {
                line: item.line,
                tag: string_from_chars(&item.tag.name_chars()),
                message: item.message.clone(),
            };
            let ghost old = related@;
            related.push(r);
            assert(related_views(related@) =~= related_views(old).push(related_view(r)));
        }
        i += 1;
    }
    assert(items.take(todos_in_file@.len() as int) =~= items);
    RichContext {
        file: string_from_chars(&chars_of(file)),
        line,
        before: ctx.before,
        todo_line,
        after: ctx.after,
        related_todos: related,
    }
}

// ───────────────────────── locations ─────────────────────────

/// Index of the last occurrence of `c` in `s`.
pub open spec fn last_index_of_char(s: Seq<char>, c: char) -> Option<nat>
    decreases s.len(),
{
    if s.len() == 0 {
        None
    } else if s.last() == c {
        Some((s.len() - 1) as nat)
    } else {
        last_index_of_char(s.drop_last(), c)
    }
}

fn last_index_of_char_exec(s: &[char], c: char) -> (res: Option<usize>)
    ensures
        match res {
            Some(k) => last_index_of_char(s@, c) == Some(k as nat) && k < s@.len(),
            None => last_index_of_char(s@, c) is None,
        },
{
    let mut i: usize = s.len();
    assert(s@.take(i as int) =~= s@);
    while i > 0
        invariant
            i <= s@.len(),
            last_index_of_char(s@, c) == last_index_of_char(s@.take(i as int), c),
        decreases i,
    {
        if s[i - 1] == c {
            return Some(i - 1);
        }
        assert(s@.take(i as int).drop_last() =~= s@.take(i - 1));
        i -= 1;
    }
    None
}

/// `invalid location format: expected FILE:LINE, got '<location>'`.
pub open spec fn no_colon_error(location: Seq<char>) -> Seq<char> {
    "invalid location format: expected FILE:LINE, got '"@ + location + "'"@
}

/// `invalid line number: '<text>'`.
pub open spec fn bad_line_error(text: Seq<char>) -> Seq<char> {
    "invalid line number: '"@ + text + "'"@
}

/// `invalid location format: file path is empty`.
pub open spec fn empty_file_error() -> Seq<char> {
    "invalid location format: file path is empty"@
}

/// What [`parse_location`] returns: the text before the last `:` as the file
/// and the number after it as the line.
pub open spec fn location_parse(location: Seq<char>) -> Result<(Seq<char>, usize), Seq<char>> {
    match last_index_of_char(location, ':') {
        None => Err(no_colon_error(location)),
        Some(k) => {
            let num = location.skip(k as int + 1);
            match parse_unsigned(num, usize::MAX as nat) {
                None => Err(bad_line_error(num)),
                Some(n) => if k == 0 {
                    Err(empty_file_error())
                } else {
                    Ok((location.take(k as int), n as usize))
                },
            }
        },
    }
}

proof fn lemma_last_index_after(a: Seq<char>, c: char, b: Seq<char>)
    requires
        forall|q: int| 0 <= q < b.len() ==> b[q] != c,
    ensures
        last_index_of_char(a + seq![c] + b, c) == Some(a.len()),
    decreases b.len(),
{
    let s = a + seq![c] + b;
    if b.len() == 0 {
        assert(s.last() == c);
    } else {
        assert(s.last() == b.last());
        assert(s.drop_last() =~= a + seq![c] + b.drop_last());
        lemma_last_index_after(a, c, b.drop_last());
    }
}

/// A location written as `file:line` (nonempty file) parses back to the
/// same file and line.
pub proof fn lemma_location_roundtrip(file: Seq<char>, line: usize)
    requires
        file.len() > 0,
    ensures
        location_parse(file + seq![':'] + decimal(line as nat)) == Ok::<(Seq<char>, usize), Seq<char>>((file, line)),
{
    let d = decimal(line as nat);
    lemma_decimal_value(line as nat);
    assert forall|q: int| 0 <= q < d.len() implies d[q] != ':' by {
        assert(is_ascii_digit(d[q]));
    }
    lemma_last_index_after(file, ':', d);
    let s = file + seq![':'] + d;
    assert(s.skip(file.len() as int + 1) =~= d);
    assert(s.take(file.len() as int) =~= file);
    assert(zero_padded(line as int, 0) == d);
    lemma_parse_zero_padded(line as nat, 0, usize::MAX as nat);
}

/// Model of a location result.
pub open spec fn location_view(r: Result<(String, usize), String>) -> Result<(Seq<char>, usize), Seq<char>> {
    match r {
        Ok((f, l)) => Ok((f@, l)),
        Err(e) => Err(e@),
    }
}

fn literal_chars(s: &str) -> (res: Vec<char>)
    ensures
        res@ == s@,
{
    chars_of(s)
}

/// Parse a location string like `file.rs:42` into (file, line).
pub fn parse_location(location: &str) -> (res: Result<(String, usize), String>)
    ensures
        location_view(res) == location_parse(location@),
{
    let cs = chars_of(location);
    match last_index_of_char_exec(&cs, ':') {
        None => {
            let mut msg = literal_chars("invalid location format: expected FILE:LINE, got '");
            push_all(&mut msg, &cs);
            let tail = literal_chars("'");
            push_all(&mut msg, &tail);
            assert(msg@ =~= no_colon_error(location@));
            Err(string_from_chars(&msg))
        },
        Some(k) => {
            let num = sub_chars(&cs, k + 1, cs.len());
            assert(num@ =~= location@.skip(k + 1));
            match parse_unsigned_exec(&num, usize::MAX as u64) {
                None => {
                    let mut msg = literal_chars("invalid line number: '");
                    push_all(&mut msg, &num);
                    let tail = literal_chars("'");
                    push_all(&mut msg, &tail);
                    assert(msg@ =~= bad_line_error(num@));
                    Err(string_from_chars(&msg))
                },
                Some(n) => {
                    if k == 0 {
                        let msg = literal_chars("invalid location format: file path is empty");
                        Err(string_from_chars(&msg))
                    } else {
                        let file = sub_chars(&cs, 0, k);
                        assert(file@ =~= location@.take(k as int));
                        Ok((string_from_chars(&file), n as usize))
                    }
                },
            }
        },
    }
}

/// The file and line of the first item whose ID is `location`.
pub open spec fn id_match(items: Seq<TodoItemView>, location: Seq<char>) -> Option<(Seq<char>, usize)>
    decreases items.len(),
{
    if items.len() == 0 {
        None
    } else if id_of(items[0]) == location {
        Some((items[0].file, items[0].line))
    } else {
        id_match(items.drop_first(), location)
    }
}

/// Resolve a location that is either the ID of a scanned TODO
/// (`file:TAG:message`) or a `file:line` string; an ID match comes first.
pub fn resolve_location(location: &str, items: &Vec<TodoItem>) -> (res: Result<(String, usize), String>)
    ensures
        location_view(res) == match id_match(item_views(items@), location@) {
            Some(m) => Ok(m),
            None => location_parse(location@),
        },
{
    let ghost vs = item_views(items@);
    let loc = chars_of(location);
    let mut i: usize = 0;
    assert(vs.skip(0) =~= vs);
    while i < items.len()
        invariant
            vs == item_views(items@),
            i <= items@.len(),
            loc@ == location@,
            id_match(vs, location@) == id_match(vs.skip(i as int), location@),
        decreases items@.len() - i,
    {
        assert(vs.skip(i as int)[0] == items@[i as int]@);
        let id = chars_of(items[i].id().as_str());
        if crate::text::chars_eq(&id, &loc) {
            return Ok((items[i].file.clone(), items[i].line));
        }
        assert(vs.skip(i as int).drop_first() =~= vs.skip(i + 1));
        i += 1;
    }
    parse_location(location)
}

} // verus!
