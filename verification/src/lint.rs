//! Lint rules for the form of TODO comments.
//!
//! Metadata rules look at scanned items: empty messages, message length,
//! required author, required issue reference.  Raw-text rules look at the
//! source line of each item: the tag must be written in upper case and be
//! followed by a colon.
use vstd::prelude::*;

use crate::config::{string_views, Config};
use crate::model::{item_views, opt_view, tag_name, LintResult, LintViolation, ScanResult, TodoItem, TodoItemView};
use crate::pattern::{groups_view, regex_accepts, regex_captures_all, Group, Pattern};
use crate::scanner::{in_comment, in_comment_chars};
use crate::sorting::{
    lemma_lex_antisym, lemma_lex_total, lemma_lex_trans, lemma_stable_sort_map, lemma_stable_sort_multiset, lex_le, lex_le_exec, sort_by_key, sorted_by_key,
    stable_sort, SortKey,
};
use crate::text::{
    chars_eq, chars_of, decimal, eq_ignore_ascii_case, eq_ignore_ascii_case_exec, push_all,
    push_decimal, push_str, split_lines, split_lines_exec, string_from_chars, str_to_string, trim,
    trim_chars, views,
};

verus! {

/// Command-line settings of the lint rules.
pub struct LintOverrides {
    pub no_bare_tags: bool,
    pub max_message_length: Option<usize>,
    pub require_author: Vec<String>,
    pub require_issue_ref: Vec<String>,
    pub uppercase_tag: bool,
    pub require_colon: bool,
}

/// The text of one source file, by its path relative to the scan root.
pub struct SourceFile {
    pub path: String,
    pub content: String,
}

/// The lint settings after the command line and the configuration are merged.
pub struct ResolvedLint {
    pub no_bare_tags: bool,
    pub max_message_length: Option<usize>,
    pub require_author: Seq<Seq<char>>,
    pub require_issue_ref: Seq<Seq<char>>,
    pub uppercase_tag: bool,
    pub require_colon: bool,
}

/// Merge: a flag is on when set on the command line or (defaulting to on) in
/// the configuration; a non-empty command-line tag list replaces the
/// configured one.
pub open spec fn resolve(config: &Config, o: &LintOverrides) -> ResolvedLint {
    ResolvedLint {
        no_bare_tags: o.no_bare_tags || config.lint.no_bare_tags != Some(false),
        max_message_length: match o.max_message_length {
            Some(m) => Some(m),
            None => config.lint.max_message_length,
        },
        require_author: if o.require_author@.len() > 0 {
            string_views(o.require_author@)
        } else {
            match config.lint.require_author {
                Some(v) => string_views(v@),
                None => Seq::empty(),
            }
        },
        require_issue_ref: if o.require_issue_ref@.len() > 0 {
            string_views(o.require_issue_ref@)
        } else {
            match config.lint.require_issue_ref {
                Some(v) => string_views(v@),
                None => Seq::empty(),
            }
        },
        uppercase_tag: o.uppercase_tag || config.lint.uppercase_tag != Some(false),
        require_colon: o.require_colon || config.lint.require_colon != Some(false),
    }
}

/// Plain view of a lint violation: (rule, message, file, line, suggestion).
pub struct LintViolationView {
    pub rule: Seq<char>,
    pub message: Seq<char>,
    pub file: Seq<char>,
    pub line: usize,
    pub suggestion: Option<Seq<char>>,
}

pub open spec fn lint_view(v: LintViolation) -> LintViolationView {
    LintViolationView {
        rule: v.rule@,
        message: v.message@,
        file: v.file@,
        line: v.line,
        suggestion: opt_view(v.suggestion),
    }
}

pub open spec fn lint_views(vs: Seq<LintViolation>) -> Seq<LintViolationView> {
    vs.map_values(|v: LintViolation| lint_view(v))
}

/// Order of reported violations: by file path, then by line.
pub open spec fn lint_view_le(a: LintViolationView, b: LintViolationView) -> bool {
    if a.file == b.file {
        a.line <= b.line
    } else {
        lex_le(a.file, b.file)
    }
}

/// The violations in the order they are reported: sorted by file and line,
/// stably, so that the violations of one line keep the order in which the
/// rules found them.
pub open spec fn reported_violations(
    items: Seq<TodoItemView>,
    config: &Config,
    overrides: &LintOverrides,
    sources: Seq<(Seq<char>, Seq<char>)>,
) -> Seq<LintViolationView> {
    stable_sort(lint_violations(items, config, overrides, sources), |a: LintViolationView, b: LintViolationView| lint_view_le(a, b))
}

/// Some listed tag equals `tag` ignoring ASCII case.
pub open spec fn tag_listed(list: Seq<Seq<char>>, tag: Seq<char>) -> bool {
    exists|i: int| 0 <= i < list.len() && eq_ignore_ascii_case(#[trigger] list[i], tag)
}

pub open spec fn viol(rule: Seq<char>, message: Seq<char>, v: TodoItemView, suggestion: Seq<char>) -> LintViolationView {
    LintViolationView { rule, message, file: v.file, line: v.line, suggestion: Some(suggestion) }
}

/// Byte length of a message in UTF-8 (`str::len`).
pub open spec fn utf8_len(s: Seq<char>) -> nat {
    (vstd::utf8::encode_utf8(s).len() as usize) as nat
}

/// `no_bare_tags`: the trimmed message is empty.
pub open spec fn bare_part(v: TodoItemView, r: ResolvedLint) -> Seq<LintViolationView> {
    let t = tag_name(v.tag);
    if r.no_bare_tags && trim(v.message).len() == 0 {
        seq![viol("no_bare_tags"@, "Empty "@ + t + " message"@, v, t + ": <description>"@)]
    } else {
        Seq::empty()
    }
}

/// `max_message_length`: the message has more UTF-8 bytes than allowed.
pub open spec fn long_part(v: TodoItemView, r: ResolvedLint) -> Seq<LintViolationView> {
    match r.max_message_length {
        Some(m) => if utf8_len(v.message) > m {
            seq![
                viol(
                    "max_message_length"@,
                    "Message length ("@ + decimal(utf8_len(v.message)) + ") exceeds maximum ("@
                        + decimal(m as nat) + ")"@,
                    v,
                    "Shorten the message or raise max_message_length"@,
                ),
            ]
        } else {
            Seq::empty()
        },
        None => Seq::empty(),
    }
}

/// `require_author`: the tag is listed and the item has no author.
pub open spec fn author_part(v: TodoItemView, r: ResolvedLint) -> Seq<LintViolationView> {
    let t = tag_name(v.tag);
    if tag_listed(r.require_author, t) && v.author is None {
        seq![
            viol(
                "require_author"@,
                "Missing author for "@ + t + " comment"@,
                v,
                t + "(author): <message>"@,
            ),
        ]
    } else {
        Seq::empty()
    }
}

/// `require_issue_ref`: the tag is listed and the item has no issue reference.
pub open spec fn issue_part(v: TodoItemView, r: ResolvedLint) -> Seq<LintViolationView> {
    let t = tag_name(v.tag);
    if tag_listed(r.require_issue_ref, t) && v.issue_ref is None {
        seq![
            viol(
                "require_issue_ref"@,
                "Missing issue reference for "@ + t + " comment"@,
                v,
                "Add an issue reference (#123 or JIRA-456)"@,
            ),
        ]
    } else {
        Seq::empty()
    }
}

/// Violations of the metadata rules by one item, in rule order.
pub open spec fn metadata_violations(v: TodoItemView, r: ResolvedLint) -> Seq<LintViolationView> {
    bare_part(v, r) + long_part(v, r) + author_part(v, r) + issue_part(v, r)
}

/// Metadata violations of all items, item by item.
pub open spec fn all_metadata_violations(items: Seq<TodoItemView>, r: ResolvedLint) -> Seq<
    LintViolationView,
>
    decreases items.len(),
{
    if items.len() == 0 {
        Seq::empty()
    } else {
        all_metadata_violations(items.drop_last(), r) + metadata_violations(items.last(), r)
    }
}

/// Source of the raw-text pattern: any configured tag (unescaped), optional
/// `(...)`, optional colon (group 2).
pub open spec fn raw_pattern_of(tags: Seq<Seq<char>>) -> Seq<char> {
    "(?i)\\b("@ + join_bars(tags) + ")(?:\\([^)]*\\))?(:)?"@
}

/// Tags joined by `|`.
pub open spec fn join_bars(tags: Seq<Seq<char>>) -> Seq<char>
    decreases tags.len(),
{
    if tags.len() == 0 {
        Seq::empty()
    } else if tags.len() == 1 {
        tags[0]
    } else {
        join_bars(tags.drop_last()) + seq!['|'] + tags.last()
    }
}

/// The first match whose tag (group 1) stands inside a comment.
pub open spec fn first_in_comment(ms: Seq<Seq<Option<(Seq<char>, Seq<char>)>>>) -> Option<
    Seq<Option<(Seq<char>, Seq<char>)>>,
>
    decreases ms.len(),
{
    if ms.len() == 0 {
        None
    } else if ms[0].len() >= 2 && (ms[0][1] matches Some(g) && in_comment(g.0)) {
        Some(ms[0])
    } else {
        first_in_comment(ms.drop_first())
    }
}

/// Content of the first source file with the given path.
pub open spec fn source_of(files: Seq<(Seq<char>, Seq<char>)>, path: Seq<char>) -> Option<Seq<char>>
    decreases files.len(),
{
    if files.len() == 0 {
        None
    } else if files[0].0 == path {
        Some(files[0].1)
    } else {
        source_of(files.drop_first(), path)
    }
}

pub open spec fn source_views(files: Seq<SourceFile>) -> Seq<(Seq<char>, Seq<char>)> {
    files.map_values(|f: SourceFile| (f.path@, f.content@))
}

/// Violations of the raw-text rules by one item, given its file's text.
pub open spec fn raw_violations(
    v: TodoItemView,
    r: ResolvedLint,
    raw: Seq<char>,
    files: Seq<(Seq<char>, Seq<char>)>,
) -> Seq<LintViolationView> {
    match source_of(files, v.file) {
        None => Seq::empty(),
        Some(content) => {
            let lines = split_lines(content);
            let idx: int = if v.line >= 1 {
                v.line - 1
            } else {
                0
            };
            if idx >= lines.len() {
                Seq::empty()
            } else {
                match first_in_comment(regex_captures_all(raw, lines[idx])) {
                    None => Seq::empty(),
                    Some(gs) => {
                        let g1 = gs[1]->0;
                        let raw_tag = g1.1;
                        let t = tag_name(v.tag);
                        let upper = if r.uppercase_tag && raw_tag != t {
                            seq![
                                viol(
                                    "uppercase_tag"@,
                                    "Tag '"@ + raw_tag + "' should be uppercase '"@ + t + "'"@,
                                    v,
                                    "Change '"@ + raw_tag + "' to '"@ + t + "'"@,
                                ),
                            ]
                        } else {
                            Seq::empty()
                        };
                        let colon = if r.require_colon && (gs.len() < 3 || gs[2] is None) {
                            seq![
                                viol(
                                    "require_colon"@,
                                    "Missing colon after "@ + t + " tag"@,
                                    v,
                                    t + ": <message>"@,
                                ),
                            ]
                        } else {
                            Seq::empty()
                        };
                        upper + colon
                    },
                }
            }
        },
    }
}

/// Raw-text violations of all items, item by item.
pub open spec fn all_raw_violations(
    items: Seq<TodoItemView>,
    r: ResolvedLint,
    raw: Seq<char>,
    files: Seq<(Seq<char>, Seq<char>)>,
) -> Seq<LintViolationView>
    decreases items.len(),
{
    if items.len() == 0 {
        Seq::empty()
    } else {
        all_raw_violations(items.drop_last(), r, raw, files) + raw_violations(
            items.last(),
            r,
            raw,
            files,
        )
    }
}

/// Whether the raw-text rules run (and so whether the raw pattern is needed).
pub open spec fn raw_rules_on(config: &Config, o: &LintOverrides) -> bool {
    resolve(config, o).uppercase_tag || resolve(config, o).require_colon
}

/// All violations before sorting: metadata rules for every item, then the
/// raw-text rules when enabled.
pub open spec fn lint_violations(
    items: Seq<TodoItemView>,
    config: &Config,
    o: &LintOverrides,
    files: Seq<(Seq<char>, Seq<char>)>,
) -> Seq<LintViolationView> {
    let r = resolve(config, o);
    all_metadata_violations(items, r) + if raw_rules_on(config, o) {
        all_raw_violations(items, r, raw_pattern_of(string_views(config.tags@)), files)
    } else {
        Seq::empty()
    }
}

impl SortKey for LintViolation {
    /// By file path, then by line.
    open spec fn key_le(&self, other: &Self) -> bool {
        if self.file@ == other.file@ {
            self.line <= other.line
        } else {
            lex_le(self.file@, other.file@)
        }
    }

    fn key_le_exec(&self, other: &Self) -> (res: bool) {
        let a = chars_of(self.file.as_str());
        let b = chars_of(other.file.as_str());
        if chars_eq(&a, &b) {
            self.line <= other.line
        } else {
            lex_le_exec(&a, &b)
        }
    }

    proof fn lemma_total(a: &Self, b: &Self) {
        lemma_lex_total(a.file@, b.file@);
    }

    proof fn lemma_trans(a: &Self, b: &Self, c: &Self) {
        if a.file@ != b.file@ && b.file@ != c.file@ {
            lemma_lex_trans(a.file@, b.file@, c.file@);
            if a.file@ == c.file@ {
                lemma_lex_antisym(a.file@, b.file@);
            }
        }
    }
}

fn make_violation(rule: &str, message: Vec<char>, item: &TodoItem, suggestion: Vec<char>) -> (res:
    LintViolation)
    ensures
        lint_view(res) == viol(rule@, message@, item@, suggestion@),
{
    LintViolation {
        rule: str_to_string(rule),
        message: string_from_chars(&message),
        file: item.file.clone(),
        line: item.line,
        suggestion: Some(string_from_chars(&suggestion)),
    }
}

fn string_views_exec(v: &Vec<String>) -> (res: Vec<Vec<char>>)
    ensures
        views(res@) == string_views(v@),
{
    let mut res: Vec<Vec<char>> = Vec::new();
    let mut i: usize = 0;
    while i < v.len()
        invariant
            i <= v@.len(),
            res@.len() == i,
            forall|k: int| 0 <= k < i ==> (#[trigger] res@[k])@ == v@[k]@,
        decreases v@.len() - i,
    {
        res.push(chars_of(v[i].as_str()));
        i += 1;
    }
    assert(views(res@) =~= string_views(v@));
    res
}

fn tag_listed_exec(list: &Vec<Vec<char>>, tag: &Vec<char>) -> (res: bool)
    ensures
        res == tag_listed(views(list@), tag@),
{
    let mut i: usize = 0;
    while i < list.len()
        invariant
            i <= list@.len(),
            forall|k: int| 0 <= k < i ==> !eq_ignore_ascii_case(#[trigger] views(list@)[k], tag@),
        decreases list@.len() - i,
    {
        assert(views(list@)[i as int] == list@[i as int]@);
        if eq_ignore_ascii_case_exec(&list[i], tag) {
            return true;
        }
        i += 1;
    }
    false
}

/// Lint settings in executable form.
struct ResolvedExec {
    no_bare_tags: bool,
    max_message_length: Option<usize>,
    require_author: Vec<Vec<char>>,
    require_issue_ref: Vec<Vec<char>>,
    uppercase_tag: bool,
    require_colon: bool,
}

spec fn resolved_view(r: ResolvedExec) -> ResolvedLint {
    ResolvedLint {
        no_bare_tags: r.no_bare_tags,
        max_message_length: r.max_message_length,
        require_author: views(r.require_author@),
        require_issue_ref: views(r.require_issue_ref@),
        uppercase_tag: r.uppercase_tag,
        require_colon: r.require_colon,
    }
}

fn resolve_config(config: &Config, overrides: &LintOverrides) -> (res: ResolvedExec)
    ensures
        resolved_view(res) == resolve(config, overrides),
{
    let require_author = if overrides.require_author.len() > 0 {
        string_views_exec(&overrides.require_author)
    } else {
        match &config.lint.require_author {
            Some(v) => string_views_exec(v),
            None => Vec::new(),
        }
    };
    let require_issue_ref = if overrides.require_issue_ref.len() > 0 {
        string_views_exec(&overrides.require_issue_ref)
    } else {
        match &config.lint.require_issue_ref {
            Some(v) => string_views_exec(v),
            None => Vec::new(),
        }
    };
    let r = ResolvedExec {
        no_bare_tags: overrides.no_bare_tags || match config.lint.no_bare_tags {
            Some(b) => b,
            None => true,
        },
        max_message_length: match overrides.max_message_length {
            Some(m) => Some(m),
            None => config.lint.max_message_length,
        },
        require_author,
        require_issue_ref,
        uppercase_tag: overrides.uppercase_tag || match config.lint.uppercase_tag {
            Some(b) => b,
            None => true,
        },
        require_colon: overrides.require_colon || match config.lint.require_colon {
            Some(b) => b,
            None => true,
        },
    };
    assert(views(r.require_author@) == resolve(config, overrides).require_author);
    assert(views(r.require_issue_ref@) == resolve(config, overrides).require_issue_ref);
    r
}

fn push_viol(out: &mut Vec<LintViolation>, v: LintViolation)
    ensures
        lint_views(final(out)@) == lint_views(old(out)@).push(lint_view(v)),
{
    out.push(v);
    assert(lint_views(final(out)@) =~= lint_views(old(out)@).push(lint_view(v)));
}

/// Metadata-rule violations of one item, appended to `out`.
fn check_metadata_rules(item: &TodoItem, r: &ResolvedExec, out: &mut Vec<LintViolation>)
    ensures
        lint_views(final(out)@) == lint_views(old(out)@) + metadata_violations(item@, resolved_view(*r)),
{
    let ghost start = lint_views(out@);
    let ghost rv = resolved_view(*r);
    let t = item.tag.name_chars();
    let msg = chars_of(item.message.as_str());
    let trimmed = trim_chars(&msg);
    if r.no_bare_tags && trimmed.len() == 0 {
        let mut m = chars_of("Empty ");
        push_all(&mut m, &t);
        push_str(&mut m, " message");
        let mut s = t.clone();
        push_str(&mut s, ": <description>");
        let v = make_violation("no_bare_tags", m, item, s);
        push_viol(out, v);
    }
    assert(lint_views(out@) =~= start + bare_part(item@, rv));
    let ghost after_bare = lint_views(out@);
    if let Some(max) = r.max_message_length {
        let len = item.message.as_str().len();
        if len > max {
            let mut m = chars_of("Message length (");
            push_decimal(&mut m, len as u64);
            push_str(&mut m, ") exceeds maximum (");
            push_decimal(&mut m, max as u64);
            push_str(&mut m, ")");
            let s = chars_of("Shorten the message or raise max_message_length");
            let v = make_violation("max_message_length", m, item, s);
            push_viol(out, v);
        }
    }
    assert(lint_views(out@) =~= after_bare + long_part(item@, rv));
    let ghost after_long = lint_views(out@);
    if tag_listed_exec(&r.require_author, &t) && item.author.is_none() {
        let mut m = chars_of("Missing author for ");
        push_all(&mut m, &t);
        push_str(&mut m, " comment");
        let mut s = t.clone();
        push_str(&mut s, "(author): <message>");
        let v = make_violation("require_author", m, item, s);
        push_viol(out, v);
    }
    assert(lint_views(out@) =~= after_long + author_part(item@, rv));
    let ghost after_author = lint_views(out@);
    if tag_listed_exec(&r.require_issue_ref, &t) && item.issue_ref.is_none() {
        let mut m = chars_of("Missing issue reference for ");
        push_all(&mut m, &t);
        push_str(&mut m, " comment");
        let s = chars_of("Add an issue reference (#123 or JIRA-456)");
        let v = make_violation("require_issue_ref", m, item, s);
        push_viol(out, v);
    }
    assert(lint_views(out@) =~= after_author + issue_part(item@, rv));
    assert(lint_views(out@) =~= start + metadata_violations(item@, rv));
}

/// Content of the first source file with the given path.
fn source_of_exec<'a>(files: &'a Vec<SourceFile>, path: &str) -> (res: Option<&'a String>)
    ensures
        match res {
            Some(c) => source_of(source_views(files@), path@) == Some(c@),
            None => source_of(source_views(files@), path@) is None,
        },
{
    let p = chars_of(path);
    let ghost sv = source_views(files@);
    assert(sv.len() == files@.len());
    let mut i: usize = 0;
    assert(sv.skip(0) =~= sv);
    while i < files.len()
        invariant
            i <= files@.len(),
            sv == source_views(files@),
            sv.len() == files@.len(),
            p@ == path@,
            source_of(sv, path@) == source_of(sv.skip(i as int), path@),
        decreases files@.len() - i,
    {
        let q = chars_of(files[i].path.as_str());
        let ghost rest = sv.skip(i as int);
        assert(rest.len() > 0);
        assert(rest[0] == sv[i as int]);
        assert(sv[i as int] == (files@[i as int].path@, files@[i as int].content@));
        assert(rest.drop_first() =~= sv.skip(i + 1));
        if chars_eq(&q, &p) {
            assert(source_of(rest, path@) == Some(files@[i as int].content@));
            return Some(&files[i].content);
        }
        i += 1;
    }
    None
}

/// The first match whose tag stands inside a comment.
fn first_in_comment_exec(ms: &Vec<Vec<Option<Group>>>) -> (res: Option<usize>)
    ensures
        match res {
            Some(k) => k < ms@.len() && first_in_comment(ms@.map_values(|gs: Vec<Option<Group>>| groups_view(gs@)))
                == Some(groups_view(ms@[k as int]@)) && ms@[k as int]@.len() >= 2 && ms@[k as int]@[1] is Some,
            None => first_in_comment(ms@.map_values(|gs: Vec<Option<Group>>| groups_view(gs@))) is None,
        },
{
    let ghost all = ms@.map_values(|gs: Vec<Option<Group>>| groups_view(gs@));
    let mut i: usize = 0;
    assert(all.skip(0) =~= all);
    while i < ms.len()
        invariant
            i <= ms@.len(),
            all == ms@.map_values(|gs: Vec<Option<Group>>| groups_view(gs@)),
            first_in_comment(all) == first_in_comment(all.skip(i as int)),
        decreases ms@.len() - i,
    {
        let ghost g = groups_view(ms@[i as int]@);
        assert(all.skip(i as int)[0] == g);
        assert(all.skip(i as int).drop_first() =~= all.skip(i + 1));
        if ms[i].len() >= 2 {
            match &ms[i][1] {
                Some(grp) => {
                    assert(g[1] == crate::pattern::group_view(ms@[i as int]@[1]));
                    let before = chars_of(grp.before.as_str());
                    if in_comment_chars(&before) {
                        return Some(i);
                    }
                },
                None => {
                    assert(g[1] == crate::pattern::group_view(ms@[i as int]@[1]));
                },
            }
        }
        i += 1;
    }
    None
}

/// Raw-text violations of one item, appended to `out`.
fn check_raw_rules(
    item: &TodoItem,
    r: &ResolvedExec,
    raw: &Pattern,
    files: &Vec<SourceFile>,
    out: &mut Vec<LintViolation>,
)
    ensures
        lint_views(final(out)@) == lint_views(old(out)@) + raw_violations(
            item@,
            resolved_view(*r),
            raw@,
            source_views(files@),
        ),
{
    let ghost start = lint_views(out@);
    let content = match source_of_exec(files, item.file.as_str()) {
        Some(c) => c,
        None => {
            assert(lint_views(out@) =~= start + Seq::empty());
            return;
        },
    };
    let cs = chars_of(content.as_str());
    let lines = split_lines_exec(&cs);
    let idx: usize = if item.line >= 1 {
        item.line - 1
    } else {
        0
    };
    if idx >= lines.len() {
        assert(lint_views(out@) =~= start + Seq::empty());
        return;
    }
    assert(views(lines@)[idx as int] == lines@[idx as int]@);
    let line_s = string_from_chars(&lines[idx]);
    let ms = raw.captures_all(line_s.as_str());
    let k = match first_in_comment_exec(&ms) {
        Some(k) => k,
        None => {
            assert(lint_views(out@) =~= start + Seq::empty());
            return;
        },
    };
    let ghost gs = groups_view(ms@[k as int]@);
    let g1 = match &ms[k][1] {
        Some(g) => g,
        None => {
            assert(gs[1] == crate::pattern::group_view(ms@[k as int]@[1]));
            return;
        },
    };
    assert(gs[1] == crate::pattern::group_view(ms@[k as int]@[1]));
    let raw_tag = chars_of(g1.text.as_str());
    let t = item.tag.name_chars();
    if r.uppercase_tag && !chars_eq(&raw_tag, &t) {
        let mut m = chars_of("Tag '");
        push_all(&mut m, &raw_tag);
        push_str(&mut m, "' should be uppercase '");
        push_all(&mut m, &t);
        push_str(&mut m, "'");
        let mut s = chars_of("Change '");
        push_all(&mut s, &raw_tag);
        push_str(&mut s, "' to '");
        push_all(&mut s, &t);
        push_str(&mut s, "'");
        let v = make_violation("uppercase_tag", m, item, s);
        push_viol(out, v);
    }
    let ghost after_upper = lint_views(out@);
    let no_colon = ms[k].len() < 3 || ms[k][2].is_none();
    proof {
        if ms@[k as int]@.len() >= 3 {
            assert(gs[2] == crate::pattern::group_view(ms@[k as int]@[2]));
        }
    }
    if r.require_colon && no_colon {
        let mut m = chars_of("Missing colon after ");
        push_all(&mut m, &t);
        push_str(&mut m, " tag");
        let mut s = t.clone();
        push_str(&mut s, ": <message>");
        let v = make_violation("require_colon", m, item, s);
        push_viol(out, v);
    }
    proof {
        assert(lint_views(out@) =~= start + raw_violations(
            item@,
            resolved_view(*r),
            raw@,
            source_views(files@),
        ));
    }
}

/// Source of the raw-text pattern for the configured tags.
fn raw_pattern_source(config: &Config) -> (res: String)
    ensures
        res@ == raw_pattern_of(string_views(config.tags@)),
{
    let ghost tv = string_views(config.tags@);
    let mut out = chars_of("(?i)\\b(");
    let mut i: usize = 0;
    while i < config.tags.len()
        invariant
            i <= config.tags@.len(),
            tv == string_views(config.tags@),
            out@ == "(?i)\\b("@ + join_bars(tv.take(i as int)),
        decreases config.tags@.len() - i,
    {
        if i > 0 {
            out.push('|');
        }
        push_str(&mut out, config.tags[i].as_str());
        proof {
            assert(tv.take(i + 1).drop_last() =~= tv.take(i as int));
            assert(tv[i as int] == config.tags@[i as int]@);
            if i == 0 {
                assert(join_bars(tv.take(0)) =~= Seq::empty());
            }
            assert(out@ =~= "(?i)\\b("@ + join_bars(tv.take(i + 1)));
        }
        i += 1;
    }
    assert(tv.take(config.tags@.len() as int) =~= tv);
    push_str(&mut out, ")(?:\\([^)]*\\))?(:)?");
    assert(out@ =~= raw_pattern_of(tv));
    string_from_chars(&out)
}

/// Run all lint rules over a scan.  `sources` holds the text of the scanned
/// files that could be read; an item whose file is missing from it is not
/// checked by the raw-text rules.  Violations come sorted by file, then line.
pub fn run_lint(
    scan: &ScanResult,
    config: &Config,
    overrides: &LintOverrides,
    sources: &Vec<SourceFile>,
) -> (res: LintResult)
    requires
        raw_rules_on(config, overrides) ==> regex_accepts(raw_pattern_of(string_views(config.tags@))),
    ensures
        lint_views(res.violations@) == reported_violations(item_views(scan.items@), config, overrides, source_views(sources@)),
        sorted_by_key(res.violations@),
        res.passed == (res.violations@.len() == 0),
        res.total_items == scan.items@.len(),
        res.violation_count == res.violations@.len(),
{
    let r = resolve_config(config, overrides);
    let ghost rv = resolved_view(r);
    let ghost iv = item_views(scan.items@);
    let mut violations: Vec<LintViolation> = Vec::new();
    let mut i: usize = 0;
    while i < scan.items.len()
        invariant
            i <= scan.items@.len(),
            iv == item_views(scan.items@),
            rv == resolved_view(r),
            lint_views(violations@) == all_metadata_violations(iv.take(i as int), rv),
        decreases scan.items@.len() - i,
    {
        check_metadata_rules(&scan.items[i], &r, &mut violations);
        assert(iv.take(i + 1).drop_last() =~= iv.take(i as int));
        assert(iv.take(i + 1).last() == scan.items@[i as int]@);
        i += 1;
    }
    assert(iv.take(iv.len() as int) =~= iv);
    let ghost after_meta = lint_views(violations@);
    if r.uppercase_tag || r.require_colon {
        let src = raw_pattern_source(config);
        let raw = match Pattern::new(src.as_str()) {
            Some(p) => p,
            None => {
                assert(false);
                return LintResult { passed: true, total_items: 0, violation_count: 0, violations: Vec::new() };
            },
        };
        let mut j: usize = 0;
        while j < scan.items.len()
            invariant
                j <= scan.items@.len(),
                iv == item_views(scan.items@),
                rv == resolved_view(r),
                raw@ == raw_pattern_of(string_views(config.tags@)),
                lint_views(violations@) == after_meta + all_raw_violations(
                    iv.take(j as int),
                    rv,
                    raw@,
                    source_views(sources@),
                ),
            decreases scan.items@.len() - j,
        {
            check_raw_rules(&scan.items[j], &r, &raw, sources, &mut violations);
            assert(iv.take(j + 1).drop_last() =~= iv.take(j as int));
            assert(iv.take(j + 1).last() == scan.items@[j as int]@);
            j += 1;
        }
        assert(iv.take(iv.len() as int) =~= iv);
    } else {
        assert(lint_views(violations@) =~= after_meta + Seq::empty());
    }
    let ghost unsorted = violations@;
    assert(lint_views(unsorted) == lint_violations(iv, config, overrides, source_views(sources@)));
    let sorted = sort_by_key(violations);
    proof {
        let f = |v: LintViolation| lint_view(v);
        let la = |a: LintViolation, b: LintViolation| a.key_le(&b);
        let lb = |a: LintViolationView, b: LintViolationView| lint_view_le(a, b);
        lemma_stable_sort_map(unsorted, f, la, lb);
        assert(lint_views(unsorted) =~= unsorted.map_values(f));
        assert(lint_views(sorted@) =~= sorted@.map_values(f));
    }
    let n = sorted.len();
    LintResult { passed: n == 0, total_items: scan.items.len(), violation_count: n, violations: sorted }
}

/// Lint law: the reported violations are exactly the violations that the
/// metadata rules and the raw-text rules find, each once, only reordered
/// (by file, then line, keeping the rules' order within a line).
pub proof fn lemma_report_is_permutation(
    items: Seq<TodoItemView>,
    config: &Config,
    overrides: &LintOverrides,
    sources: Seq<(Seq<char>, Seq<char>)>,
)
    ensures
        reported_violations(items, config, overrides, sources).to_multiset() == lint_violations(
            items,
            config,
            overrides,
            sources,
        ).to_multiset(),
        reported_violations(items, config, overrides, sources).len() == lint_violations(
            items,
            config,
            overrides,
            sources,
        ).len(),
{
    lemma_stable_sort_multiset(
        lint_violations(items, config, overrides, sources),
        |a: LintViolationView, b: LintViolationView| lint_view_le(a, b),
    );
    reported_violations(items, config, overrides, sources).to_multiset_ensures();
    lint_violations(items, config, overrides, sources).to_multiset_ensures();
}

/// `name` when `on`, else nothing.
pub open spec fn rule_if(on: bool, name: Seq<char>) -> Seq<Seq<char>> {
    if on {
        seq![name]
    } else {
        Seq::empty()
    }
}

/// Law of the metadata rules: for one item they report, in this order,
/// `no_bare_tags` exactly when that rule is on and the trimmed message is
/// empty; `max_message_length` exactly when a maximum is set and the message
/// has more bytes than it (a message of exactly the maximum passes);
/// `require_author` exactly when the tag is listed (ASCII case ignored) and
/// the item has no author; `require_issue_ref` exactly when the tag is listed
/// and the item has no issue reference. Each names the item's file and line.
pub proof fn lemma_metadata_rules(v: TodoItemView, r: ResolvedLint)
    ensures
        metadata_violations(v, r).map_values(|x: LintViolationView| x.rule) == rule_if(
            r.no_bare_tags && trim(v.message).len() == 0,
            "no_bare_tags"@,
        ) + rule_if(
            r.max_message_length matches Some(m) && utf8_len(v.message) > m,
            "max_message_length"@,
        ) + rule_if(
            tag_listed(r.require_author, tag_name(v.tag)) && v.author is None,
            "require_author"@,
        ) + rule_if(
            tag_listed(r.require_issue_ref, tag_name(v.tag)) && v.issue_ref is None,
            "require_issue_ref"@,
        ),
        forall|i: int|
            0 <= i < metadata_violations(v, r).len() ==> (#[trigger] metadata_violations(v, r)[i]).file
                == v.file && metadata_violations(v, r)[i].line == v.line,
{
    let f = |x: LintViolationView| x.rule;
    let a = bare_part(v, r);
    let b = long_part(v, r);
    let c = author_part(v, r);
    let d = issue_part(v, r);
    assert(a.map_values(f) =~= rule_if(r.no_bare_tags && trim(v.message).len() == 0, "no_bare_tags"@));
    assert(b.map_values(f) =~= rule_if(
        r.max_message_length matches Some(m) && utf8_len(v.message) > m,
        "max_message_length"@,
    ));
    assert(c.map_values(f) =~= rule_if(
        tag_listed(r.require_author, tag_name(v.tag)) && v.author is None,
        "require_author"@,
    ));
    assert(d.map_values(f) =~= rule_if(
        tag_listed(r.require_issue_ref, tag_name(v.tag)) && v.issue_ref is None,
        "require_issue_ref"@,
    ));
    assert((a + b + c + d).map_values(f) =~= a.map_values(f) + b.map_values(f) + c.map_values(f)
        + d.map_values(f));
}

/// [`run_lint`], or `None` when the raw-text rules are on and the `regex`
/// crate rejects the pattern built from the configured tags.
pub fn try_run_lint(
    scan: &ScanResult,
    config: &Config,
    overrides: &LintOverrides,
    sources: &Vec<SourceFile>,
) -> (res: Option<LintResult>)
    ensures
        res is None <==> (raw_rules_on(config, overrides) && !regex_accepts(
            raw_pattern_of(string_views(config.tags@)),
        )),
        res matches Some(l) ==> {
            &&& lint_views(l.violations@) == reported_violations(
                item_views(scan.items@),
                config,
                overrides,
                source_views(sources@),
            )
            &&& sorted_by_key(l.violations@)
            &&& l.passed == (l.violations@.len() == 0)
            &&& l.total_items == scan.items@.len()
            &&& l.violation_count == l.violations@.len()
        },
{
    let r = resolve_config(config, overrides);
    if r.uppercase_tag || r.require_colon {
        let src = raw_pattern_source(config);
        if Pattern::new(src.as_str()).is_none() {
            return None;
        }
    }
    Some(run_lint(scan, config, overrides, sources))
}

} // verus!
