//! Conversion of TODO items into agent tasks (subject, description, active
//! form and metadata), and priority ordering of items.
use std::collections::HashMap;
use vstd::prelude::*;

use crate::context::{context_line_view, context_views, ContextInfo, ContextLine};
use crate::model::{
    item_views, match_key_of, opt_view, priority_name, priority_name_chars, tag_name, tag_severity,
    ClaudeTask, ClaudeTaskMetadata, Priority, Tag, TodoItem, TodoItemView,
};
use crate::sorting::{lemma_lex_antisym, lemma_lex_total, lemma_lex_trans, lex_le, lex_le_exec, sort_by_order, stable_sort, Order};
use crate::text::{
    chars_of, decimal, join_with, join_with_exec, push_all, push_decimal, push_right_align,
    right_align, string_from_chars, trim, trim_chars, views,
};

verus! {

/// Imperative verb of a tag, for task subjects.
pub open spec fn action_verb_name(t: Tag) -> Seq<char> {
    match t {
        Tag::Bug | Tag::Fixme => "Fix"@,
        Tag::Todo => "Implement"@,
        Tag::Hack => "Refactor"@,
        Tag::Xxx => "Address"@,
        Tag::Note => "Review"@,
    }
}

/// Present-continuous verb of a tag, for the active form.
pub open spec fn active_verb_name(t: Tag) -> Seq<char> {
    match t {
        Tag::Bug | Tag::Fixme => "Fixing"@,
        Tag::Todo => "Implementing"@,
        Tag::Hack => "Refactoring"@,
        Tag::Xxx => "Addressing"@,
        Tag::Note => "Reviewing"@,
    }
}

/// Map a tag to an imperative action verb for task subjects.
pub fn action_verb(tag: &Tag) -> (res: &'static str)
    ensures
        res@ == action_verb_name(*tag),
{
    match tag {
        Tag::Bug | Tag::Fixme => "Fix",
        Tag::Todo => "Implement",
        Tag::Hack => "Refactor",
        Tag::Xxx => "Address",
        Tag::Note => "Review",
    }
}

/// Map a tag to a present-continuous verb for the active form.
pub fn active_verb(tag: &Tag) -> (res: &'static str)
    ensures
        res@ == active_verb_name(*tag),
{
    match tag {
        Tag::Bug | Tag::Fixme => "Fixing",
        Tag::Todo => "Implementing",
        Tag::Hack => "Refactoring",
        Tag::Xxx => "Addressing",
        Tag::Note => "Reviewing",
    }
}

/// `<verb> <trimmed message>`, or `<verb> <TAG> at <file>:<line>` when the
/// message is blank.
pub open spec fn phrase(verb: Seq<char>, v: TodoItemView) -> Seq<char> {
    let msg = trim(v.message);
    if msg.len() == 0 {
        verb + " "@ + tag_name(v.tag) + " at "@ + v.file + ":"@ + decimal(v.line as nat)
    } else {
        verb + " "@ + msg
    }
}

fn phrase_exec(verb: &str, item: &TodoItem) -> (res: String)
    ensures
        res@ == phrase(verb@, item@),
{
    let mc = chars_of(item.message.as_str());
    let msg = trim_chars(&mc);
    let mut out = chars_of(verb);
    let sp = chars_of(" ");
    push_all(&mut out, &sp);
    if msg.len() == 0 {
        push_all(&mut out, &item.tag.name_chars());
        push_all(&mut out, &chars_of(" at "));
        push_all(&mut out, &chars_of(item.file.as_str()));
        push_all(&mut out, &chars_of(":"));
        push_decimal(&mut out, item.line as u64);
    } else {
        push_all(&mut out, &msg);
    }
    assert(out@ =~= phrase(verb@, item@));
    string_from_chars(&out)
}

/// Build a task subject from a TODO item.
pub fn build_subject(item: &TodoItem) -> (res: String)
    ensures
        res@ == phrase(action_verb_name(item.tag), item@),
{
    phrase_exec(action_verb(&item.tag), item)
}

/// Build the active form (present continuous) of a task.
pub fn build_active_form(item: &TodoItem) -> (res: String)
    ensures
        res@ == phrase(active_verb_name(item.tag), item@),
{
    phrase_exec(active_verb(&item.tag), item)
}

/// Priority as shown in a description.
pub open spec fn priority_label(p: Priority) -> Seq<char> {
    match p {
        Priority::Urgent => "Urgent (!!)"@,
        Priority::High => "High (!)"@,
        Priority::Normal => "Normal"@,
    }
}

/// A numbered code line: the number right-aligned to 4, the marker, the text.
pub open spec fn code_line(n: int, marker: Seq<char>, text: Seq<char>) -> Seq<char> {
    right_align(decimal(n as nat), 4) + marker + text
}

pub open spec fn code_lines(cs: Seq<(int, Seq<char>)>) -> Seq<Seq<char>> {
    cs.map_values(|c: (int, Seq<char>)| code_line(c.0, " | "@, c.1))
}

/// The code block of a description, when the context has any lines.
pub open spec fn context_block(v: TodoItemView, ctx: Option<ContextInfo>) -> Seq<Seq<char>> {
    match ctx {
        Some(c) => if c.before@.len() > 0 || c.after@.len() > 0 {
            seq![seq![], "```"@] + code_lines(context_views(c.before@)) + seq![
                code_line(v.line as int, " > "@, trim(v.message)),
            ] + code_lines(context_views(c.after@)) + seq!["```"@]
        } else {
            seq![]
        },
        None => seq![],
    }
}

/// The lines of a task description.
pub open spec fn description_lines(v: TodoItemView, ctx: Option<ContextInfo>) -> Seq<Seq<char>> {
    description_head(v) + context_block(v, ctx)
}

/// A task description: its lines joined by newlines.
pub open spec fn description(v: TodoItemView, ctx: Option<ContextInfo>) -> Seq<char> {
    join_with(description_lines(v, ctx), "\n"@)
}

fn priority_label_exec(p: Priority) -> (res: Vec<char>)
    ensures
        res@ == priority_label(p),
{
    match p {
        Priority::Urgent => chars_of("Urgent (!!)"),
        Priority::High => chars_of("High (!)"),
        Priority::Normal => chars_of("Normal"),
    }
}

fn code_line_exec(n: usize, marker: &str, text: &[char]) -> (res: Vec<char>)
    ensures
        res@ == code_line(n as int, marker@, text@),
{
    let mut out: Vec<char> = Vec::new();
    let d = crate::text::decimal_chars(n as u64);
    push_right_align(&mut out, &d, 4);
    push_all(&mut out, &chars_of(marker));
    push_all(&mut out, text);
    assert(out@ =~= code_line(n as int, marker@, text@));
    out
}

fn push_code_lines(lines: &mut Vec<Vec<char>>, cs: &Vec<ContextLine>)
    ensures
        views(final(lines)@) == views(old(lines)@) + code_lines(context_views(cs@)),
{
    let ghost start = views(lines@);
    let mut i: usize = 0;
    while i < cs.len()
        invariant
            i <= cs@.len(),
            views(lines@) == start + code_lines(context_views(cs@)).take(i as int),
        decreases cs@.len() - i,
    {
        let c = chars_of(cs[i].content.as_str());
        let l = code_line_exec(cs[i].line_number, " | ", &c);
        let ghost before = views(lines@);
        lines.push(l);
        assert(views(lines@) =~= before.push(l@));
        assert(code_lines(context_views(cs@)).take(i + 1) =~= code_lines(context_views(cs@)).take(i as int).push(
            l@,
        ));
        i += 1;
    }
    assert(code_lines(context_views(cs@)).take(cs@.len() as int) =~= code_lines(context_views(cs@)));
}

fn push_line(lines: &mut Vec<Vec<char>>, l: Vec<char>)
    ensures
        views(final(lines)@) == views(old(lines)@).push(l@),
{
    lines.push(l);
    assert(views(lines@) =~= views(old(lines)@).push(l@));
}

/// The lines of a description before the code block.
pub open spec fn description_head(v: TodoItemView) -> Seq<Seq<char>> {
    let msg = trim(v.message);
    seq!["**["@ + tag_name(v.tag) + "]** `"@ + v.file + ":"@ + decimal(v.line as nat) + "`"@] + (if msg.len()
        > 0 {
        seq![seq![], msg]
    } else {
        seq![]
    }) + seq![seq![], "Priority: "@ + priority_label(v.priority)] + (match v.author {
        Some(a) => seq!["Author: @"@ + a],
        None => seq![],
    }) + (match v.issue_ref {
        Some(r) => seq!["Issue: "@ + r],
        None => seq![],
    })
}

fn description_head_exec(item: &TodoItem) -> (res: Vec<Vec<char>>)
    ensures
        views(res@) == description_head(item@),
{
    let mc = chars_of(item.message.as_str());
    let msg = trim_chars(&mc);
    let mut lines: Vec<Vec<char>> = Vec::new();
    let mut header = chars_of("**[");
    push_all(&mut header, &item.tag.name_chars());
    push_all(&mut header, &chars_of("]** `"));
    push_all(&mut header, &chars_of(item.file.as_str()));
    push_all(&mut header, &chars_of(":"));
    push_decimal(&mut header, item.line as u64);
    push_all(&mut header, &chars_of("`"));
    push_line(&mut lines, header);
    if msg.len() > 0 {
        push_line(&mut lines, Vec::new());
        push_line(&mut lines, msg);
    }
    push_line(&mut lines, Vec::new());
    let mut pl = chars_of("Priority: ");
    push_all(&mut pl, &priority_label_exec(item.priority));
    push_line(&mut lines, pl);
    match &item.author {
        Some(a) => {
            let mut l = chars_of("Author: @");
            push_all(&mut l, &chars_of(a.as_str()));
            push_line(&mut lines, l);
        },
        None => {},
    }
    match &item.issue_ref {
        Some(r) => {
            let mut l = chars_of("Issue: ");
            push_all(&mut l, &chars_of(r.as_str()));
            push_line(&mut lines, l);
        },
        None => {},
    }
    assert(views(lines@) =~= description_head(item@));
    lines
}

fn push_context_block(lines: &mut Vec<Vec<char>>, item: &TodoItem, context: Option<&ContextInfo>)
    ensures
        views(final(lines)@) == views(old(lines)@) + context_block(
            item@,
            match context {
                Some(c) => Some(*c),
                None => None,
            },
        ),
{
    let ghost start = views(lines@);
    match context {
        Some(c) => {
            if c.before.len() > 0 || c.after.len() > 0 {
                let mc = chars_of(item.message.as_str());
                let msg = trim_chars(&mc);
                push_line(lines, Vec::new());
                push_line(lines, chars_of("```"));
                push_code_lines(lines, &c.before);
                let l = code_line_exec(item.line, " > ", &msg);
                push_line(lines, l);
                push_code_lines(lines, &c.after);
                push_line(lines, chars_of("```"));
                assert(views(lines@) =~= start + context_block(item@, Some(*c)));
            } else {
                assert(views(lines@) =~= start + context_block(item@, Some(*c)));
            }
        },
        None => {
            assert(views(lines@) =~= start + context_block(item@, None));
        },
    }
}

/// Build a multi-line description of a task.
pub fn build_description(item: &TodoItem, context: Option<&ContextInfo>) -> (res: String)
    ensures
        res@ == description(
            item@,
            match context {
                Some(c) => Some(*c),
                None => None,
            },
        ),
{
    let mut lines = description_head_exec(item);
    push_context_block(&mut lines, item, context);
    let joined = join_with_exec(&lines, &chars_of("\n"));
    string_from_chars(&joined)
}

// ───────────────────────── tasks ─────────────────────────

/// Model of a task: subject, description, active form and metadata.
pub struct TaskView {
    pub subject: Seq<char>,
    pub description: Seq<char>,
    pub active_form: Seq<char>,
    pub file: Seq<char>,
    pub line: usize,
    pub tag: Seq<char>,
    pub priority: Seq<char>,
    pub author: Option<Seq<char>>,
    pub issue_ref: Option<Seq<char>>,
    pub match_key: Seq<char>,
}

pub open spec fn task_view(t: ClaudeTask) -> TaskView {
    TaskView {
        subject: t.subject@,
        description: t.description@,
        active_form: t.active_form@,
        file: t.metadata.todox_file@,
        line: t.metadata.todox_line,
        tag: t.metadata.todox_tag@,
        priority: t.metadata.todox_priority@,
        author: opt_view(t.metadata.todox_author),
        issue_ref: opt_view(t.metadata.todox_issue_ref),
        match_key: t.metadata.todox_match_key@,
    }
}

/// The task of an item, with its code context if any.
pub open spec fn task_of(v: TodoItemView, ctx: Option<ContextInfo>) -> TaskView {
    TaskView {
        subject: phrase(action_verb_name(v.tag), v),
        description: description(v, ctx),
        active_form: phrase(active_verb_name(v.tag), v),
        file: v.file,
        line: v.line,
        tag: tag_name(v.tag),
        priority: priority_name(v.priority),
        author: v.author,
        issue_ref: v.issue_ref,
        match_key: match_key_of(v),
    }
}

/// `file:line` of an item, the key of its context.
pub open spec fn context_key(v: TodoItemView) -> Seq<char> {
    v.file + ":"@ + decimal(v.line as nat)
}

/// `ctx` is what `map` holds under a key whose text is `key`.
pub open spec fn context_under(map: Map<String, ContextInfo>, key: Seq<char>, ctx: Option<ContextInfo>) -> bool {
    match ctx {
        Some(c) => exists|k: String| #[trigger] map.contains_key(k) && k@ == key && map[k] == c,
        None => forall|k: String| #[trigger] map.contains_key(k) ==> k@ != key,
    }
}

/// `HashMap::get`: the value stored under a key equal to `key`, if any.
#[verifier::external_body]
fn lookup_context<'a>(map: &'a HashMap<String, ContextInfo>, key: &String) -> (res: Option<&'a ContextInfo>)
    ensures
        context_under(
            map@,
            key@,
            match res {
                Some(c) => Some(*c),
                None => None,
            },
        ),
{
    map.get(key)
}

fn copy_opt(o: &Option<String>) -> (res: Option<String>)
    ensures
        opt_view(res) == opt_view(*o),
{
    match o {
        Some(s) => Some(s.clone()),
        None => None,
    }
}

/// The task of one item.
pub fn build_task(item: &TodoItem, context: Option<&ContextInfo>) -> (res: ClaudeTask)
    ensures
        task_view(res) == task_of(
            item@,
            match context {
                Some(c) => Some(*c),
                None => None,
            },
        ),
{
    ClaudeTask {
        subject: build_subject(item),
        description: build_description(item, context),
        active_form: build_active_form(item),
        metadata: ClaudeTaskMetadata {
            todox_file: item.file.clone(),
            todox_line: item.line,
            todox_tag: string_from_chars(&item.tag.name_chars()),
            todox_priority: string_from_chars(&priority_name_chars(item.priority)),
            todox_author: copy_opt(&item.author),
            todox_issue_ref: copy_opt(&item.issue_ref),
            todox_match_key: item.match_key(),
        },
    }
}

/// `t` is the task of `v`, with the context that `map` holds for it.
pub open spec fn task_for(map: Map<String, ContextInfo>, v: TodoItemView, t: ClaudeTask) -> bool {
    exists|ctx: Option<ContextInfo>| context_under(map, context_key(v), ctx) && task_view(t) == #[trigger] task_of(v, ctx)
}

/// Convert items into tasks, in order; each task's description shows the
/// context stored in `context_map` under `file:line`, if any.
pub fn build_tasks(items: &[TodoItem], context_map: &HashMap<String, ContextInfo>) -> (res: Vec<ClaudeTask>)
    ensures
        res@.len() == items@.len(),
        forall|k: int| 0 <= k < items@.len() ==> task_for(context_map@, items@[k]@, #[trigger] res@[k]),
{
    let mut res: Vec<ClaudeTask> = Vec::new();
    let ghost mut ctxs: Seq<Option<ContextInfo>> = seq![];
    let mut i: usize = 0;
    while i < items.len()
        invariant
            i <= items@.len(),
            res@.len() == i,
            ctxs.len() == i,
            forall|k: int|
                #![trigger res@[k]]
                0 <= k < i ==> context_under(context_map@, context_key(items@[k]@), ctxs[k]) && task_view(res@[k])
                    == task_of(items@[k]@, ctxs[k]),
        decreases items@.len() - i,
    {
        let item = &items[i];
        let mut key = chars_of(item.file.as_str());
        push_all(&mut key, &chars_of(":"));
        push_decimal(&mut key, item.line as u64);
        assert(key@ =~= context_key(item@));
        let key = string_from_chars(&key);
        let ctx = lookup_context(context_map, &key);
        let t = build_task(item, ctx);
        let ghost g = match ctx {
            Some(c) => Some(*c),
            None => None,
        };
        res.push(t);
        proof {
            ctxs = ctxs.push(g);
        }
        i += 1;
    }
    assert forall|k: int| 0 <= k < items@.len() implies task_for(context_map@, items@[k]@, #[trigger] res@[k]) by {
        assert(context_under(context_map@, context_key(items@[k]@), ctxs[k]) && task_view(res@[k]) == task_of(
            items@[k]@,
            ctxs[k],
        ));
    }
    res
}

// ───────────────────────── priority order ─────────────────────────

/// Rank of a priority: urgent 2, high 1, normal 0.
pub open spec fn priority_rank(p: Priority) -> int {
    match p {
        Priority::Urgent => 2,
        Priority::High => 1,
        Priority::Normal => 0,
    }
}

/// Items ordered by priority (highest first), then tag severity (highest
/// first), then file, then line.
pub open spec fn priority_le(a: TodoItemView, b: TodoItemView) -> bool {
    if priority_rank(a.priority) != priority_rank(b.priority) {
        priority_rank(a.priority) > priority_rank(b.priority)
    } else if tag_severity(a.tag) != tag_severity(b.tag) {
        tag_severity(a.tag) > tag_severity(b.tag)
    } else if a.file != b.file {
        lex_le(a.file, b.file)
    } else {
        a.line <= b.line
    }
}

fn priority_rank_exec(p: Priority) -> (res: u8)
    ensures
        res as int == priority_rank(p),
{
    match p {
        Priority::Urgent => 2,
        Priority::High => 1,
        Priority::Normal => 0,
    }
}

/// The order [`priority_le`] on items.
pub struct PriorityOrder;

impl Order<TodoItem> for PriorityOrder {
    open spec fn le(a: &TodoItem, b: &TodoItem) -> bool {
        priority_le(a@, b@)
    }

    fn le_exec(a: &TodoItem, b: &TodoItem) -> (res: bool) {
        let pa = priority_rank_exec(a.priority);
        let pb = priority_rank_exec(b.priority);
        if pa != pb {
            return pa > pb;
        }
        let sa = a.tag.severity();
        let sb = b.tag.severity();
        if sa != sb {
            return sa > sb;
        }
        if a.file != b.file {
            let x = chars_of(a.file.as_str());
            let y = chars_of(b.file.as_str());
            return lex_le_exec(&x, &y);
        }
        a.line <= b.line
    }

    proof fn lemma_total(a: &TodoItem, b: &TodoItem) {
        lemma_lex_total(a@.file, b@.file);
    }

    proof fn lemma_trans(a: &TodoItem, b: &TodoItem, c: &TodoItem) {
        let (x, y, z) = (a@, b@, c@);
        if priority_rank(x.priority) == priority_rank(y.priority) && priority_rank(y.priority) == priority_rank(
            z.priority,
        ) && tag_severity(x.tag) == tag_severity(y.tag) && tag_severity(y.tag) == tag_severity(z.tag) {
            if x.file != y.file && y.file != z.file {
                lemma_lex_trans(x.file, y.file, z.file);
                if x.file == z.file {
                    lemma_lex_antisym(x.file, y.file);
                }
            }
        }
    }
}

/// Sort items by priority (urgent first), then tag severity (highest first),
/// then file and line.
pub fn sort_by_priority(items: &mut Vec<TodoItem>)
    ensures
        final(items)@ == stable_sort(old(items)@, |a: TodoItem, b: TodoItem| priority_le(a@, b@)),
        final(items)@.to_multiset() == old(items)@.to_multiset(),
        forall|i: int, j: int|
            #![trigger final(items)@[i], final(items)@[j]]
            0 <= i < j < final(items)@.len() ==> priority_le(final(items)@[i]@, final(items)@[j]@),
{
    let mut src: Vec<TodoItem> = Vec::new();
    std::mem::swap(items, &mut src);
    let sorted = sort_by_order::<TodoItem, PriorityOrder>(src);
    assert((|a: TodoItem, b: TodoItem| <PriorityOrder as Order<TodoItem>>::le(&a, &b)) =~= (|a: TodoItem, b: TodoItem| priority_le(a@, b@)));
    *items = sorted;
}

} // verus!
