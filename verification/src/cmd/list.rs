//! Preparation of the item list of the `list` command: filters, sort order
//! and limit.
use vstd::prelude::*;

use crate::cli::{DetailLevel, GroupBy, PriorityFilter, SortBy};
use crate::cmd::filter::{apply_filters, filter_outcome, FilterOptions};
use crate::model::{item_views, tag_severity, Priority, TodoItem, TodoItemView};
use crate::sorting::{lemma_lex_antisym, lemma_lex_total, lemma_lex_trans, lex_le, lex_le_exec, sort_by_order, sorted_by, stable_sort, lemma_stable_sort_map, Order};
use crate::tasks::priority_rank;
use crate::text::chars_of;

verus! {

/// Options of the `list` command.
pub struct ListOptions {
    pub tag: Vec<String>,
    pub sort: SortBy,
    pub group_by: GroupBy,
    pub priority: Vec<PriorityFilter>,
    pub author: Option<String>,
    pub path: Option<String>,
    pub limit: Option<usize>,
    pub context: Option<usize>,
    pub show_ignored: bool,
    pub detail: DetailLevel,
}

/// Location order: by file, then line.
pub open spec fn location_le(a: TodoItemView, b: TodoItemView) -> bool {
    if a.file != b.file {
        lex_le(a.file, b.file)
    } else {
        a.line <= b.line
    }
}

/// The order of a sort key: file and line; tag severity (highest first) then
/// location; or priority (highest first) then location.
pub open spec fn list_le(sort: SortBy, a: TodoItemView, b: TodoItemView) -> bool {
    match sort {
        SortBy::File => location_le(a, b),
        SortBy::Tag => if tag_severity(a.tag) != tag_severity(b.tag) {
            tag_severity(a.tag) > tag_severity(b.tag)
        } else {
            location_le(a, b)
        },
        SortBy::Priority => if priority_rank(a.priority) != priority_rank(b.priority) {
            priority_rank(a.priority) > priority_rank(b.priority)
        } else {
            location_le(a, b)
        },
    }
}

proof fn lemma_location_total(a: TodoItemView, b: TodoItemView)
    ensures
        location_le(a, b) || location_le(b, a),
{
    lemma_lex_total(a.file, b.file);
}

proof fn lemma_location_trans(a: TodoItemView, b: TodoItemView, c: TodoItemView)
    requires
        location_le(a, b),
        location_le(b, c),
    ensures
        location_le(a, c),
{
    if a.file != b.file && b.file != c.file {
        lemma_lex_trans(a.file, b.file, c.file);
        if a.file == c.file {
            lemma_lex_antisym(a.file, b.file);
        }
    }
}

fn location_le_exec(a: &TodoItem, b: &TodoItem) -> (res: bool)
    ensures
        res == location_le(a@, b@),
{
    if a.file != b.file {
        let x = chars_of(a.file.as_str());
        let y = chars_of(b.file.as_str());
        lex_le_exec(&x, &y)
    } else {
        a.line <= b.line
    }
}

fn priority_rank_exec(p: Priority) -> (res: u8)
    ensures
        res as int == priority_rank(p),
{
    match p {
        Priority::Urgent => 2,
        Priority::High => 1,
        Priority::Normal => 0,
    }
}

/// Order by file and line.
pub struct ByFile;

/// Order by tag severity (highest first), then file and line.
pub struct ByTag;

/// Order by priority (highest first), then file and line.
pub struct ByPriorityThenLocation;

impl Order<TodoItem> for ByFile {
    open spec fn le(a: &TodoItem, b: &TodoItem) -> bool {
        list_le(SortBy::File, a@, b@)
    }

    fn le_exec(a: &TodoItem, b: &TodoItem) -> (res: bool) {
        location_le_exec(a, b)
    }

    proof fn lemma_total(a: &TodoItem, b: &TodoItem) {
        lemma_location_total(a@, b@);
    }

    proof fn lemma_trans(a: &TodoItem, b: &TodoItem, c: &TodoItem) {
        lemma_location_trans(a@, b@, c@);
    }
}

impl Order<TodoItem> for ByTag {
    open spec fn le(a: &TodoItem, b: &TodoItem) -> bool {
        list_le(SortBy::Tag, a@, b@)
    }

    fn le_exec(a: &TodoItem, b: &TodoItem) -> (res: bool) {
        let sa = a.tag.severity();
        let sb = b.tag.severity();
        if sa != sb {
            sa > sb
        } else {
            location_le_exec(a, b)
        }
    }

    proof fn lemma_total(a: &TodoItem, b: &TodoItem) {
        lemma_location_total(a@, b@);
    }

    proof fn lemma_trans(a: &TodoItem, b: &TodoItem, c: &TodoItem) {
        if tag_severity(a.tag) == tag_severity(b.tag) && tag_severity(b.tag) == tag_severity(c.tag) {
            lemma_location_trans(a@, b@, c@);
        }
    }
}

impl Order<TodoItem> for ByPriorityThenLocation {
    open spec fn le(a: &TodoItem, b: &TodoItem) -> bool {
        list_le(SortBy::Priority, a@, b@)
    }

    fn le_exec(a: &TodoItem, b: &TodoItem) -> (res: bool) {
        let pa = priority_rank_exec(a.priority);
        let pb = priority_rank_exec(b.priority);
        if pa != pb {
            pa > pb
        } else {
            location_le_exec(a, b)
        }
    }

    proof fn lemma_total(a: &TodoItem, b: &TodoItem) {
        lemma_location_total(a@, b@);
    }

    proof fn lemma_trans(a: &TodoItem, b: &TodoItem, c: &TodoItem) {
        if priority_rank(a.priority) == priority_rank(b.priority) && priority_rank(b.priority) == priority_rank(
            c.priority,
        ) {
            lemma_location_trans(a@, b@, c@);
        }
    }
}

/// Items sorted stably by the given key: items equal in the key keep their
/// relative order.
pub open spec fn sorted_items(vs: Seq<TodoItemView>, sort: SortBy) -> Seq<TodoItemView> {
    stable_sort(vs, |a: TodoItemView, b: TodoItemView| list_le(sort, a, b))
}

/// Sorting items commutes with taking their views.
pub proof fn lemma_sorted_item_views(s: Seq<TodoItem>, sort: SortBy)
    ensures
        item_views(stable_sort(s, |a: TodoItem, b: TodoItem| list_le(sort, a@, b@))) == sorted_items(item_views(s), sort),
{
    let f = |t: TodoItem| t@;
    let la = |a: TodoItem, b: TodoItem| list_le(sort, a@, b@);
    let lb = |a: TodoItemView, b: TodoItemView| list_le(sort, a, b);
    lemma_stable_sort_map(s, f, la, lb);
    assert(item_views(s) =~= s.map_values(f));
    assert(item_views(stable_sort(s, la)) =~= stable_sort(s, la).map_values(f));
}

/// Sort items by the given key.
pub fn sort_items(items: &mut Vec<TodoItem>, sort: SortBy)
    ensures
        final(items)@ == stable_sort(old(items)@, |a: TodoItem, b: TodoItem| list_le(sort, a@, b@)),
        final(items)@.to_multiset() == old(items)@.to_multiset(),
        forall|i: int, j: int|
            #![trigger final(items)@[i], final(items)@[j]]
            0 <= i < j < final(items)@.len() ==> list_le(sort, final(items)@[i]@, final(items)@[j]@),
{
    let mut src: Vec<TodoItem> = Vec::new();
    std::mem::swap(items, &mut src);
    let sorted = match sort {
        SortBy::File => sort_by_order::<TodoItem, ByFile>(src),
        SortBy::Tag => sort_by_order::<TodoItem, ByTag>(src),
        SortBy::Priority => sort_by_order::<TodoItem, ByPriorityThenLocation>(src),
    };
    proof {
        let le = |a: TodoItem, b: TodoItem| list_le(sort, a@, b@);
        match sort {
            SortBy::File => assert(le =~= (|a: TodoItem, b: TodoItem| <ByFile as Order<TodoItem>>::le(&a, &b))),
            SortBy::Tag => assert(le =~= (|a: TodoItem, b: TodoItem| <ByTag as Order<TodoItem>>::le(&a, &b))),
            SortBy::Priority => assert(le =~= (|a: TodoItem, b: TodoItem| <ByPriorityThenLocation as Order<TodoItem>>::le(&a, &b))),
        }
    }
    *items = sorted;
}

/// The filters of the list options.
pub open spec fn list_filters(opts: &ListOptions) -> FilterOptions {
    FilterOptions { tags: opts.tag, author: opts.author, path: opts.path, priority: opts.priority }
}

/// The first `limit` items, or all of them.
pub open spec fn limited<T>(s: Seq<T>, limit: Option<usize>) -> Seq<T> {
    match limit {
        Some(n) => if n < s.len() {
            s.take(n as int)
        } else {
            s
        },
        None => s,
    }
}

pub(crate) fn clone_strings(v: &Vec<String>) -> (res: Vec<String>)
    ensures
        res@ == v@,
{
    let mut res: Vec<String> = Vec::new();
    let mut i: usize = 0;
    while i < v.len()
        invariant
            i <= v@.len(),
            res@ == v@.take(i as int),
        decreases v@.len() - i,
    {
        res.push(v[i].clone());
        assert(v@.take(i + 1) =~= v@.take(i as int).push(v@[i as int]));
        i += 1;
    }
    assert(v@.take(v@.len() as int) =~= v@);
    res
}

fn clone_filters(v: &Vec<PriorityFilter>) -> (res: Vec<PriorityFilter>)
    ensures
        res@ == v@,
{
    let mut res: Vec<PriorityFilter> = Vec::new();
    let mut i: usize = 0;
    while i < v.len()
        invariant
            i <= v@.len(),
            res@ == v@.take(i as int),
        decreases v@.len() - i,
    {
        res.push(v[i]);
        assert(v@.take(i + 1) =~= v@.take(i as int).push(v@[i as int]));
        i += 1;
    }
    assert(v@.take(v@.len() as int) =~= v@);
    res
}

pub(crate) fn clone_opt(o: &Option<String>) -> (res: Option<String>)
    ensures
        res == *o,
{
    match o {
        Some(s) => Some(s.clone()),
        None => None,
    }
}

/// Filter, sort and truncate the items of the `list` command.  An invalid
/// path glob is an error (`invalid glob pattern`) and leaves the items
/// filtered but neither sorted nor truncated.
pub fn prepare_list(items: &mut Vec<TodoItem>, opts: &ListOptions) -> (res: Result<(), String>)
    ensures
        res is Ok <==> filter_outcome(item_views(old(items)@), &list_filters(opts)).0,
        res matches Err(e) ==> e@ == "invalid glob pattern"@ && item_views(final(items)@) == filter_outcome(
            item_views(old(items)@),
            &list_filters(opts),
        ).1,
        res is Ok ==> item_views(final(items)@) == limited(
            sorted_items(filter_outcome(item_views(old(items)@), &list_filters(opts)).1, opts.sort),
            opts.limit,
        ),
{
    let filters = FilterOptions {
        tags: clone_strings(&opts.tag),
        author: clone_opt(&opts.author),
        path: clone_opt(&opts.path),
        priority: clone_filters(&opts.priority),
    };
    assert(filters.tags@ == list_filters(opts).tags@ && filters.priority@ == list_filters(opts).priority@);
    assert(filter_outcome(item_views(items@), &filters) == filter_outcome(item_views(items@), &list_filters(opts)));
    match apply_filters(items, &filters) {
        Ok(()) => {},
        Err(e) => {
            return Err(e);
        },
    }
    let ghost filtered = items@;
    sort_items(items, opts.sort);
    let ghost sorted = items@;
    proof {
        lemma_sorted_item_views(filtered, opts.sort);
    }
    match opts.limit {
        Some(n) => {
            items.truncate(n);
        },
        None => {},
    }
    assert(items@ =~= limited(sorted, opts.limit));
    assert(item_views(items@) =~= limited(item_views(sorted), opts.limit));
    Ok(())
}

} // verus!
