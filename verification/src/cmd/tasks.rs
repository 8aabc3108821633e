//! The `tasks` command's choice of items: the filters of the listing, then
//! the order of work.
use vstd::prelude::*;

use crate::cli::PriorityFilter;
use crate::cmd::filter::{apply_filters, filter_outcome, FilterOptions};
use crate::cmd::list::{clone_opt, clone_strings};
use crate::diff::{diff_entry_views, entry_view};
use crate::model::{item_views, DiffEntry, DiffResult, DiffStatus, TodoItem, TodoItemView};
use crate::sorting::stable_sort;
use crate::tasks::{priority_le, sort_by_priority};

verus! {

broadcast use vstd::seq_lib::group_to_multiset_ensures;

/// Options of the `tasks` command.
pub struct TasksOptions {
    pub tag: Vec<String>,
    pub context: usize,
    pub output: Option<String>,
    pub dry_run: bool,
    pub since: Option<String>,
    pub priority: Vec<PriorityFilter>,
    pub author: Option<String>,
    pub path: Option<String>,
}

/// The filters of the task options.
pub open spec fn task_filters(opts: &TasksOptions) -> FilterOptions {
    FilterOptions { tags: opts.tag, author: opts.author, path: opts.path, priority: opts.priority }
}

/// The items a diff adds, in order.
pub open spec fn added_views(es: Seq<(DiffStatus, TodoItemView)>) -> Seq<TodoItemView>
    decreases es.len(),
{
    if es.len() == 0 {
        seq![]
    } else if es.last().0 == DiffStatus::Added {
        added_views(es.drop_last()).push(es.last().1)
    } else {
        added_views(es.drop_last())
    }
}

/// The items of the entries that a diff adds.
pub fn added_items(diff: DiffResult) -> (res: Vec<TodoItem>)
    ensures
        item_views(res@) == added_views(diff_entry_views(diff.entries@)),
{
    let mut src = diff.entries;
    let ghost all = diff_entry_views(src@);
    let total: usize = src.len();
    let mut out: Vec<TodoItem> = Vec::new();
    let mut n: usize = 0;
    while src.len() > 0
        invariant
            all.len() == total,
            n + src@.len() == total,
            diff_entry_views(src@) == all.skip(n as int),
            item_views(out@) == added_views(all.take(n as int)),
        decreases src@.len(),
    {
        let ghost old_src = src@;
        let ghost before = item_views(out@);
        let e = src.remove(0);
        proof {
            assert(all.skip(n as int)[0] == entry_view(e));
            assert(src@ =~= old_src.drop_first());
            assert(diff_entry_views(src@) =~= diff_entry_views(old_src).drop_first());
            assert(diff_entry_views(src@) =~= all.skip(n + 1));
            assert(all.take(n + 1).drop_last() =~= all.take(n as int));
            assert(all.take(n + 1).last() == entry_view(e));
        }
        if e.status == DiffStatus::Added {
            let it = e.item;
            out.push(it);
            assert(item_views(out@) =~= before.push(it@));
        }
        n += 1;
    }
    assert(all.take(total as int) =~= all);
    out
}

/// Filter the items as the task options ask (tags, priorities, author, path
/// glob) and put them in order of work: urgent first, then by tag severity,
/// then by file and line.  An invalid glob is an error
/// (`invalid glob pattern`).
pub fn select_task_items(items: &mut Vec<TodoItem>, opts: &TasksOptions) -> (res: Result<(), String>)
    ensures
        res is Ok <==> filter_outcome(item_views(old(items)@), &task_filters(opts)).0,
        res matches Err(e) ==> e@ == "invalid glob pattern"@,
        res is Ok ==> item_views(final(items)@) == stable_sort(
            filter_outcome(item_views(old(items)@), &task_filters(opts)).1,
            |a: TodoItemView, b: TodoItemView| priority_le(a, b),
        ),
        res is Ok ==> item_views(final(items)@).to_multiset() == filter_outcome(
            item_views(old(items)@),
            &task_filters(opts),
        ).1.to_multiset(),
        res is Ok ==> forall|i: int, j: int|
            0 <= i < j < final(items)@.len() ==> priority_le(
                (#[trigger] final(items)@[i])@,
                (#[trigger] final(items)@[j])@,
            ),
{
    let filters = FilterOptions {
        tags: clone_strings(&opts.tag),
        author: clone_opt(&opts.author),
        path: clone_opt(&opts.path),
        priority: clone_priorities(&opts.priority),
    };
    assert(filter_outcome(item_views(items@), &filters) == filter_outcome(item_views(items@), &task_filters(opts)));
    match apply_filters(items, &filters) {
        Ok(()) => {},
        Err(e) => return Err(e),
    }
    let ghost before = items@;
    sort_by_priority(items);
    proof {
        crate::sorting::lemma_map_values_multiset(items@, before, |t: TodoItem| t@);
        let f = |t: TodoItem| t@;
        let la = |a: TodoItem, b: TodoItem| priority_le(a@, b@);
        let lb = |a: TodoItemView, b: TodoItemView| priority_le(a, b);
        crate::sorting::lemma_stable_sort_map(before, f, la, lb);
        assert(item_views(before) =~= before.map_values(f));
        assert(item_views(items@) =~= items@.map_values(f));
    }
    Ok(())
}

fn clone_priorities(v: &Vec<PriorityFilter>) -> (res: Vec<PriorityFilter>)
    ensures
        res@ == v@,
{
    let mut res: Vec<PriorityFilter> = Vec::new();
    let mut i: usize = 0;
    while i < v.len()
        invariant
            i <= v@.len(),
            res@ == v@.take(i as int),
        decreases v@.len() - i,
    {
        res.push(v[i]);
        assert(v@.take(i + 1) =~= v@.take(i as int).push(v@[i as int]));
        i += 1;
    }
    assert(v@.take(v@.len() as int) =~= v@);
    res
}

} // verus!
