//! The `diff` command's tag filter over a diff, with the counts recomputed.
use vstd::prelude::*;

use crate::cmd::filter::{named_tags, parse_tags};
use crate::diff::{diff_entry_views, entry_view};
use crate::model::{DiffEntry, DiffResult, DiffStatus, Tag, TodoItemView};

verus! {

/// The entries whose item has one of the tags, in order.
pub open spec fn entries_with_tags(es: Seq<(DiffStatus, TodoItemView)>, ts: Seq<Tag>) -> Seq<(DiffStatus, TodoItemView)>
    decreases es.len(),
{
    if es.len() == 0 {
        seq![]
    } else if ts.contains(es.last().1.tag) {
        entries_with_tags(es.drop_last(), ts).push(es.last())
    } else {
        entries_with_tags(es.drop_last(), ts)
    }
}

/// Number of entries with status `s`.
pub open spec fn count_status(es: Seq<(DiffStatus, TodoItemView)>, s: DiffStatus) -> nat
    decreases es.len(),
{
    if es.len() == 0 {
        0
    } else {
        count_status(es.drop_last(), s) + if es.last().0 == s {
            1nat
        } else {
            0nat
        }
    }
}

fn count_status_exec(es: &Vec<DiffEntry>, s: DiffStatus) -> (res: usize)
    ensures
        res == count_status(diff_entry_views(es@), s),
{
    let ghost vs = diff_entry_views(es@);
    let mut n: usize = 0;
    let mut i: usize = 0;
    while i < es.len()
        invariant
            i <= es@.len(),
            vs == diff_entry_views(es@),
            n == count_status(vs.take(i as int), s),
            n <= i,
        decreases es@.len() - i,
    {
        assert(vs.take(i + 1).drop_last() =~= vs.take(i as int));
        assert(vs.take(i + 1).last() == entry_view(es@[i as int]));
        if es[i].status == s {
            n += 1;
        }
        i += 1;
    }
    assert(vs.take(es@.len() as int) =~= vs);
    n
}

/// Keep the diff entries whose tag is named in `tags` (all of them when
/// `tags` is empty), and recount the added and removed entries after
/// filtering.
pub fn filter_diff_tags(diff: &mut DiffResult, tags: &Vec<String>)
    ensures
        tags@.len() == 0 ==> *final(diff) == *old(diff),
        tags@.len() > 0 ==> {
            let kept = entries_with_tags(
                diff_entry_views(old(diff).entries@),
                named_tags(tags@.map_values(|s: String| s@)),
            );
            &&& diff_entry_views(final(diff).entries@) == kept
            &&& final(diff).added_count == count_status(kept, DiffStatus::Added)
            &&& final(diff).removed_count == count_status(kept, DiffStatus::Removed)
            &&& final(diff).base_ref == old(diff).base_ref
        },
{
    if tags.len() == 0 {
        return;
    }
    let ts = parse_tags(tags);
    let mut src: Vec<DiffEntry> = Vec::new();
    std::mem::swap(&mut src, &mut diff.entries);
    let ghost all = diff_entry_views(src@);
    let total: usize = src.len();
    let mut n: usize = 0;
    while src.len() > 0
        invariant
            all.len() == total,
            n + src@.len() == total,
            diff_entry_views(src@) == all.skip(n as int),
            diff_entry_views(diff.entries@) == entries_with_tags(all.take(n as int), ts@),
            diff.base_ref == old(diff).base_ref,
        decreases src@.len(),
    {
        let ghost old_src = src@;
        let ghost before = diff_entry_views(diff.entries@);
        let e = src.remove(0);
        proof {
            assert(all.skip(n as int)[0] == entry_view(e));
            assert(src@ =~= old_src.drop_first());
            assert(diff_entry_views(src@) =~= diff_entry_views(old_src).drop_first());
            assert(diff_entry_views(src@) =~= all.skip(n + 1));
            assert(all.take(n + 1).drop_last() =~= all.take(n as int));
            assert(all.take(n + 1).last() == entry_view(e));
        }
        let mut found = false;
        let mut k: usize = 0;
        while k < ts.len()
            invariant
                k <= ts@.len(),
                found <==> exists|m: int| 0 <= m < k && ts@[m] == e.item.tag,
            decreases ts@.len() - k,
        {
            if ts[k] == e.item.tag {
                found = true;
            }
            k += 1;
        }
        assert(found == ts@.contains(e.item.tag));
        if found {
            diff.entries.push(e);
            assert(diff_entry_views(diff.entries@) =~= before.push(entry_view(e)));
        }
        n += 1;
    }
    assert(all.take(total as int) =~= all);
    assert(ts@ == named_tags(tags@.map_values(|s: String| s@)));
    assert(diff_entry_views(diff.entries@) == entries_with_tags(all, ts@));
    diff.added_count = count_status_exec(&diff.entries, DiffStatus::Added);
    diff.removed_count = count_status_exec(&diff.entries, DiffStatus::Removed);
}

} // verus!
