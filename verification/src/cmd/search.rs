//! The `search` command's narrowing of search results: filters by tag,
//! author and path, the chosen order, and the counts over what is left.
use vstd::prelude::*;

use crate::cli::{GroupBy, SortBy};
use crate::cmd::filter::{apply_filters, filter_outcome, glob_usable, glob_matches, keep, named_tags, FilterOptions};
use crate::cmd::list::{clone_opt, clone_strings, lemma_sorted_item_views, list_le, sort_items, sorted_items};
use crate::model::{item_views, SearchResult, TodoItem, TodoItemView};
use crate::stats::{files_of, item_files, tally, tally_strings};

verus! {

/// Options of the `search` command.
pub struct SearchOptions {
    pub query: String,
    pub exact: bool,
    pub context: Option<usize>,
    pub author: Option<String>,
    pub tag: Vec<String>,
    pub path: Option<String>,
    pub sort: SortBy,
    pub group_by: GroupBy,
}

/// Whether the filters can run (the path glob compiles), and the items
/// they keep: those with one of the named tags, by the author, in files
/// matching the glob.
pub open spec fn search_outcome(items: Seq<TodoItemView>, o: &SearchOptions) -> (bool, Seq<TodoItemView>) {
    let ts = named_tags(o.tag@.map_values(|s: String| s@));
    let a = if o.tag@.len() > 0 {
        keep(items, |v: TodoItemView| ts.contains(v.tag))
    } else {
        items
    };
    let b = match o.author {
        Some(au) => keep(a, |v: TodoItemView| v.author == Some(au@)),
        None => a,
    };
    match o.path {
        Some(p) => if glob_usable(p@) {
            (true, keep(b, |v: TodoItemView| glob_matches(p@, v.file)))
        } else {
            (false, b)
        },
        None => (true, b),
    }
}

/// Narrow search results as the `search` command's options ask: keep the
/// items with one of the tags, by the author and in files matching the path
/// glob, sort them, and recount the matches and their distinct files.  An
/// invalid glob is an error (`invalid glob pattern`).
pub fn refine_search(result: &mut SearchResult, opts: &SearchOptions) -> (res: Result<(), String>)
    ensures
        res is Ok <==> search_outcome(item_views(old(result).items@), opts).0,
        res matches Err(e) ==> e@ == "invalid glob pattern"@,
        res is Ok ==> {
            let kept = search_outcome(item_views(old(result).items@), opts).1;
            &&& item_views(final(result).items@) == sorted_items(kept, opts.sort)
            &&& item_views(final(result).items@).to_multiset() == kept.to_multiset()
            &&& forall|i: int, j: int|
                0 <= i < j < final(result).items@.len() ==> list_le(
                    opts.sort,
                    (#[trigger] final(result).items@[i])@,
                    (#[trigger] final(result).items@[j])@,
                )
            &&& final(result).match_count == kept.len()
            &&& final(result).file_count == tally(item_files(kept)).len()
            &&& final(result).query@ == old(result).query@
            &&& final(result).exact == old(result).exact
        },
{
    let filters = FilterOptions {
        tags: clone_strings(&opts.tag),
        author: clone_opt(&opts.author),
        path: clone_opt(&opts.path),
        priority: Vec::new(),
    };
    let ghost start = item_views(result.items@);
    assert(filter_outcome(start, &filters) == search_outcome(start, opts));
    match apply_filters(&mut result.items, &filters) {
        Ok(()) => {},
        Err(e) => return Err(e),
    }
    let ghost kept = item_views(result.items@);
    let files = files_of(&result.items);
    let counts = tally_strings(&files);
    result.match_count = result.items.len();
    result.file_count = counts.len();
    let ghost before = result.items@;
    sort_items(&mut result.items, opts.sort);
    proof {
        crate::sorting::lemma_map_values_multiset(result.items@, before, |t: TodoItem| t@);
        lemma_sorted_item_views(before, opts.sort);
    }
    Ok(())
}

} // verus!
