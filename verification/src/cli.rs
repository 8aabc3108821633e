//! Option values of the command line, without the argument parser (which the
//! command-line tool derives on its own copies of these types).
use vstd::prelude::*;

use crate::model::Priority;

verus! {

/// How much detail to show per item.
#[derive(Clone, Copy, Debug, PartialEq, Eq, Structural)]
pub enum DetailLevel {
    Minimal,
    Normal,
    Full,
}

/// The item fields that a detail level leaves out of a listed item: the
/// author, issue reference, priority and deadline at the minimal level,
/// none otherwise.
pub open spec fn omitted_fields(d: DetailLevel) -> Seq<Seq<char>> {
    match d {
        DetailLevel::Minimal => seq!["author"@, "issue_ref"@, "priority"@, "deadline"@],
        _ => seq![],
    }
}

/// The names of the item fields that `d` leaves out (see [`omitted_fields`]).
pub fn omitted_item_fields(d: DetailLevel) -> (res: Vec<String>)
    ensures
        res@.map_values(|s: String| s@) == omitted_fields(d),
{
    let res = match d {
        DetailLevel::Minimal => vec![
            crate::text::str_to_string("author"),
            crate::text::str_to_string("issue_ref"),
            crate::text::str_to_string("priority"),
            crate::text::str_to_string("deadline"),
        ],
        _ => Vec::new(),
    };
    assert(res@.map_values(|s: String| s@) =~= omitted_fields(d));
    res
}

/// Whether a listed item also shows its match key: at the full level.
pub fn shows_match_key(d: DetailLevel) -> (res: bool)
    ensures
        res == (d == DetailLevel::Full),
{
    match d {
        DetailLevel::Full => true,
        _ => false,
    }
}

/// Output format.
#[derive(Clone, Copy, Debug, PartialEq, Eq, Structural)]
pub enum Format {
    Text,
    Json,
    GithubActions,
    Sarif,
    Markdown,
}

/// Sort order of listed items.
#[derive(Clone, Copy, Debug, PartialEq, Eq, Structural)]
pub enum SortBy {
    File,
    Tag,
    Priority,
}

/// Grouping of listed items.
#[derive(Clone, Copy, Debug, PartialEq, Eq, Structural)]
pub enum GroupBy {
    File,
    Tag,
    Priority,
    Author,
    Dir,
}

/// A priority to filter on.
#[derive(Clone, Copy, Debug, PartialEq, Eq, Structural)]
pub enum PriorityFilter {
    Normal,
    High,
    Urgent,
}

/// Sort order of blame entries.
#[derive(Clone, Copy, Debug, PartialEq, Eq, Structural)]
pub enum BlameSortBy {
    File,
    Age,
    Author,
    Tag,
}

/// Subcommands of `workspace`.
#[derive(Clone, Copy, Debug, PartialEq, Eq, Structural)]
pub enum WorkspaceAction {
    List,
}

/// The priority a filter value selects.
pub open spec fn filter_priority(p: PriorityFilter) -> Priority {
    match p {
        PriorityFilter::Normal => Priority::Normal,
        PriorityFilter::High => Priority::High,
        PriorityFilter::Urgent => Priority::Urgent,
    }
}

impl PriorityFilter {
    /// The priority this filter value selects.
    pub fn to_priority(&self) -> (res: Priority)
        ensures
            res == filter_priority(*self),
    {
        match self {
            PriorityFilter::Normal => Priority::Normal,
            PriorityFilter::High => Priority::High,
            PriorityFilter::Urgent => Priority::Urgent,
        }
    }
}

} // verus!
