//! Filtering of listed items by tag, priority, author and path glob.
use vstd::prelude::*;

use crate::cli::{filter_priority, PriorityFilter};
use crate::model::{item_views, tag_from_text, Priority, Tag, TodoItem, TodoItemView};

verus! {

#[verifier::external_type_specification]
#[verifier::external_body]
pub struct ExGlobSet(globset::GlobSet);

/// A compiled path glob and the source it was compiled from.
pub struct PathGlob {
    source: String,
    matcher: globset::GlobSet,
}

impl View for PathGlob {
    type V = Seq<char>;

    /// A glob is viewed as its source text.
    closed spec fn view(&self) -> Seq<char> {
        self.source@
    }
}

/// Whether the `globset` crate accepts the glob source: `Glob::new` parses it
/// and a `GlobSetBuilder` holding it builds.
pub uninterp spec fn glob_accepts(source: Seq<char>) -> bool;

/// What `globset::GlobSet::is_match` returns for the set of one glob and a
/// path.
pub uninterp spec fn glob_matches(source: Seq<char>, path: Seq<char>) -> bool;

/// The longest glob source (in characters) that is compiled.  Beyond it the
/// `globset` crate may unwrap a failed automaton build for a literal prefix or
/// suffix, which panics.
pub const GLOB_MAX_CHARS: usize = 0x1000_0000;

/// `globset::Glob::new`, then a `GlobSetBuilder` holding that glob built into
/// a `GlobSet`; `None` when the crate rejects either step (`Glob::new` or
/// `GlobSetBuilder::build` returns an error).  The contract names the outcome.
/// Sources longer than [`GLOB_MAX_CHARS`] are left out: for them the build
/// can panic (an `unwrap` on the literal automaton in `GlobSet::new`).
#[verifier::external_body]
fn glob_new(source: &str) -> (res: Option<PathGlob>)
    requires
        source@.len() <= GLOB_MAX_CHARS,
    ensures
        res is Some <==> glob_accepts(source@),
        res matches Some(g) ==> g@ == source@,
{
    let glob = match globset::Glob::new(source) {
        Ok(g) => g,
        Err(_) => return None,
    };
    match globset::GlobSetBuilder::new().add(glob).build() {
        Ok(set) => Some(PathGlob { source: source.to_string(), matcher: set }),
        Err(_) => None,
    }
}

/// A glob is compiled when it is no longer than [`GLOB_MAX_CHARS`] and the
/// `globset` crate accepts it.
pub open spec fn glob_usable(source: Seq<char>) -> bool {
    source.len() <= GLOB_MAX_CHARS && glob_accepts(source)
}

/// The glob compiled from `source`, or `None` when it cannot be compiled.
pub fn compile_glob(source: &str) -> (res: Option<PathGlob>)
    ensures
        res is Some <==> glob_usable(source@),
        res matches Some(g) ==> g@ == source@,
{
    if source.unicode_len() > GLOB_MAX_CHARS {
        return None;
    }
    glob_new(source)
}

/// `globset::GlobSet::is_match`: whether the path matches the glob.  The
/// contract names the result.
#[verifier::external_body]
pub(crate) fn glob_is_match(g: &PathGlob, path: &str) -> (res: bool)
    ensures
        res == glob_matches(g@, path@),
{
    g.matcher.is_match(path)
}

/// Filters of the `list` command; empty lists and `None` filter nothing.
pub struct FilterOptions {
    pub tags: Vec<String>,
    pub author: Option<String>,
    pub path: Option<String>,
    pub priority: Vec<PriorityFilter>,
}

/// One filter criterion.
pub enum Criterion {
    Tags(Vec<Tag>),
    Priorities(Vec<Priority>),
    Author(String),
    Glob(PathGlob),
}

/// The predicate of a criterion.
pub open spec fn criterion_pred(c: Criterion) -> spec_fn(TodoItemView) -> bool {
    match c {
        Criterion::Tags(ts) => |v: TodoItemView| ts@.contains(v.tag),
        Criterion::Priorities(ps) => |v: TodoItemView| ps@.contains(v.priority),
        Criterion::Author(a) => |v: TodoItemView| v.author == Some(a@),
        Criterion::Glob(g) => |v: TodoItemView| glob_matches(g@, v.file),
    }
}

/// The items that satisfy `p`, in order.
pub open spec fn keep(items: Seq<TodoItemView>, p: spec_fn(TodoItemView) -> bool) -> Seq<TodoItemView>
    decreases items.len(),
{
    if items.len() == 0 {
        seq![]
    } else {
        let rest = keep(items.drop_last(), p);
        if p(items.last()) {
            rest.push(items.last())
        } else {
            rest
        }
    }
}

/// The tags named by the texts, in order; texts that name no tag are dropped.
pub open spec fn named_tags(texts: Seq<Seq<char>>) -> Seq<Tag>
    decreases texts.len(),
{
    if texts.len() == 0 {
        seq![]
    } else {
        let rest = named_tags(texts.drop_last());
        match tag_from_text(texts.last()) {
            Some(t) => rest.push(t),
            None => rest,
        }
    }
}

/// The items after the tag, priority and author filters.
pub open spec fn after_plain_filters(items: Seq<TodoItemView>, f: &FilterOptions) -> Seq<TodoItemView> {
    let ts = named_tags(f.tags@.map_values(|s: String| s@));
    let ps = f.priority@.map_values(|p: PriorityFilter| filter_priority(p));
    let a = if f.tags@.len() > 0 {
        keep(items, |v: TodoItemView| ts.contains(v.tag))
    } else {
        items
    };
    let b = if f.priority@.len() > 0 {
        keep(a, |v: TodoItemView| ps.contains(v.priority))
    } else {
        a
    };
    match f.author {
        Some(au) => keep(b, |v: TodoItemView| v.author == Some(au@)),
        None => b,
    }
}

fn vec_contains_tag(ts: &Vec<Tag>, t: Tag) -> (res: bool)
    ensures
        res == ts@.contains(t),
{
    let mut k: usize = 0;
    while k < ts.len()
        invariant
            k <= ts@.len(),
            forall|j: int| 0 <= j < k ==> ts@[j] != t,
        decreases ts@.len() - k,
    {
        if ts[k] == t {
            return true;
        }
        k += 1;
    }
    false
}

fn vec_contains_priority(ps: &Vec<Priority>, p: Priority) -> (res: bool)
    ensures
        res == ps@.contains(p),
{
    let mut k: usize = 0;
    while k < ps.len()
        invariant
            k <= ps@.len(),
            forall|j: int| 0 <= j < k ==> ps@[j] != p,
        decreases ps@.len() - k,
    {
        if ps[k] == p {
            return true;
        }
        k += 1;
    }
    false
}

fn criterion_holds(c: &Criterion, item: &TodoItem) -> (res: bool)
    ensures
        res == criterion_pred(*c)(item@),
{
    match c {
        Criterion::Tags(ts) => vec_contains_tag(ts, item.tag),
        Criterion::Priorities(ps) => vec_contains_priority(ps, item.priority),
        Criterion::Author(a) => match &item.author {
            Some(x) => *x == *a,
            None => false,
        },
        Criterion::Glob(g) => glob_is_match(g, item.file.as_str()),
    }
}

/// Keep the items that satisfy the criterion, in order.
pub fn retain_matching(items: &mut Vec<TodoItem>, c: &Criterion)
    ensures
        item_views(final(items)@) == keep(item_views(old(items)@), criterion_pred(*c)),
{
    let mut src: Vec<TodoItem> = Vec::new();
    std::mem::swap(items, &mut src);
    let ghost vs = item_views(src@);
    let mut i: usize = 0;
    assert(vs.take(0) =~= Seq::<TodoItemView>::empty());
    assert(item_views(items@) =~= seq![]);
    while i < src.len()
        invariant
            vs == item_views(src@),
            i <= src@.len(),
            item_views(items@) == keep(vs.take(i as int), criterion_pred(*c)),
        decreases src@.len() - i,
    {
        assert(vs.take(i + 1).drop_last() =~= vs.take(i as int));
        assert(vs.take(i + 1).last() == src@[i as int]@);
        if criterion_holds(c, &src[i]) {
            let d = src[i].duplicate();
            let ghost before = items@;
            items.push(d);
            assert(item_views(items@) =~= item_views(before).push(d@));
        }
        i += 1;
    }
    assert(vs.take(src@.len() as int) =~= vs);
}

pub(crate) fn parse_tags(texts: &Vec<String>) -> (res: Vec<Tag>)
    ensures
        res@ == named_tags(texts@.map_values(|s: String| s@)),
{
    let ghost ts = texts@.map_values(|s: String| s@);
    let mut res: Vec<Tag> = Vec::new();
    let mut i: usize = 0;
    assert(ts.take(0) =~= Seq::<Seq<char>>::empty());
    while i < texts.len()
        invariant
            ts == texts@.map_values(|s: String| s@),
            i <= texts@.len(),
            res@ == named_tags(ts.take(i as int)),
        decreases texts@.len() - i,
    {
        assert(ts.take(i + 1).drop_last() =~= ts.take(i as int));
        assert(ts.take(i + 1).last() == texts@[i as int]@);
        match Tag::parse_tag(texts[i].as_str()) {
            Some(t) => res.push(t),
            None => {},
        }
        i += 1;
    }
    assert(ts.take(texts@.len() as int) =~= ts);
    res
}

fn filter_priorities(fs: &Vec<PriorityFilter>) -> (res: Vec<Priority>)
    ensures
        res@ == fs@.map_values(|p: PriorityFilter| filter_priority(p)),
{
    let mut res: Vec<Priority> = Vec::new();
    let mut i: usize = 0;
    while i < fs.len()
        invariant
            i <= fs@.len(),
            res@.len() == i,
            forall|k: int| 0 <= k < i ==> res@[k] == filter_priority(#[trigger] fs@[k]),
        decreases fs@.len() - i,
    {
        res.push(fs[i].to_priority());
        i += 1;
    }
    assert(res@ =~= fs@.map_values(|p: PriorityFilter| filter_priority(p)));
    res
}

/// Whether the filters apply (the glob, if any, is valid), and the items
/// they keep (with an invalid glob: those the other filters keep).
pub open spec fn filter_outcome(items: Seq<TodoItemView>, f: &FilterOptions) -> (bool, Seq<TodoItemView>) {
    let plain = after_plain_filters(items, f);
    match f.path {
        Some(p) => if glob_usable(p@) {
            (true, keep(plain, |v: TodoItemView| glob_matches(p@, v.file)))
        } else {
            (false, plain)
        },
        None => (true, plain),
    }
}

/// Apply the filters in turn: tags (texts that name no tag are ignored),
/// priorities, author, then the path glob.  An invalid glob is an error
/// (`invalid glob pattern`), after the other filters have been applied.
pub fn apply_filters(items: &mut Vec<TodoItem>, filters: &FilterOptions) -> (res: Result<(), String>)
    ensures
        res is Ok <==> filter_outcome(item_views(old(items)@), filters).0,
        item_views(final(items)@) == filter_outcome(item_views(old(items)@), filters).1,
        res matches Err(e) ==> e@ == "invalid glob pattern"@,
{
    let ghost start = item_views(items@);
    let ghost tsv = named_tags(filters.tags@.map_values(|s: String| s@));
    let ghost psv = filters.priority@.map_values(|p: PriorityFilter| filter_priority(p));
    if filters.tags.len() > 0 {
        let ts = parse_tags(&filters.tags);
        let c = Criterion::Tags(ts);
        retain_matching(items, &c);
        assert(criterion_pred(c) =~= |v: TodoItemView| tsv.contains(v.tag));
    }
    let ghost a = item_views(items@);
    if filters.priority.len() > 0 {
        let ps = filter_priorities(&filters.priority);
        let c = Criterion::Priorities(ps);
        retain_matching(items, &c);
        assert(criterion_pred(c) =~= |v: TodoItemView| psv.contains(v.priority));
    }
    let ghost b = item_views(items@);
    match &filters.author {
        Some(au) => {
            let c = Criterion::Author(au.clone());
            retain_matching(items, &c);
            assert(criterion_pred(c) =~= |v: TodoItemView| v.author == Some(au@));
        },
        None => {},
    }
    assert(item_views(items@) == after_plain_filters(start, filters));
    match &filters.path {
        Some(p) => match compile_glob(p.as_str()) {
            Some(g) => {
                let c = Criterion::Glob(g);
                retain_matching(items, &c);
                assert(criterion_pred(c) =~= |v: TodoItemView| glob_matches(p@, v.file));
                Ok(())
            },
            None => Err(crate::text::string_from_chars(&crate::text::chars_of("invalid glob pattern"))),
        },
        None => Ok(()),
    }
}

} // verus!
