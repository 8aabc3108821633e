//! The in-memory index behind watch mode: TODO items by file, re-scanned one
//! file at a time as files change, with the decision of what each change
//! reports.
//!
//! Watching the file system, reading files and printing belong to the
//! command-line tool, which hands each changed file's content to
//! [`TodoIndex::handle_change`].
use vstd::prelude::*;

use crate::config::{string_views, tags_pattern_of, Config};
use crate::date_utils::now_iso8601;
use crate::diff::{file_update, keys_of, lemma_nothing_missing, missing_from};
use crate::keyed::{distinct_keys, lemma_lookup_after_remove, lemma_lookup_after_store, lookup, removed, store, stored, take_key};
use crate::model::{clone_items, item_views, match_key_of, tag_name, FileUpdate, Tag, TodoItem, TodoItemView, WatchEvent};
use crate::pattern::{regex_accepts, regex_captures, Pattern};
use crate::scanner::{scan_content, scan_content_spec};
use crate::sorting::{sort_by_order, Order};
use crate::text::str_to_string;

verus! {

broadcast use vstd::seq_lib::group_to_multiset_ensures;

// ───────────────────────── specifications ─────────────────────────

/// The items stored for file `f` (none when the file has no entry).
pub open spec fn file_items(es: Seq<(String, Vec<TodoItem>)>, f: Seq<char>) -> Seq<TodoItemView> {
    match lookup(es, f) {
        Some(v) => item_views(v@),
        None => seq![],
    }
}

/// The items found in file `f`, in order.
pub open spec fn in_file(items: Seq<TodoItemView>, f: Seq<char>) -> Seq<TodoItemView>
    decreases items.len(),
{
    if items.len() == 0 {
        seq![]
    } else if items.last().file == f {
        in_file(items.drop_last(), f).push(items.last())
    } else {
        in_file(items.drop_last(), f)
    }
}

/// The pattern sources that the `regex` crate accepts, in order.
pub open spec fn accepted(sources: Seq<Seq<char>>) -> Seq<Seq<char>>
    decreases sources.len(),
{
    if sources.len() == 0 {
        seq![]
    } else if regex_accepts(sources.last()) {
        accepted(sources.drop_last()).push(sources.last())
    } else {
        accepted(sources.drop_last())
    }
}

/// The components of a path as text (`std::path::Path::components`).
pub uninterp spec fn path_components_of(path: Seq<char>) -> Seq<Seq<char>>;

/// `Path::components`, each component as text.  The contract names the
/// result.
#[verifier::external_body]
fn path_components(path: &str) -> (res: Vec<String>)
    ensures
        string_views(res@) == path_components_of(path@),
{
    std::path::Path::new(path).components().map(|c| c.as_os_str().to_string_lossy().to_string()).collect()
}

/// Whether one of the path's components is one of the excluded directories.
pub open spec fn in_excluded_dir(dirs: Seq<Seq<char>>, path: Seq<char>) -> bool {
    exists|i: int, j: int|
        0 <= i < dirs.len() && 0 <= j < path_components_of(path).len() && #[trigger] path_components_of(
            path,
        )[j] == #[trigger] dirs[i]
}

/// Whether one of the exclude patterns matches the path.
pub open spec fn matches_exclude(pats: Seq<Seq<char>>, path: Seq<char>) -> bool {
    exists|k: int| 0 <= k < pats.len() && regex_captures(#[trigger] pats[k], path) is Some
}

/// Number of items with tag `t`.
pub open spec fn count_tag(items: Seq<TodoItemView>, t: Tag) -> nat
    decreases items.len(),
{
    if items.len() == 0 {
        0
    } else {
        count_tag(items.drop_last(), t) + if items.last().tag == t {
            1nat
        } else {
            0nat
        }
    }
}

/// Number of items with tag `t` over all files.
pub open spec fn entries_tag_count(es: Seq<(String, Vec<TodoItem>)>, t: Tag) -> nat
    decreases es.len(),
{
    if es.len() == 0 {
        0
    } else {
        entries_tag_count(es.drop_last(), t) + count_tag(item_views(es.last().1@), t)
    }
}

/// Number of items over all files.
pub open spec fn entries_total(es: Seq<(String, Vec<TodoItem>)>) -> nat
    decreases es.len(),
{
    if es.len() == 0 {
        0
    } else {
        entries_total(es.drop_last()) + es.last().1@.len()
    }
}

/// A count as a `usize`, saturated at `usize::MAX`.
pub open spec fn capped(n: nat) -> usize {
    if n <= usize::MAX {
        n as usize
    } else {
        usize::MAX
    }
}

/// The six tags.
pub open spec fn all_tags() -> Seq<Tag> {
    seq![Tag::Todo, Tag::Fixme, Tag::Hack, Tag::Xxx, Tag::Bug, Tag::Note]
}

/// `(tag, count)` for each of `ts` that occurs, in the order of `ts`.
pub open spec fn present_counts(ts: Seq<Tag>, es: Seq<(String, Vec<TodoItem>)>) -> Seq<(Tag, usize)>
    decreases ts.len(),
{
    if ts.len() == 0 {
        seq![]
    } else {
        let p = present_counts(ts.drop_last(), es);
        let t = ts.last();
        if entries_tag_count(es, t) > 0 {
            p.push((t, capped(entries_tag_count(es, t))))
        } else {
            p
        }
    }
}

/// Difference of two counts, when it fits in an `i64`.
pub open spec fn delta_fits(total: int, previous: int) -> bool {
    -0x7fff_ffff_ffff_ffff <= total - previous <= 0x7fff_ffff_ffff_ffff
}

/// The items whose tag is among `tags` (all of them when `tags` is empty).
pub open spec fn with_tags(items: Seq<TodoItemView>, tags: Seq<Tag>) -> Seq<TodoItemView>
    decreases items.len(),
{
    if items.len() == 0 {
        seq![]
    } else if tags.len() == 0 || tags.contains(items.last().tag) {
        with_tags(items.drop_last(), tags).push(items.last())
    } else {
        with_tags(items.drop_last(), tags)
    }
}

/// The text of an optional string.
pub open spec fn opt_text(o: Option<&str>) -> Option<Seq<char>> {
    match o {
        Some(t) => Some(t@),
        None => None,
    }
}

/// The items a file holds after a change: the scan of its new text, or none
/// when it is gone.
pub open spec fn rescanned(pattern: Seq<char>, file: Seq<char>, content: Option<Seq<char>>) -> Seq<TodoItemView> {
    match content {
        Some(c) => scan_content_spec(c, file, pattern).0,
        None => seq![],
    }
}

/// Items a change adds and removes: new items whose match key the old ones
/// lack, and old items whose match key the new ones lack; a file that is
/// gone removes all its items.
pub open spec fn change_of(
    es: Seq<(String, Vec<TodoItem>)>,
    pattern: Seq<char>,
    file: Seq<char>,
    content: Option<Seq<char>>,
) -> (Seq<TodoItemView>, Seq<TodoItemView>) {
    match content {
        Some(c) => (
            missing_from(scan_content_spec(c, file, pattern).0, file_items(es, file)),
            missing_from(file_items(es, file), scan_content_spec(c, file, pattern).0),
        ),
        None => (seq![], file_items(es, file)),
    }
}

/// Re-scanning a file whose scan finds the items already stored for it
/// reports nothing added and nothing removed.
pub proof fn lemma_unchanged_rescan(es: Seq<(String, Vec<TodoItem>)>, pattern: Seq<char>, file: Seq<char>, content: Seq<char>)
    requires
        scan_content_spec(content, file, pattern).0 == file_items(es, file),
    ensures
        change_of(es, pattern, file, Some(content)).0.len() == 0,
        change_of(es, pattern, file, Some(content)).1.len() == 0,
{
    let cur = file_items(es, file);
    assert forall|k: int| 0 <= k < cur.len() implies keys_of(cur).contains(match_key_of(#[trigger] cur[k])) by {
        assert(keys_of(cur)[k] == match_key_of(cur[k]));
    }
    lemma_nothing_missing(cur, cur);
}

// ───────────────────────── the index ─────────────────────────

/// In-memory index of TODO items grouped by file path.
pub struct TodoIndex {
    items: Vec<(String, Vec<TodoItem>)>,
    pattern: Pattern,
    root: String,
    exclude_dirs: Vec<String>,
    exclude_regexes: Vec<Pattern>,
}

/// Compile each source, keeping those the `regex` crate accepts.
fn compile_patterns(sources: &Vec<String>) -> (res: Vec<Pattern>)
    ensures
        res@.map_values(|p: Pattern| p@) == accepted(string_views(sources@)),
{
    let ghost sv = string_views(sources@);
    let mut res: Vec<Pattern> = Vec::new();
    let mut i: usize = 0;
    while i < sources.len()
        invariant
            i <= sources@.len(),
            sv == string_views(sources@),
            res@.map_values(|p: Pattern| p@) == accepted(sv.take(i as int)),
        decreases sources@.len() - i,
    {
        assert(sv.take(i + 1).drop_last() =~= sv.take(i as int));
        assert(sv.take(i + 1).last() == sources@[i as int]@);
        match Pattern::new(sources[i].as_str()) {
            Some(p) => {
                let ghost before = res@;
                res.push(p);
                assert(res@.map_values(|p: Pattern| p@) =~= before.map_values(|p: Pattern| p@).push(p@));
            },
            None => {},
        }
        i += 1;
    }
    assert(sv.take(sources@.len() as int) =~= sv);
    res
}

fn tag_count_exec(es: &Vec<(String, Vec<TodoItem>)>, t: Tag) -> (res: usize)
    ensures
        res == capped(entries_tag_count(es@, t)),
{
    let mut n: usize = 0;
    let mut i: usize = 0;
    while i < es.len()
        invariant
            i <= es@.len(),
            n == capped(entries_tag_count(es@.take(i as int), t)),
        decreases es@.len() - i,
    {
        assert(es@.take(i + 1).drop_last() =~= es@.take(i as int));
        let v = &es[i].1;
        let ghost iv = item_views(v@);
        let ghost base = entries_tag_count(es@.take(i as int), t);
        let mut j: usize = 0;
        while j < v.len()
            invariant
                j <= v@.len(),
                iv == item_views(v@),
                n == capped(base + count_tag(iv.take(j as int), t)),
            decreases v@.len() - j,
        {
            assert(iv.take(j + 1).drop_last() =~= iv.take(j as int));
            if v[j].tag == t {
                n = n.saturating_add(1);
            }
            j += 1;
        }
        assert(iv.take(v@.len() as int) =~= iv);
        i += 1;
    }
    assert(es@.take(es@.len() as int) =~= es@);
    n
}

/// Orders `(tag, count)` pairs by descending count.
pub struct ByCountDesc;

impl Order<(Tag, usize)> for ByCountDesc {
    open spec fn le(a: &(Tag, usize), b: &(Tag, usize)) -> bool {
        a.1 >= b.1
    }

    fn le_exec(a: &(Tag, usize), b: &(Tag, usize)) -> (res: bool) {
        a.1 >= b.1
    }

    proof fn lemma_total(a: &(Tag, usize), b: &(Tag, usize)) {
    }

    proof fn lemma_trans(a: &(Tag, usize), b: &(Tag, usize), c: &(Tag, usize)) {
    }
}

impl TodoIndex {
    #[verifier::type_invariant]
    spec fn inv(self) -> bool {
        distinct_keys(self.items@)
    }

    /// The stored `(file, items)` entries.
    pub closed spec fn entries(self) -> Seq<(String, Vec<TodoItem>)> {
        self.items@
    }

    /// Source of the tag pattern the index scans with.
    pub closed spec fn pattern_source(self) -> Seq<char> {
        self.pattern@
    }

    /// The root directory the index was built for.
    pub closed spec fn root_path(self) -> Seq<char> {
        self.root@
    }

    /// Names of the directories whose files are excluded.
    pub closed spec fn exclude_dir_names(self) -> Seq<Seq<char>> {
        string_views(self.exclude_dirs@)
    }

    /// Sources of the exclude patterns that compiled.
    pub closed spec fn exclude_sources(self) -> Seq<Seq<char>> {
        self.exclude_regexes@.map_values(|p: Pattern| p@)
    }

    /// Build the index of a scanned tree: the scanned items grouped by file,
    /// the tag pattern and the exclusion settings of `config`.  `None` when
    /// the `regex` crate rejects the tag pattern.
    pub fn new(root: &str, config: &Config, scanned: Vec<TodoItem>) -> (res: Option<TodoIndex>)
        ensures
            res is Some <==> regex_accepts(tags_pattern_of(string_views(config.tags@))),
            res matches Some(ix) ==> {
                &&& forall|f: Seq<char>| #[trigger] file_items(ix.entries(), f) == in_file(item_views(scanned@), f)
                &&& ix.pattern_source() == tags_pattern_of(string_views(config.tags@))
                &&& ix.root_path() == root@
                &&& ix.exclude_dir_names() == string_views(config.exclude_dirs@)
                &&& ix.exclude_sources() == accepted(string_views(config.exclude_patterns@))
            },
    {
        let source = config.tags_pattern();
        let pattern = match Pattern::new(source.as_str()) {
            Some(p) => p,
            None => return None,
        };
        let exclude_regexes = compile_patterns(&config.exclude_patterns);
        let ghost sv = item_views(scanned@);
        let mut items: Vec<(String, Vec<TodoItem>)> = Vec::new();
        let mut i: usize = 0;
        while i < scanned.len()
            invariant
                i <= scanned@.len(),
                sv == item_views(scanned@),
                distinct_keys(items@),
                forall|f: Seq<char>| #[trigger] file_items(items@, f) == in_file(sv.take(i as int), f),
            decreases scanned@.len() - i,
        {
            let ghost before = items@;
            let it = scanned[i].duplicate();
            proof {
                assert(sv.take(i + 1).drop_last() =~= sv.take(i as int));
                assert(sv.take(i + 1).last() == it@);
            }
            let mut v = match take_key(&mut items, it.file.as_str()) {
                Some(v) => v,
                None => Vec::new(),
            };
            let ghost mid = items@;
            let ghost old_v = v@;
            assert(item_views(old_v) =~= file_items(before, it.file@));
            let key = it.file.clone();
            let ghost itv = it@;
            v.push(it);
            proof {
                assert(item_views(v@) =~= item_views(old_v).push(itv));
            }
            let ghost new_v = v;
            store(&mut items, key, v);
            proof {
                assert(sv.take(i + 1).last() == itv);
                assert(itv.file == key@);
                assert forall|f: Seq<char>| #[trigger] file_items(items@, f) == in_file(sv.take(i + 1), f) by {
                    lemma_lookup_after_store(mid, key, new_v, f);
                    lemma_lookup_after_remove(before, key@, f);
                    if f == key@ {
                        assert(file_items(items@, f) == item_views(new_v@));
                    } else {
                        assert(file_items(items@, f) == file_items(before, f));
                    }
                }
            }
            i += 1;
        }
        assert(sv.take(scanned@.len() as int) =~= sv);
        let ix = TodoIndex { items, pattern, root: str_to_string(root), exclude_dirs: clone_strings(&config.exclude_dirs), exclude_regexes };
        Some(ix)
    }

    /// Re-scan file `relative_path`, whose content is now `content`: its
    /// entry becomes the new scan's items (none when it found nothing), and
    /// the result lists the new items whose match key the old ones lack and
    /// the old items whose match key the new ones lack.
    pub fn update_file(&mut self, relative_path: &str, content: &str) -> (res: FileUpdate)
        ensures
            forall|f: Seq<char>| #[trigger] file_items(final(self).entries(), f) == if f == relative_path@ {
                scan_content_spec(content@, relative_path@, old(self).pattern_source()).0
            } else {
                file_items(old(self).entries(), f)
            },
            item_views(res.added@) == missing_from(
                scan_content_spec(content@, relative_path@, old(self).pattern_source()).0,
                file_items(old(self).entries(), relative_path@),
            ),
            item_views(res.removed@) == missing_from(
                file_items(old(self).entries(), relative_path@),
                scan_content_spec(content@, relative_path@, old(self).pattern_source()).0,
            ),
            final(self).pattern_source() == old(self).pattern_source(),
            final(self).root_path() == old(self).root_path(),
            final(self).exclude_dir_names() == old(self).exclude_dir_names(),
            final(self).exclude_sources() == old(self).exclude_sources(),
    {
        proof {
            use_type_invariant(&*self);
        }
        let ghost before = self.items@;
        let scanned = scan_content(content, relative_path, &self.pattern);
        let new_items = scanned.items;
        proof {
            lemma_lookup_after_remove(before, relative_path@, relative_path@);
        }
        let mut items: Vec<(String, Vec<TodoItem>)> = Vec::new();
        std::mem::swap(&mut items, &mut self.items);
        let old_items = match take_key(&mut items, relative_path) {
            Some(v) => v,
            None => Vec::new(),
        };
        let ghost mid = items@;
        assert(item_views(old_items@) =~= file_items(before, relative_path@));
        let update = file_update(&old_items, &new_items);
        if new_items.len() > 0 {
            let ghost nv = new_items;
            let key = str_to_string(relative_path);
            let ghost kg = key;
            store(&mut items, key, new_items);
            proof {
                assert forall|f: Seq<char>| #[trigger] file_items(items@, f) == (if f == relative_path@ {
                    scan_content_spec(content@, relative_path@, self.pattern@).0
                } else {
                    file_items(before, f)
                }) by {
                    lemma_lookup_after_store(mid, kg, nv, f);
                    lemma_lookup_after_remove(before, relative_path@, f);
                }
            }
        } else {
            proof {
                assert forall|f: Seq<char>| #[trigger] file_items(items@, f) == (if f == relative_path@ {
                    scan_content_spec(content@, relative_path@, self.pattern@).0
                } else {
                    file_items(before, f)
                }) by {
                    lemma_lookup_after_remove(before, relative_path@, f);
                }
            }
        }
        self.items = items;
        update
    }

    /// Remove a file from the index, returning its former items.
    pub fn remove_file(&mut self, relative_path: &str) -> (res: Vec<TodoItem>)
        ensures
            item_views(res@) == file_items(old(self).entries(), relative_path@),
            forall|f: Seq<char>| #[trigger] file_items(final(self).entries(), f) == if f == relative_path@ {
                Seq::<TodoItemView>::empty()
            } else {
                file_items(old(self).entries(), f)
            },
            final(self).pattern_source() == old(self).pattern_source(),
            final(self).root_path() == old(self).root_path(),
            final(self).exclude_dir_names() == old(self).exclude_dir_names(),
            final(self).exclude_sources() == old(self).exclude_sources(),
    {
        proof {
            use_type_invariant(&*self);
        }
        let ghost before = self.items@;
        let mut items: Vec<(String, Vec<TodoItem>)> = Vec::new();
        std::mem::swap(&mut items, &mut self.items);
        let res = match take_key(&mut items, relative_path) {
            Some(v) => v,
            None => Vec::new(),
        };
        self.items = items;
        proof {
            assert forall|f: Seq<char>| #[trigger] file_items(self.items@, f) == (if f == relative_path@ {
                Seq::<TodoItemView>::empty()
            } else {
                file_items(before, f)
            }) by {
                lemma_lookup_after_remove(before, relative_path@, f);
            }
        }
        res
    }

    /// Total number of items across all files (saturated at `usize::MAX`).
    pub fn total_count(&self) -> (res: usize)
        ensures
            res == capped(entries_total(self.entries())),
    {
        let mut n: usize = 0;
        let mut i: usize = 0;
        while i < self.items.len()
            invariant
                i <= self.items@.len(),
                n == capped(entries_total(self.items@.take(i as int))),
            decreases self.items@.len() - i,
        {
            assert(self.items@.take(i + 1).drop_last() =~= self.items@.take(i as int));
            n = n.saturating_add(self.items[i].1.len());
            i += 1;
        }
        assert(self.items@.take(self.items@.len() as int) =~= self.items@);
        n
    }

    /// Count of items per tag, for the tags that occur, by descending count.
    pub fn tag_counts(&self) -> (res: Vec<(Tag, usize)>)
        ensures
            res@.to_multiset() == present_counts(all_tags(), self.entries()).to_multiset(),
            forall|i: int, j: int| 0 <= i < j < res@.len() ==> (#[trigger] res@[i]).1 >= (#[trigger] res@[j]).1,
    {
        let tags: [Tag; 6] = [Tag::Todo, Tag::Fixme, Tag::Hack, Tag::Xxx, Tag::Bug, Tag::Note];
        let mut pairs: Vec<(Tag, usize)> = Vec::new();
        let mut k: usize = 0;
        while k < 6
            invariant
                k <= 6,
                tags@ == all_tags(),
                pairs@ == present_counts(all_tags().take(k as int), self.items@),
            decreases 6 - k,
        {
            assert(all_tags().take(k + 1).drop_last() =~= all_tags().take(k as int));
            let t = tags[k];
            let c = tag_count_exec(&self.items, t);
            if c > 0 {
                pairs.push((t, c));
            }
            k += 1;
        }
        assert(all_tags().take(6) =~= all_tags());
        let res = sort_by_order::<(Tag, usize), ByCountDesc>(pairs);
        assert forall|i: int, j: int| 0 <= i < j < res@.len() implies (#[trigger] res@[i]).1 >= (#[trigger] res@[j]).1 by {
            assert(<ByCountDesc as Order<(Tag, usize)>>::le(&res@[i], &res@[j]));
        }
        res
    }

    /// Whether a changed path is ignored: one of its components is an
    /// excluded directory, or an exclude pattern matches it.
    pub fn should_exclude(&self, relative_path: &str) -> (res: bool)
        ensures
            res == (in_excluded_dir(self.exclude_dir_names(), relative_path@) || matches_exclude(
                self.exclude_sources(),
                relative_path@,
            )),
    {
        let comps = path_components(relative_path);
        let ghost cv = path_components_of(relative_path@);
        let ghost dv = string_views(self.exclude_dirs@);
        let mut i: usize = 0;
        while i < self.exclude_dirs.len()
            invariant
                i <= self.exclude_dirs@.len(),
                dv == string_views(self.exclude_dirs@),
                cv == string_views(comps@),
                cv == path_components_of(relative_path@),
                forall|a: int, b: int| 0 <= a < i && 0 <= b < cv.len() ==> cv[b] != dv[a],
            decreases self.exclude_dirs@.len() - i,
        {
            let mut j: usize = 0;
            while j < comps.len()
                invariant
                    i < self.exclude_dirs@.len(),
                    j <= comps@.len(),
                    dv == string_views(self.exclude_dirs@),
                    cv == string_views(comps@),
                    cv == path_components_of(relative_path@),
                    forall|a: int, b: int| 0 <= a < i && 0 <= b < cv.len() ==> cv[b] != dv[a],
                    forall|b: int| 0 <= b < j ==> cv[b] != dv[i as int],
                decreases comps@.len() - j,
            {
                if comps[j] == self.exclude_dirs[i] {
                    assert(cv[j as int] == dv[i as int]);
                    return true;
                }
                j += 1;
            }
            i += 1;
        }
        let ghost pv = self.exclude_regexes@.map_values(|p: Pattern| p@);
        let mut k: usize = 0;
        while k < self.exclude_regexes.len()
            invariant
                k <= self.exclude_regexes@.len(),
                pv == self.exclude_regexes@.map_values(|p: Pattern| p@),
                forall|m: int| 0 <= m < k ==> regex_captures(pv[m], relative_path@) is None,
            decreases self.exclude_regexes@.len() - k,
        {
            if self.exclude_regexes[k].captures(relative_path).is_some() {
                assert(pv[k as int] == self.exclude_regexes@[k as int]@);
                return true;
            }
            k += 1;
        }
        false
    }

    /// Apply one changed file: `content` is the file's text, or `None` when
    /// the file is gone.  Returns the event to report: nothing for an
    /// excluded path or a change that adds and removes no item, and nothing
    /// when a tag filter leaves neither added nor removed items.
    pub fn handle_change(&mut self, file: &str, content: Option<&str>, filter_tags: &Vec<Tag>, timestamp: String) -> (res: Option<WatchEvent>)
        ensures
            ({
                let excluded = in_excluded_dir(old(self).exclude_dir_names(), file@) || matches_exclude(
                    old(self).exclude_sources(),
                    file@,
                );
                let change = change_of(old(self).entries(), old(self).pattern_source(), file@, opt_text(content));
                let shown = if filter_tags@.len() > 0 {
                    (with_tags(change.0, filter_tags@), with_tags(change.1, filter_tags@))
                } else {
                    change
                };
                &&& excluded ==> final(self).entries() == old(self).entries()
                &&& !excluded ==> forall|f: Seq<char>| #[trigger] file_items(final(self).entries(), f) == if f == file@ {
                    rescanned(old(self).pattern_source(), file@, opt_text(content))
                } else {
                    file_items(old(self).entries(), f)
                }
                &&& res is None <==> (excluded || (change.0.len() == 0 && change.1.len() == 0) || (shown.0.len() == 0
                    && shown.1.len() == 0))
                &&& res matches Some(e) ==> {
                    &&& e.file@ == file@
                    &&& e.timestamp@ == timestamp@
                    &&& item_views(e.added@) == shown.0
                    &&& item_views(e.removed@) == shown.1
                    &&& e.total == capped(entries_total(final(self).entries()))
                    &&& delta_fits(e.total as int, capped(entries_total(old(self).entries())) as int) ==> e.total_delta
                        == e.total - capped(entries_total(old(self).entries()))
                }
            }),
            final(self).pattern_source() == old(self).pattern_source(),
            final(self).exclude_dir_names() == old(self).exclude_dir_names(),
            final(self).exclude_sources() == old(self).exclude_sources(),
    {
        if self.should_exclude(file) {
            return None;
        }
        let previous_total = self.total_count();
        let update = match content {
            Some(text) => self.update_file(file, text),
            None => {
                let removed = self.remove_file(file);
                FileUpdate { added: Vec::new(), removed }
            },
        };
        if update.added.len() == 0 && update.removed.len() == 0 {
            return None;
        }
        let mut event = build_watch_event_at(file, &update, self, previous_total, timestamp);
        if filter_tags.len() > 0 {
            event.added = keep_tags(&event.added, filter_tags);
            event.removed = keep_tags(&event.removed, filter_tags);
            if event.added.len() == 0 && event.removed.len() == 0 {
                return None;
            }
        }
        Some(event)
    }
}

/// The items whose tag is among `tags`.
fn keep_tags(items: &Vec<TodoItem>, tags: &Vec<Tag>) -> (res: Vec<TodoItem>)
    requires
        tags@.len() > 0,
    ensures
        item_views(res@) == with_tags(item_views(items@), tags@),
{
    let ghost iv = item_views(items@);
    let mut res: Vec<TodoItem> = Vec::new();
    let mut i: usize = 0;
    while i < items.len()
        invariant
            i <= items@.len(),
            tags@.len() > 0,
            iv == item_views(items@),
            item_views(res@) == with_tags(iv.take(i as int), tags@),
        decreases items@.len() - i,
    {
        assert(iv.take(i + 1).drop_last() =~= iv.take(i as int));
        let t = items[i].tag;
        let mut found = false;
        let mut k: usize = 0;
        while k < tags.len()
            invariant
                k <= tags@.len(),
                found <==> exists|m: int| 0 <= m < k && tags@[m] == t,
            decreases tags@.len() - k,
        {
            if tags[k] == t {
                found = true;
            }
            k += 1;
        }
        if found {
            let d = items[i].duplicate();
            let ghost before = res@;
            res.push(d);
            assert(item_views(res@) =~= item_views(before).push(d@));
        }
        i += 1;
    }
    assert(iv.take(items@.len() as int) =~= iv);
    res
}

/// Owned copies of strings.
fn clone_strings(v: &Vec<String>) -> (res: Vec<String>)
    ensures
        string_views(res@) == string_views(v@),
{
    let mut res: Vec<String> = Vec::new();
    let mut i: usize = 0;
    while i < v.len()
        invariant
            i <= v@.len(),
            res@.len() == i,
            forall|k: int| 0 <= k < i ==> (#[trigger] res@[k])@ == v@[k]@,
        decreases v@.len() - i,
    {
        let s = v[i].clone();
        res.push(s);
        i += 1;
    }
    assert(string_views(res@) =~= string_views(v@));
    res
}

/// Per-tag counts as text and number.
pub open spec fn summary_view(s: Seq<(String, usize)>) -> Seq<(Seq<char>, usize)> {
    s.map_values(|p: (String, usize)| (p.0@, p.1))
}

/// The event reported for a changed file at time `timestamp`: its added
/// and removed items, the index's per-tag counts, its total, and the change
/// of the total from `previous_total`.
pub fn build_watch_event_at(file: &str, update: &FileUpdate, index: &TodoIndex, previous_total: usize, timestamp: String) -> (res: WatchEvent)
    ensures
        res.timestamp@ == timestamp@,
        res.file@ == file@,
        item_views(res.added@) == item_views(update.added@),
        item_views(res.removed@) == item_views(update.removed@),
        res.total == capped(entries_total(index.entries())),
        exists|cs: Seq<(Tag, usize)>|
            {
                &&& #[trigger] cs.to_multiset() == present_counts(all_tags(), index.entries()).to_multiset()
                &&& forall|i: int, j: int| 0 <= i < j < cs.len() ==> (#[trigger] cs[i]).1 >= (#[trigger] cs[j]).1
                &&& summary_view(res.tag_summary@) == cs.map_values(|p: (Tag, usize)| (tag_name(p.0), p.1))
            },
        delta_fits(res.total as int, previous_total as int) ==> res.total_delta == res.total - previous_total,
{
    let total = index.total_count();
    let counts = index.tag_counts();
    let mut tag_summary: Vec<(String, usize)> = Vec::new();
    let mut i: usize = 0;
    while i < counts.len()
        invariant
            i <= counts@.len(),
            tag_summary@.len() == i,
            forall|k: int| 0 <= k < i ==> (#[trigger] tag_summary@[k]).0@ == tag_name(counts@[k].0) && tag_summary@[k].1
                == counts@[k].1,
        decreases counts@.len() - i,
    {
        let (t, c) = counts[i];
        tag_summary.push((str_to_string(t.as_str()), c));
        i += 1;
    }
    assert(summary_view(tag_summary@) =~= counts@.map_values(|p: (Tag, usize)| (tag_name(p.0), p.1)));
    let total_delta: i64 = if total >= previous_total {
        let d = (total - previous_total) as u64;
        if d <= 0x7fff_ffff_ffff_ffff { d as i64 } else { i64::MAX }
    } else {
        let d = (previous_total - total) as u64;
        if d <= 0x7fff_ffff_ffff_ffff { -(d as i64) } else { -i64::MAX }
    };
    WatchEvent {
        timestamp,
        file: str_to_string(file),
        added: clone_items(&update.added),
        removed: clone_items(&update.removed),
        tag_summary,
        total,
        total_delta,
    }
}

/// The event reported for a changed file now (see [`build_watch_event_at`]).
pub fn build_watch_event(file: &str, update: &FileUpdate, index: &TodoIndex, previous_total: usize) -> (res: WatchEvent)
    ensures
        res.file@ == file@,
        item_views(res.added@) == item_views(update.added@),
        item_views(res.removed@) == item_views(update.removed@),
        res.total == capped(entries_total(index.entries())),
        delta_fits(res.total as int, previous_total as int) ==> res.total_delta == res.total - previous_total,
{
    build_watch_event_at(file, update, index, previous_total, now_iso8601())
}

} // verus!
