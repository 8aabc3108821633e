//! Differences between the TODOs of two versions of a tree, matched by their
//! match keys (file, tag and normalized message: line moves do not count).
//!
//! Git is run by the caller, which hands over its outputs and the items found
//! in the base version of each changed file.
use vstd::prelude::*;

use crate::model::{
    item_views, match_key_of, DiffEntry, DiffResult, DiffStatus, FileUpdate, ScanResult, TodoItem,
    TodoItemView,
};
use crate::text::{chars_of, push_all, split_lines, split_lines_exec, string_from_chars, trim, trim_chars, views};

verus! {

broadcast use vstd::seq_lib::lemma_seq_contains_after_push;

// ───────────────────────── base ref ─────────────────────────

/// `invalid git ref '<ref>': must not start with '-'`.
pub open spec fn dash_ref_error(base_ref: Seq<char>) -> Seq<char> {
    "invalid git ref '"@ + base_ref + "': must not start with '-'"@
}

/// Refuse a base ref that git would read as an option.
pub fn check_base_ref(base_ref: &str) -> (res: Result<(), String>)
    ensures
        res is Err <==> (base_ref@.len() > 0 && base_ref@[0] == '-'),
        res matches Err(e) ==> e@ == dash_ref_error(base_ref@),
{
    let cs = chars_of(base_ref);
    if cs.len() > 0 && cs[0] == '-' {
        let mut m = chars_of("invalid git ref '");
        push_all(&mut m, &cs);
        push_all(&mut m, &chars_of("': must not start with '-'"));
        assert(m@ =~= dash_ref_error(base_ref@));
        Err(string_from_chars(&m))
    } else {
        Ok(())
    }
}

// ───────────────────────── file lists ─────────────────────────

/// The trimmed, nonempty lines of a command's output, in order.
pub open spec fn path_lines(ls: Seq<Seq<char>>) -> Seq<Seq<char>>
    decreases ls.len(),
{
    if ls.len() == 0 {
        seq![]
    } else {
        let rest = path_lines(ls.drop_last());
        if trim(ls.last()).len() > 0 {
            rest.push(trim(ls.last()))
        } else {
            rest
        }
    }
}

pub open spec fn texts(v: Seq<String>) -> Seq<Seq<char>> {
    v.map_values(|s: String| s@)
}

/// The trimmed, nonempty lines of a command's output (file paths).
pub fn output_paths(output: &str) -> (res: Vec<String>)
    ensures
        texts(res@) == path_lines(split_lines(output@)),
{
    let cs = chars_of(output);
    let lines = split_lines_exec(&cs);
    let ghost ls = views(lines@);
    let mut res: Vec<String> = Vec::new();
    let mut i: usize = 0;
    assert(ls.take(0) =~= Seq::<Seq<char>>::empty());
    while i < lines.len()
        invariant
            ls == views(lines@),
            ls.len() == lines@.len(),
            i <= lines@.len(),
            texts(res@) == path_lines(ls.take(i as int)),
        decreases lines@.len() - i,
    {
        assert(ls.take(i + 1).drop_last() =~= ls.take(i as int));
        assert(ls.take(i + 1).last() == lines@[i as int]@);
        let t = trim_chars(&lines[i]);
        if t.len() > 0 {
            let ghost before = res@;
            res.push(string_from_chars(&t));
            assert(texts(res@) =~= texts(before).push(t@));
        }
        i += 1;
    }
    assert(ls.take(lines@.len() as int) =~= ls);
    res
}

pub open spec fn item_files(items: Seq<TodoItemView>) -> Seq<Seq<char>> {
    items.map_values(|v: TodoItemView| v.file)
}

/// Whether file `f` counts as changed.  With both `git diff` outputs, a file
/// is changed when either lists it, or when it holds current items and is not
/// in the base tree (untracked); without them, every file of the base tree
/// and every file with current items counts as changed.
pub open spec fn is_changed(
    f: Seq<char>,
    diff_from_ref: Option<Seq<char>>,
    diff_unstaged: Option<Seq<char>>,
    base_files: Seq<Seq<char>>,
    current: Seq<TodoItemView>,
) -> bool {
    match (diff_from_ref, diff_unstaged) {
        (Some(a), Some(b)) => path_lines(split_lines(a)).contains(f) || path_lines(split_lines(b)).contains(f)
            || (item_files(current).contains(f) && !base_files.contains(f)),
        _ => base_files.contains(f) || item_files(current).contains(f),
    }
}

/// Law of the changed files.  With both `git diff` outputs, the file of a
/// current item that is not in the base tree (a new, untracked file) counts
/// as changed; without them, the file of every current item and every file
/// of the base tree counts as changed.  A file of the base tree that neither
/// output lists is unchanged, and a file that no output lists, that is not in
/// the base tree and that holds no current item never counts.
pub proof fn lemma_changed_files_law(
    f: Seq<char>,
    from_ref: Option<Seq<char>>,
    unstaged: Option<Seq<char>>,
    base_files: Seq<Seq<char>>,
    current: Seq<TodoItemView>,
    i: int,
)
    ensures
        from_ref is Some && unstaged is Some && 0 <= i < current.len() && !base_files.contains(current[i].file)
            ==> is_changed(current[i].file, from_ref, unstaged, base_files, current),
        (from_ref is None || unstaged is None) && 0 <= i < current.len() ==> is_changed(
            current[i].file,
            from_ref,
            unstaged,
            base_files,
            current,
        ),
        (from_ref is None || unstaged is None) && base_files.contains(f) ==> is_changed(
            f,
            from_ref,
            unstaged,
            base_files,
            current,
        ),
        !base_files.contains(f) && (forall|j: int| 0 <= j < current.len() ==> current[j].file != f) && !(
        from_ref matches Some(a) && path_lines(split_lines(a)).contains(f)) && !(unstaged matches Some(b)
            && path_lines(split_lines(b)).contains(f)) ==> !is_changed(f, from_ref, unstaged, base_files, current),
        from_ref matches Some(a) && unstaged matches Some(b) && base_files.contains(f) && !path_lines(
            split_lines(a),
        ).contains(f) && !path_lines(split_lines(b)).contains(f) ==> !is_changed(
            f,
            from_ref,
            unstaged,
            base_files,
            current,
        ),
{
    if 0 <= i < current.len() {
        assert(item_files(current)[i] == current[i].file);
        assert(item_files(current).contains(current[i].file));
    }
    if !base_files.contains(f) && (forall|j: int| 0 <= j < current.len() ==> current[j].file != f) {
        assert(!item_files(current).contains(f)) by {
            if item_files(current).contains(f) {
                let j = choose|j: int| 0 <= j < item_files(current).len() && item_files(current)[j] == f;
                assert(current[j].file == f);
            }
        }
    }
}

pub open spec fn opt_str(o: Option<&str>) -> Option<Seq<char>> {
    match o {
        Some(s) => Some(s@),
        None => None,
    }
}

fn contains_text(v: &Vec<String>, s: &String) -> (res: bool)
    ensures
        res == texts(v@).contains(s@),
{
    let mut k: usize = 0;
    while k < v.len()
        invariant
            k <= v@.len(),
            forall|j: int| 0 <= j < k ==> texts(v@)[j] != s@,
        decreases v@.len() - k,
    {
        if v[k] == *s {
            assert(texts(v@)[k as int] == s@);
            return true;
        }
        k += 1;
    }
    false
}

proof fn lemma_take_push_contains(s: Seq<Seq<char>>, i: int, x: Seq<char>)
    requires
        0 <= i < s.len(),
    ensures
        s.take(i + 1).contains(x) <==> (s.take(i).contains(x) || x == s[i]),
{
    assert(s.take(i + 1) =~= s.take(i).push(s[i]));
}

fn add_unique(set: &mut Vec<String>, s: String)
    requires
        texts(old(set)@).no_duplicates(),
    ensures
        texts(final(set)@).no_duplicates(),
        forall|x: Seq<char>| #[trigger] texts(final(set)@).contains(x) <==> (texts(old(set)@).contains(x) || x == s@),
{
    if !contains_text(set, &s) {
        let ghost before = texts(set@);
        set.push(s);
        assert(texts(set@) =~= before.push(s@));
    }
}

fn add_all(set: &mut Vec<String>, v: &Vec<String>)
    requires
        texts(old(set)@).no_duplicates(),
    ensures
        texts(final(set)@).no_duplicates(),
        forall|x: Seq<char>| #[trigger] texts(final(set)@).contains(x) <==> (texts(old(set)@).contains(x) || texts(v@).contains(x)),
{
    let ghost start = texts(set@);
    let mut i: usize = 0;
    while i < v.len()
        invariant
            i <= v@.len(),
            texts(set@).no_duplicates(),
            forall|x: Seq<char>| #[trigger] texts(set@).contains(x) <==> (start.contains(x) || texts(v@).take(i as int).contains(x)),
        decreases v@.len() - i,
    {
        let ghost before = texts(set@);
        assert(texts(v@)[i as int] == v@[i as int]@);
        add_unique(set, v[i].clone());
        i += 1;
        assert forall|x: Seq<char>| #[trigger] texts(set@).contains(x) <==> (start.contains(x) || texts(v@).take(i as int).contains(x)) by {
            lemma_take_push_contains(texts(v@), i - 1, x);
            assert(before.contains(x) <==> (start.contains(x) || texts(v@).take(i - 1).contains(x)));
        }
    }
    assert(texts(v@).take(v@.len() as int) =~= texts(v@));
}

/// The files that changed between the base ref and the working tree, each
/// once.  `diff_from_ref` and `diff_unstaged` are the outputs of
/// `git diff --name-only <base>` and `git diff --name-only` (`None` when
/// either failed); `base_files` lists the files of the base tree.
pub fn changed_files(
    diff_from_ref: Option<&str>,
    diff_unstaged: Option<&str>,
    base_files: &Vec<String>,
    current: &ScanResult,
) -> (res: Vec<String>)
    ensures
        texts(res@).no_duplicates(),
        forall|f: Seq<char>|
            #[trigger] texts(res@).contains(f) <==> is_changed(
                f,
                opt_str(diff_from_ref),
                opt_str(diff_unstaged),
                texts(base_files@),
                item_views(current.items@),
            ),
{
    let mut set: Vec<String> = Vec::new();
    assert(texts(set@) =~= seq![]);
    let ghost cur = item_views(current.items@);
    match (diff_from_ref, diff_unstaged) {
        (Some(a), Some(b)) => {
            let pa = output_paths(a);
            let pb = output_paths(b);
            add_all(&mut set, &pa);
            let ghost mid1 = texts(set@);
            add_all(&mut set, &pb);
            let ghost mid = texts(set@);
            let mut i: usize = 0;
            while i < current.items.len()
                invariant
                    cur == item_views(current.items@),
                    i <= current.items@.len(),
                    texts(set@).no_duplicates(),
                    forall|x: Seq<char>| #[trigger] texts(set@).contains(x) <==> (mid.contains(x) || (item_files(cur).take(i as int).contains(x)
                        && !texts(base_files@).contains(x))),
                decreases current.items@.len() - i,
            {
                let f = &current.items[i].file;
                let ghost before = texts(set@);
                assert(item_files(cur)[i as int] == f@);
                if !contains_text(base_files, f) {
                    add_unique(&mut set, f.clone());
                }
                i += 1;
                assert forall|x: Seq<char>| #[trigger] texts(set@).contains(x) <==> (mid.contains(x) || (item_files(cur).take(i as int).contains(x)
                    && !texts(base_files@).contains(x))) by {
                    lemma_take_push_contains(item_files(cur), i - 1, x);
                    assert(before.contains(x) <==> (mid.contains(x) || (item_files(cur).take(i - 1).contains(x)
                        && !texts(base_files@).contains(x))));
                }
            }
            assert(item_files(cur).take(current.items@.len() as int) =~= item_files(cur));
            assert forall|f: Seq<char>| #[trigger] texts(set@).contains(f) <==> is_changed(
                f,
                opt_str(diff_from_ref),
                opt_str(diff_unstaged),
                texts(base_files@),
                cur,
            ) by {
                assert(mid.contains(f) <==> (mid1.contains(f) || texts(pb@).contains(f)));
                assert(mid1.contains(f) <==> (Seq::<Seq<char>>::empty().contains(f) || texts(pa@).contains(f)));
            }
        },
        _ => {
            add_all(&mut set, base_files);
            let ghost mid = texts(set@);
            let mut i: usize = 0;
            while i < current.items.len()
                invariant
                    cur == item_views(current.items@),
                    i <= current.items@.len(),
                    texts(set@).no_duplicates(),
                    forall|x: Seq<char>| #[trigger] texts(set@).contains(x) <==> (mid.contains(x) || item_files(cur).take(i as int).contains(x)),
                decreases current.items@.len() - i,
            {
                assert(item_files(cur)[i as int] == current.items@[i as int].file@);
                let ghost before = texts(set@);
                add_unique(&mut set, current.items[i].file.clone());
                i += 1;
                assert forall|x: Seq<char>| #[trigger] texts(set@).contains(x) <==> (mid.contains(x) || item_files(cur).take(i as int).contains(x)) by {
                    lemma_take_push_contains(item_files(cur), i - 1, x);
                    assert(before.contains(x) <==> (mid.contains(x) || item_files(cur).take(i - 1).contains(x)));
                }
            }
            assert(item_files(cur).take(current.items@.len() as int) =~= item_files(cur));
            assert forall|f: Seq<char>| #[trigger] texts(set@).contains(f) <==> is_changed(
                f,
                opt_str(diff_from_ref),
                opt_str(diff_unstaged),
                texts(base_files@),
                cur,
            ) by {
                assert(mid.contains(f) <==> (Seq::<Seq<char>>::empty().contains(f) || texts(base_files@).contains(f)));
            }
        },
    }
    set
}

// ───────────────────────── item differences ─────────────────────────

pub open spec fn keys_of(items: Seq<TodoItemView>) -> Seq<Seq<char>> {
    items.map_values(|v: TodoItemView| match_key_of(v))
}

/// The items of `a` whose match key no item of `b` has, in order.
pub open spec fn missing_from(a: Seq<TodoItemView>, b: Seq<TodoItemView>) -> Seq<TodoItemView>
    decreases a.len(),
{
    if a.len() == 0 {
        seq![]
    } else {
        let rest = missing_from(a.drop_last(), b);
        if keys_of(b).contains(match_key_of(a.last())) {
            rest
        } else {
            rest.push(a.last())
        }
    }
}

/// The items of `items` whose file is one of `files`, in order.
pub open spec fn in_files(items: Seq<TodoItemView>, files: Seq<Seq<char>>) -> Seq<TodoItemView>
    decreases items.len(),
{
    if items.len() == 0 {
        seq![]
    } else {
        let rest = in_files(items.drop_last(), files);
        if files.contains(items.last().file) {
            rest.push(items.last())
        } else {
            rest
        }
    }
}

fn keys_exec(items: &Vec<TodoItem>) -> (res: Vec<String>)
    ensures
        texts(res@) == keys_of(item_views(items@)),
{
    let mut res: Vec<String> = Vec::new();
    let mut i: usize = 0;
    while i < items.len()
        invariant
            i <= items@.len(),
            res@.len() == i,
            forall|k: int| 0 <= k < i ==> (#[trigger] res@[k])@ == match_key_of(items@[k]@),
        decreases items@.len() - i,
    {
        res.push(items[i].match_key());
        i += 1;
    }
    assert(texts(res@) =~= keys_of(item_views(items@)));
    res
}

/// Every item reported missing comes from `a` and has a match key that no
/// item of `b` has.
pub proof fn lemma_missing_from_keys(a: Seq<TodoItemView>, b: Seq<TodoItemView>)
    ensures
        forall|k: int|
            0 <= k < missing_from(a, b).len() ==> a.contains(#[trigger] missing_from(a, b)[k]) && !keys_of(b).contains(
                match_key_of(missing_from(a, b)[k]),
            ),
    decreases a.len(),
{
    if a.len() > 0 {
        lemma_missing_from_keys(a.drop_last(), b);
        let rest = missing_from(a.drop_last(), b);
        assert forall|k: int| 0 <= k < missing_from(a, b).len() implies a.contains(#[trigger] missing_from(a, b)[k])
            && !keys_of(b).contains(match_key_of(missing_from(a, b)[k])) by {
            if k < rest.len() {
                assert(missing_from(a, b)[k] == rest[k]);
                assert(a.drop_last().contains(rest[k]));
                let w = choose|w: int| 0 <= w < a.drop_last().len() && a.drop_last()[w] == rest[k];
                assert(a[w] == rest[k]);
            } else {
                assert(missing_from(a, b)[k] == a.last());
                assert(a[a.len() - 1] == a.last());
            }
        }
    }
}

/// When every item of `a` shares its match key with some item of `b`, none
/// is missing.
pub proof fn lemma_nothing_missing(a: Seq<TodoItemView>, b: Seq<TodoItemView>)
    requires
        forall|k: int| 0 <= k < a.len() ==> keys_of(b).contains(match_key_of(#[trigger] a[k])),
    ensures
        missing_from(a, b) == Seq::<TodoItemView>::empty(),
    decreases a.len(),
{
    if a.len() > 0 {
        assert forall|k: int| 0 <= k < a.drop_last().len() implies keys_of(b).contains(
            match_key_of(#[trigger] a.drop_last()[k]),
        ) by {
            assert(a.drop_last()[k] == a[k]);
        }
        lemma_nothing_missing(a.drop_last(), b);
        assert(keys_of(b).contains(match_key_of(a[a.len() - 1])));
    }
}

/// Comparing the items of the changed files with themselves reports no
/// differences: unchanged TODOs are neither added nor removed.
pub proof fn lemma_diff_of_unchanged(current: Seq<TodoItemView>, changed: Seq<Seq<char>>)
    ensures
        diff_entries_of(current, changed, in_files(current, changed)) == Seq::<(DiffStatus, TodoItemView)>::empty(),
{
    let cur = in_files(current, changed);
    assert forall|k: int| 0 <= k < cur.len() implies keys_of(cur).contains(match_key_of(#[trigger] cur[k])) by {
        assert(keys_of(cur)[k] == match_key_of(cur[k]));
    }
    lemma_nothing_missing(cur, cur);
    assert(tagged(missing_from(cur, cur), DiffStatus::Added) =~= Seq::<(DiffStatus, TodoItemView)>::empty());
    assert(tagged(missing_from(cur, cur), DiffStatus::Removed) =~= Seq::<(DiffStatus, TodoItemView)>::empty());
}

/// Moving TODOs to other lines, or changing the case or the surrounding
/// whitespace of their messages, is no change: when the items of the changed
/// files carry the same set of match keys as the base items, the diff reports
/// nothing.
pub proof fn lemma_diff_ignores_moves(current: Seq<TodoItemView>, changed: Seq<Seq<char>>, base: Seq<TodoItemView>)
    requires
        keys_of(in_files(current, changed)).to_set() == keys_of(base).to_set(),
    ensures
        diff_entries_of(current, changed, base) == Seq::<(DiffStatus, TodoItemView)>::empty(),
{
    let cur = in_files(current, changed);
    assert forall|k: int| 0 <= k < cur.len() implies keys_of(base).contains(match_key_of(#[trigger] cur[k])) by {
        assert(keys_of(cur)[k] == match_key_of(cur[k]));
        assert(keys_of(cur).to_set().contains(match_key_of(cur[k])));
    }
    assert forall|k: int| 0 <= k < base.len() implies keys_of(cur).contains(match_key_of(#[trigger] base[k])) by {
        assert(keys_of(base)[k] == match_key_of(base[k]));
        assert(keys_of(base).to_set().contains(match_key_of(base[k])));
    }
    lemma_nothing_missing(cur, base);
    lemma_nothing_missing(base, cur);
    assert(tagged(missing_from(cur, base), DiffStatus::Added) =~= Seq::<(DiffStatus, TodoItemView)>::empty());
    assert(tagged(missing_from(base, cur), DiffStatus::Removed) =~= Seq::<(DiffStatus, TodoItemView)>::empty());
}

/// The items of `a` whose match key no item of `b` has.
pub fn missing_items(a: &Vec<TodoItem>, b: &Vec<TodoItem>) -> (res: Vec<TodoItem>)
    ensures
        item_views(res@) == missing_from(item_views(a@), item_views(b@)),
{
    let bk = keys_exec(b);
    let ghost av = item_views(a@);
    let mut res: Vec<TodoItem> = Vec::new();
    let mut i: usize = 0;
    assert(av.take(0) =~= Seq::<TodoItemView>::empty());
    while i < a.len()
        invariant
            av == item_views(a@),
            texts(bk@) == keys_of(item_views(b@)),
            i <= a@.len(),
            item_views(res@) == missing_from(av.take(i as int), item_views(b@)),
        decreases a@.len() - i,
    {
        assert(av.take(i + 1).drop_last() =~= av.take(i as int));
        assert(av.take(i + 1).last() == a@[i as int]@);
        let k = a[i].match_key();
        if !contains_text(&bk, &k) {
            let d = a[i].duplicate();
            let ghost before = res@;
            res.push(d);
            assert(item_views(res@) =~= item_views(before).push(d@));
        }
        i += 1;
    }
    assert(av.take(a@.len() as int) =~= av);
    res
}

/// Items added and removed in a re-scan of one file: new items whose match
/// key the old ones lack, and old items whose match key the new ones lack.
pub fn file_update(old_items: &Vec<TodoItem>, new_items: &Vec<TodoItem>) -> (res: FileUpdate)
    ensures
        item_views(res.added@) == missing_from(item_views(new_items@), item_views(old_items@)),
        item_views(res.removed@) == missing_from(item_views(old_items@), item_views(new_items@)),
{
    let added = missing_items(new_items, old_items);
    let removed = missing_items(old_items, new_items);
    FileUpdate { added, removed }
}

pub open spec fn entry_view(e: DiffEntry) -> (DiffStatus, TodoItemView) {
    (e.status, e.item@)
}

pub open spec fn diff_entry_views(es: Seq<DiffEntry>) -> Seq<(DiffStatus, TodoItemView)> {
    es.map_values(|e: DiffEntry| entry_view(e))
}

pub open spec fn tagged(items: Seq<TodoItemView>, s: DiffStatus) -> Seq<(DiffStatus, TodoItemView)> {
    items.map_values(|v: TodoItemView| (s, v))
}

/// The diff of the current items of the changed files against the base
/// items: first the added items (current ones whose key the base lacks), in
/// scan order, then the removed ones (base ones whose key the current changed
/// items lack).
pub open spec fn diff_entries_of(
    current: Seq<TodoItemView>,
    changed: Seq<Seq<char>>,
    base: Seq<TodoItemView>,
) -> Seq<(DiffStatus, TodoItemView)> {
    let cur = in_files(current, changed);
    tagged(missing_from(cur, base), DiffStatus::Added) + tagged(missing_from(base, cur), DiffStatus::Removed)
}

fn push_entries(entries: &mut Vec<DiffEntry>, items: Vec<TodoItem>, s: DiffStatus)
    ensures
        diff_entry_views(final(entries)@) == diff_entry_views(old(entries)@) + tagged(item_views(items@), s),
{
    let ghost start = diff_entry_views(entries@);
    let mut i: usize = 0;
    while i < items.len()
        invariant
            i <= items@.len(),
            diff_entry_views(entries@) == start + tagged(item_views(items@), s).take(i as int),
        decreases items@.len() - i,
    {
        let d = items[i].duplicate();
        let ghost before = diff_entry_views(entries@);
        entries.push(DiffEntry { status: s, item: d });
        assert(diff_entry_views(entries@) =~= before.push((s, d@)));
        assert(tagged(item_views(items@), s).take(i + 1) =~= tagged(item_views(items@), s).take(i as int).push((s, d@)));
        i += 1;
    }
    assert(tagged(item_views(items@), s).take(items@.len() as int) =~= tagged(item_views(items@), s));
}

/// The diff result of the current scan against the base items of the
/// changed files.
pub fn diff_items(current: &ScanResult, changed: &Vec<String>, base_items: &Vec<TodoItem>, base_ref: &str) -> (res: DiffResult)
    ensures
        diff_entry_views(res.entries@) == diff_entries_of(item_views(current.items@), texts(changed@), item_views(base_items@)),
        res.added_count == missing_from(in_files(item_views(current.items@), texts(changed@)), item_views(base_items@)).len(),
        res.removed_count == missing_from(item_views(base_items@), in_files(item_views(current.items@), texts(changed@))).len(),
        res.base_ref@ == base_ref@,
{
    let ghost cv = item_views(current.items@);
    let mut cur: Vec<TodoItem> = Vec::new();
    let mut i: usize = 0;
    assert(cv.take(0) =~= Seq::<TodoItemView>::empty());
    while i < current.items.len()
        invariant
            cv == item_views(current.items@),
            i <= current.items@.len(),
            item_views(cur@) == in_files(cv.take(i as int), texts(changed@)),
        decreases current.items@.len() - i,
    {
        assert(cv.take(i + 1).drop_last() =~= cv.take(i as int));
        assert(cv.take(i + 1).last() == current.items@[i as int]@);
        if contains_text(changed, &current.items[i].file) {
            let d = current.items[i].duplicate();
            let ghost before = cur@;
            cur.push(d);
            assert(item_views(cur@) =~= item_views(before).push(d@));
        }
        i += 1;
    }
    assert(cv.take(current.items@.len() as int) =~= cv);
    let added = missing_items(&cur, base_items);
    let removed = missing_items(base_items, &cur);
    let added_count = added.len();
    let removed_count = removed.len();
    let mut entries: Vec<DiffEntry> = Vec::new();
    assert(diff_entry_views(entries@) =~= seq![]);
    push_entries(&mut entries, added, DiffStatus::Added);
    push_entries(&mut entries, removed, DiffStatus::Removed);
    assert(diff_entry_views(entries@) =~= diff_entries_of(cv, texts(changed@), item_views(base_items@)));
    DiffResult { entries, added_count, removed_count, base_ref: string_from_chars(&chars_of(base_ref)) }
}

} // verus!
