//! Rendering helpers shared by the output formats: grouping of listed items,
//! count bars and terminal-safe text.
pub mod markdown;
pub mod github_actions;
pub mod sarif;

use vstd::prelude::*;

use crate::cli::GroupBy;
use crate::model::{
    item_views, tag_name, tag_severity, BlameEntry, CleanViolation, LintViolation, Priority, TodoItem, TodoItemView,
};
use crate::relate::{parent_dir, path_parent};
use crate::sorting::{
    lemma_lex_antisym, lemma_lex_total, lemma_lex_trans, lemma_map_values_multiset, lemma_stable_sort_map, lex_le, lex_le_exec,
    sort_by_order, stable_sort, Order,
};
use crate::text::{chars_eq, chars_of, str_to_string, string_from_chars};

verus! {

broadcast use vstd::seq_lib::group_to_multiset_ensures;

// ───────────────────────── group keys ─────────────────────────

/// The heading of a priority group.
pub open spec fn priority_label(p: Priority) -> Seq<char> {
    match p {
        Priority::Urgent => "!! Urgent"@,
        Priority::High => "! High"@,
        Priority::Normal => "Normal"@,
    }
}

/// The directory group of a file: its parent directory, `.` when that is
/// empty or missing.
pub open spec fn dir_key(file: Seq<char>) -> Seq<char> {
    match path_parent(file) {
        Some(d) => if d.len() == 0 { "."@ } else { d },
        None => "."@,
    }
}

/// The key of the group an item falls in.
pub open spec fn group_key_of(v: TodoItemView, g: GroupBy) -> Seq<char> {
    match g {
        GroupBy::File => v.file,
        GroupBy::Tag => tag_name(v.tag),
        GroupBy::Priority => priority_label(v.priority),
        GroupBy::Author => match v.author {
            Some(a) => a,
            None => "unassigned"@,
        },
        GroupBy::Dir => dir_key(v.file),
    }
}

/// The key of the group `item` falls in under `group_by`.
pub fn group_key(item: &TodoItem, group_by: &GroupBy) -> (res: String)
    ensures
        res@ == group_key_of(item@, *group_by),
{
    match group_by {
        GroupBy::File => item.file.clone(),
        GroupBy::Tag => str_to_string(item.tag.as_str()),
        GroupBy::Priority => match item.priority {
            Priority::Urgent => str_to_string("!! Urgent"),
            Priority::High => str_to_string("! High"),
            Priority::Normal => str_to_string("Normal"),
        },
        GroupBy::Author => match &item.author {
            Some(a) => a.clone(),
            None => str_to_string("unassigned"),
        },
        GroupBy::Dir => match parent_dir(item.file.as_str()) {
            Some(d) => if d.as_str().is_empty() {
                str_to_string(".")
            } else {
                d
            },
            None => str_to_string("."),
        },
    }
}


// ───────────────────────── grouping ─────────────────────────

/// A group as plain values: its key and the views of its items.
pub open spec fn group_view<'a>(g: (String, Vec<&'a TodoItem>)) -> (Seq<char>, Seq<TodoItemView>) {
    (g.0@, g.1@.map_values(|r: &TodoItem| (*r)@))
}

/// Views of a sequence of groups.
pub open spec fn group_views<'a>(gs: Seq<(String, Vec<&'a TodoItem>)>) -> Seq<(Seq<char>, Seq<TodoItemView>)> {
    gs.map_values(|g: (String, Vec<&'a TodoItem>)| group_view(g))
}

/// Position of the first group with key `k`.
pub open spec fn key_position(gs: Seq<(Seq<char>, Seq<TodoItemView>)>, k: Seq<char>) -> Option<int>
    decreases gs.len(),
{
    if gs.len() == 0 {
        None
    } else {
        match key_position(gs.drop_last(), k) {
            Some(i) => Some(i),
            None => if gs.last().0 == k {
                Some(gs.len() - 1)
            } else {
                None
            },
        }
    }
}

/// The items grouped by key, groups in order of first appearance and the
/// items of each group in input order.
pub open spec fn first_groups(items: Seq<TodoItemView>, g: GroupBy) -> Seq<(Seq<char>, Seq<TodoItemView>)>
    decreases items.len(),
{
    if items.len() == 0 {
        seq![]
    } else {
        let prev = first_groups(items.drop_last(), g);
        let x = items.last();
        let k = group_key_of(x, g);
        match key_position(prev, k) {
            Some(i) => prev.update(i, (k, prev[i].1.push(x))),
            None => prev.push((k, seq![x])),
        }
    }
}

/// Rank of a priority heading: urgent first, unknown headings last.
pub open spec fn label_rank(k: Seq<char>) -> int {
    if k == "!! Urgent"@ {
        0
    } else if k == "! High"@ {
        1
    } else if k == "Normal"@ {
        2
    } else {
        3
    }
}

/// Severity of a group's first item (0 for an empty group).
pub open spec fn first_severity(g: (Seq<char>, Seq<TodoItemView>)) -> u8 {
    if g.1.len() > 0 {
        tag_severity(g.1[0].tag)
    } else {
        0
    }
}

/// Order of groups: priority headings urgent first, tag groups by descending
/// severity, every other grouping by key.
pub open spec fn group_le(a: (Seq<char>, Seq<TodoItemView>), b: (Seq<char>, Seq<TodoItemView>), g: GroupBy) -> bool {
    match g {
        GroupBy::Priority => label_rank(a.0) <= label_rank(b.0),
        GroupBy::Tag => first_severity(b) <= first_severity(a),
        _ => lex_le(a.0, b.0),
    }
}

proof fn lemma_key_position_found(gs: Seq<(Seq<char>, Seq<TodoItemView>)>, k: Seq<char>, j: int)
    requires
        0 <= j < gs.len(),
        gs[j].0 == k,
        forall|m: int| 0 <= m < j ==> gs[m].0 != k,
    ensures
        key_position(gs, k) == Some(j),
    decreases gs.len(),
{
    if j < gs.len() - 1 {
        lemma_key_position_found(gs.drop_last(), k, j);
    } else {
        lemma_key_position_absent(gs.drop_last(), k);
    }
}

proof fn lemma_key_position_absent(gs: Seq<(Seq<char>, Seq<TodoItemView>)>, k: Seq<char>)
    requires
        forall|m: int| 0 <= m < gs.len() ==> gs[m].0 != k,
    ensures
        key_position(gs, k) is None,
    decreases gs.len(),
{
    if gs.len() > 0 {
        lemma_key_position_absent(gs.drop_last(), k);
    }
}

/// Groups by key order.
pub struct ByGroupKey;

/// Groups by priority heading.
pub struct ByPriorityLabel;

/// Groups by descending severity of their first item.
pub struct BySeverityDesc;

fn label_rank_exec(k: &String) -> (res: u8)
    ensures
        res as int == label_rank(k@),
{
    if *k == str_to_string("!! Urgent") {
        0
    } else if *k == str_to_string("! High") {
        1
    } else if *k == str_to_string("Normal") {
        2
    } else {
        3
    }
}

fn first_severity_exec<'a>(g: &(String, Vec<&'a TodoItem>)) -> (res: u8)
    ensures
        res == first_severity(group_view(*g)),
{
    if g.1.len() > 0 {
        g.1[0].tag.severity()
    } else {
        0
    }
}

impl<'a> Order<(String, Vec<&'a TodoItem>)> for ByGroupKey {
    open spec fn le(a: &(String, Vec<&'a TodoItem>), b: &(String, Vec<&'a TodoItem>)) -> bool {
        lex_le(a.0@, b.0@)
    }

    fn le_exec(a: &(String, Vec<&'a TodoItem>), b: &(String, Vec<&'a TodoItem>)) -> (res: bool) {
        let x = chars_of(a.0.as_str());
        let y = chars_of(b.0.as_str());
        lex_le_exec(&x, &y)
    }

    proof fn lemma_total(a: &(String, Vec<&'a TodoItem>), b: &(String, Vec<&'a TodoItem>)) {
        lemma_lex_total(a.0@, b.0@);
    }

    proof fn lemma_trans(a: &(String, Vec<&'a TodoItem>), b: &(String, Vec<&'a TodoItem>), c: &(String, Vec<&'a TodoItem>)) {
        lemma_lex_trans(a.0@, b.0@, c.0@);
    }
}

impl<'a> Order<(String, Vec<&'a TodoItem>)> for ByPriorityLabel {
    open spec fn le(a: &(String, Vec<&'a TodoItem>), b: &(String, Vec<&'a TodoItem>)) -> bool {
        label_rank(a.0@) <= label_rank(b.0@)
    }

    fn le_exec(a: &(String, Vec<&'a TodoItem>), b: &(String, Vec<&'a TodoItem>)) -> (res: bool) {
        label_rank_exec(&a.0) <= label_rank_exec(&b.0)
    }

    proof fn lemma_total(a: &(String, Vec<&'a TodoItem>), b: &(String, Vec<&'a TodoItem>)) {
    }

    proof fn lemma_trans(a: &(String, Vec<&'a TodoItem>), b: &(String, Vec<&'a TodoItem>), c: &(String, Vec<&'a TodoItem>)) {
    }
}

impl<'a> Order<(String, Vec<&'a TodoItem>)> for BySeverityDesc {
    open spec fn le(a: &(String, Vec<&'a TodoItem>), b: &(String, Vec<&'a TodoItem>)) -> bool {
        first_severity(group_view(*b)) <= first_severity(group_view(*a))
    }

    fn le_exec(a: &(String, Vec<&'a TodoItem>), b: &(String, Vec<&'a TodoItem>)) -> (res: bool) {
        first_severity_exec(b) <= first_severity_exec(a)
    }

    proof fn lemma_total(a: &(String, Vec<&'a TodoItem>), b: &(String, Vec<&'a TodoItem>)) {
    }

    proof fn lemma_trans(a: &(String, Vec<&'a TodoItem>), b: &(String, Vec<&'a TodoItem>), c: &(String, Vec<&'a TodoItem>)) {
    }
}

/// The items grouped by `group_by`: one group per distinct key, holding the
/// items with that key in input order; the groups ordered urgent-first for
/// priorities, by descending severity for tags and by key otherwise.
pub fn group_items<'a>(items: &'a [TodoItem], group_by: &GroupBy) -> (res: Vec<(String, Vec<&'a TodoItem>)>)
    ensures
        group_views(res@) == stable_sort(
            first_groups(item_views(items@), *group_by),
            |a: (Seq<char>, Seq<TodoItemView>), b: (Seq<char>, Seq<TodoItemView>)| group_le(a, b, *group_by),
        ),
        group_views(res@).to_multiset() == first_groups(item_views(items@), *group_by).to_multiset(),
        forall|i: int, j: int|
            #![trigger group_views(res@)[i], group_views(res@)[j]]
            0 <= i < j < res@.len() ==> group_le(group_views(res@)[i], group_views(res@)[j], *group_by),
{
    let ghost iv = item_views(items@);
    let mut groups: Vec<(String, Vec<&'a TodoItem>)> = Vec::new();
    let mut i: usize = 0;
    while i < items.len()
        invariant
            i <= items@.len(),
            iv == item_views(items@),
            group_views(groups@) == first_groups(iv.take(i as int), *group_by),
        decreases items@.len() - i,
    {
        let item: &'a TodoItem = &items[i];
        let key = group_key(item, group_by);
        let ghost prev = group_views(groups@);
        assert(iv.take(i + 1).drop_last() =~= iv.take(i as int));
        assert(iv.take(i + 1).last() == item@);
        let mut j: usize = 0;
        while j < groups.len() && !(groups[j].0 == key)
            invariant
                j <= groups@.len(),
                prev == group_views(groups@),
                forall|m: int| 0 <= m < j ==> prev[m].0 != key@,
            decreases groups@.len() - j,
        {
            j += 1;
        }
        if j < groups.len() {
            proof {
                lemma_key_position_found(prev, key@, j as int);
            }
            let ghost old_groups = groups@;
            let (k0, mut members) = groups.remove(j);
            let ghost old_members = members@;
            assert(old_groups[j as int] == (k0, members));
            members.push(item);
            groups.insert(j, (k0, members));
            proof {
                let f = |r: &TodoItem| (*r)@;
                assert(groups@ =~= old_groups.update(j as int, groups@[j as int]));
                assert(groups@[j as int].1@ == old_members.push(item));
                assert(old_members.push(item).map_values(f) =~= old_members.map_values(f).push(item@));
                assert(group_views(groups@) =~= prev.update(j as int, (key@, prev[j as int].1.push(item@))));
            }
        } else {
            proof {
                lemma_key_position_absent(prev, key@);
            }
            let mut members: Vec<&'a TodoItem> = Vec::new();
            members.push(item);
            let ghost old_groups = groups@;
            groups.push((key, members));
            proof {
                assert(groups@ =~= old_groups.push(groups@.last()));
                assert(groups@.last().1@ =~= seq![item]);
                assert(seq![item].map_values(|r: &TodoItem| (*r)@) =~= seq![item@]);
                assert(group_views(groups@) =~= prev.push((key@, seq![item@])));
            }
        }
        i += 1;
    }
    assert(iv.take(items@.len() as int) =~= iv);
    let ghost unsorted = groups@;
    let res = match group_by {
        GroupBy::Priority => sort_by_order::<(String, Vec<&'a TodoItem>), ByPriorityLabel>(groups),
        GroupBy::Tag => sort_by_order::<(String, Vec<&'a TodoItem>), BySeverityDesc>(groups),
        _ => sort_by_order::<(String, Vec<&'a TodoItem>), ByGroupKey>(groups),
    };
    proof {
        lemma_map_values_multiset(res@, unsorted, |g: (String, Vec<&'a TodoItem>)| group_view(g));
        let f = |g: (String, Vec<&'a TodoItem>)| group_view(g);
        let g = *group_by;
        let lb = |a: (Seq<char>, Seq<TodoItemView>), b: (Seq<char>, Seq<TodoItemView>)| group_le(a, b, g);
        let la = |a: (String, Vec<&'a TodoItem>), b: (String, Vec<&'a TodoItem>)| group_le(group_view(a), group_view(b), g);
        match g {
            GroupBy::Priority => assert(la =~= (|a: (String, Vec<&'a TodoItem>), b: (String, Vec<&'a TodoItem>)| <ByPriorityLabel as Order<(String, Vec<&'a TodoItem>)>>::le(&a, &b))),
            GroupBy::Tag => assert(la =~= (|a: (String, Vec<&'a TodoItem>), b: (String, Vec<&'a TodoItem>)| <BySeverityDesc as Order<(String, Vec<&'a TodoItem>)>>::le(&a, &b))),
            _ => assert(la =~= (|a: (String, Vec<&'a TodoItem>), b: (String, Vec<&'a TodoItem>)| <ByGroupKey as Order<(String, Vec<&'a TodoItem>)>>::le(&a, &b))),
        }
        lemma_stable_sort_map(unsorted, f, la, lb);
        assert(group_views(unsorted) =~= unsorted.map_values(f));
        assert(group_views(res@) =~= res@.map_values(f));
    }
    res
}


// ───────────────────────── grouping by file ─────────────────────────

/// A reported record that belongs to a file.
pub trait Located {
    /// The file the record belongs to.
    spec fn file_of(&self) -> Seq<char>;

    /// The file the record belongs to.
    fn file_str(&self) -> (res: &str)
        ensures
            res@ == self.file_of(),
    ;
}

impl Located for LintViolation {
    open spec fn file_of(&self) -> Seq<char> {
        self.file@
    }

    fn file_str(&self) -> (res: &str) {
        self.file.as_str()
    }
}

impl Located for CleanViolation {
    open spec fn file_of(&self) -> Seq<char> {
        self.file@
    }

    fn file_str(&self) -> (res: &str) {
        self.file.as_str()
    }
}

impl Located for BlameEntry {
    open spec fn file_of(&self) -> Seq<char> {
        self.item.file@
    }

    fn file_str(&self) -> (res: &str) {
        self.item.file.as_str()
    }
}

/// Position of the first group named `k`.
pub open spec fn position_of_key<T>(gs: Seq<(Seq<char>, Seq<T>)>, k: Seq<char>) -> Option<int>
    decreases gs.len(),
{
    if gs.len() == 0 {
        None
    } else {
        match position_of_key(gs.drop_last(), k) {
            Some(i) => Some(i),
            None => if gs.last().0 == k {
                Some(gs.len() - 1)
            } else {
                None
            },
        }
    }
}

proof fn lemma_position_found<T>(gs: Seq<(Seq<char>, Seq<T>)>, k: Seq<char>, j: int)
    requires
        0 <= j < gs.len(),
        gs[j].0 == k,
        forall|m: int| 0 <= m < j ==> gs[m].0 != k,
    ensures
        position_of_key(gs, k) == Some(j),
    decreases gs.len(),
{
    if j < gs.len() - 1 {
        lemma_position_found(gs.drop_last(), k, j);
    } else {
        lemma_position_absent(gs.drop_last(), k);
    }
}

proof fn lemma_position_absent<T>(gs: Seq<(Seq<char>, Seq<T>)>, k: Seq<char>)
    requires
        forall|m: int| 0 <= m < gs.len() ==> gs[m].0 != k,
    ensures
        position_of_key(gs, k) is None,
    decreases gs.len(),
{
    if gs.len() > 0 {
        lemma_position_absent(gs.drop_last(), k);
    }
}

/// The records grouped by file: the groups in order of the files' first
/// appearance, each holding its records in input order.
pub open spec fn file_groups<T: Located>(xs: Seq<T>) -> Seq<(Seq<char>, Seq<T>)>
    decreases xs.len(),
{
    if xs.len() == 0 {
        seq![]
    } else {
        let prev = file_groups(xs.drop_last());
        let x = xs.last();
        let k = x.file_of();
        match position_of_key(prev, k) {
            Some(i) => prev.update(i, (k, prev[i].1.push(x))),
            None => prev.push((k, seq![x])),
        }
    }
}

/// A file group as plain values: the file and its records.
pub open spec fn located_group<'a, T>(g: (String, Vec<&'a T>)) -> (Seq<char>, Seq<T>) {
    (g.0@, g.1@.map_values(|r: &T| *r))
}

/// Group reported records (violations, blame entries) by file, in order of
/// the files' first appearance, each group keeping its records in order.
pub fn group_by_file<'a, T: Located>(xs: &'a [T]) -> (res: Vec<(String, Vec<&'a T>)>)
    ensures
        res@.map_values(|g: (String, Vec<&'a T>)| located_group(g)) == file_groups(xs@),
{
    let mut groups: Vec<(String, Vec<&'a T>)> = Vec::new();
    let mut i: usize = 0;
    while i < xs.len()
        invariant
            i <= xs@.len(),
            groups@.map_values(|g: (String, Vec<&'a T>)| located_group(g)) == file_groups(xs@.take(i as int)),
        decreases xs@.len() - i,
    {
        let x: &'a T = &xs[i];
        let key = str_to_string(x.file_str());
        let ghost prev = groups@.map_values(|g: (String, Vec<&'a T>)| located_group(g));
        assert(xs@.take(i + 1).drop_last() =~= xs@.take(i as int));
        assert(xs@.take(i + 1).last() == *x);
        let mut j: usize = 0;
        while j < groups.len() && !(groups[j].0 == key)
            invariant
                j <= groups@.len(),
                prev == groups@.map_values(|g: (String, Vec<&'a T>)| located_group(g)),
                forall|m: int| 0 <= m < j ==> prev[m].0 != key@,
            decreases groups@.len() - j,
        {
            j += 1;
        }
        if j < groups.len() {
            proof {
                lemma_position_found(prev, key@, j as int);
            }
            let ghost old_groups = groups@;
            let (k0, mut members) = groups.remove(j);
            let ghost old_members = members@;
            assert(old_groups[j as int] == (k0, members));
            members.push(x);
            groups.insert(j, (k0, members));
            proof {
                let f = |r: &T| *r;
                assert(groups@ =~= old_groups.update(j as int, groups@[j as int]));
                assert(groups@[j as int].1@ == old_members.push(x));
                assert(old_members.push(x).map_values(f) =~= old_members.map_values(f).push(*x));
                assert(groups@.map_values(|g: (String, Vec<&'a T>)| located_group(g)) =~= prev.update(
                    j as int,
                    (key@, prev[j as int].1.push(*x)),
                ));
            }
        } else {
            proof {
                lemma_position_absent(prev, key@);
            }
            let mut members: Vec<&'a T> = Vec::new();
            members.push(x);
            let ghost old_groups = groups@;
            groups.push((key, members));
            proof {
                assert(groups@ =~= old_groups.push(groups@.last()));
                assert(groups@.last().1@ =~= seq![x]);
                assert(seq![x].map_values(|r: &T| *r) =~= seq![*x]);
                assert(groups@.map_values(|g: (String, Vec<&'a T>)| located_group(g)) =~= prev.push((key@, seq![*x])));
            }
        }
        i += 1;
    }
    assert(xs@.take(xs@.len() as int) =~= xs@);
    groups
}


// ───────────────────────── bars and terminal text ─────────────────────────

/// `a / b` rounded up.
pub open spec fn ceil_div(a: nat, b: nat) -> nat {
    if a % b == 0 {
        a / b
    } else {
        a / b + 1
    }
}

/// A bar of `count` out of `max` on `width` cells: `count * width / max`
/// (rounded up) full-block characters, nothing when `max` is zero.
pub open spec fn bar_of(count: nat, max: nat, width: nat) -> Seq<char> {
    if max == 0 {
        seq![]
    } else {
        Seq::new(ceil_div(count * width, max), |i: int| '\u{2588}')
    }
}

/// A bar of `count` out of `max` on `width` cells, as in `bar_of`.
pub fn bar(count: usize, max: usize, width: usize) -> (res: String)
    requires
        count * width <= usize::MAX,
    ensures
        res@ == bar_of(count as nat, max as nat, width as nat),
{
    if max == 0 {
        return String::new();
    }
    let product: usize = count * width;
    let filled: usize = if product % max == 0 {
        product / max
    } else {
        assert(product / max < product) by (nonlinear_arith)
            requires
                max > 0,
                product % max != 0,
        ;
        product / max + 1
    };
    let mut cells: Vec<char> = Vec::new();
    while cells.len() < filled
        invariant
            cells@.len() <= filled,
            forall|k: int| 0 <= k < cells@.len() ==> cells@[k] == '\u{2588}',
        decreases filled - cells@.len(),
    {
        cells.push('\u{2588}');
    }
    let res = string_from_chars(&cells);
    assert(res@ =~= bar_of(count as nat, max as nat, width as nat));
    res
}

/// A character that can be shown on a terminal as it is: a tab, or any
/// character from space upwards other than DEL.
pub open spec fn terminal_safe(c: char) -> bool {
    c == '\t' || ('\u{20}' <= c && c != '\u{7f}')
}

/// The terminal-safe characters of `s`, in order.
pub open spec fn strip_controls(s: Seq<char>) -> Seq<char>
    decreases s.len(),
{
    if s.len() == 0 {
        seq![]
    } else if terminal_safe(s.last()) {
        strip_controls(s.drop_last()).push(s.last())
    } else {
        strip_controls(s.drop_last())
    }
}

/// `s` without control characters (0x00 to 0x1f except tab, and 0x7f), so
/// that text from files cannot drive the terminal.
pub fn sanitize_for_terminal(s: &str) -> (res: String)
    ensures
        res@ == strip_controls(s@),
{
    let cs = chars_of(s);
    let mut out: Vec<char> = Vec::new();
    let mut i: usize = 0;
    while i < cs.len()
        invariant
            i <= cs@.len(),
            cs@ == s@,
            out@ == strip_controls(cs@.take(i as int)),
        decreases cs@.len() - i,
    {
        let c = cs[i];
        assert(cs@.take(i + 1).drop_last() =~= cs@.take(i as int));
        if c == '\t' || ('\u{20}' <= c && c != '\u{7f}') {
            out.push(c);
        }
        i += 1;
    }
    assert(cs@.take(cs@.len() as int) =~= cs@);
    string_from_chars(&out)
}

// ───────────────────────── report page ─────────────────────────

/// JSON text made safe to embed in a `<script>` block: each `<` becomes
/// the JSON escape `\u003c`, so no closing tag of any letter case can occur.
pub open spec fn script_safe(s: Seq<char>) -> Seq<char>
    decreases s.len(),
{
    if s.len() == 0 {
        seq![]
    } else {
        script_safe(s.drop_last()) + if s.last() == '<' {
            seq!['\\', 'u', '0', '0', '3', 'c']
        } else {
            seq![s.last()]
        }
    }
}

/// The report's JSON with every `<` written as `\u003c`.
pub fn script_safe_json(json: &str) -> (res: String)
    ensures
        res@ == script_safe(json@),
{
    let cs = chars_of(json);
    let mut out: Vec<char> = Vec::new();
    let mut i: usize = 0;
    while i < cs.len()
        invariant
            i <= cs@.len(),
            cs@ == json@,
            out@ == script_safe(cs@.take(i as int)),
        decreases cs@.len() - i,
    {
        assert(cs@.take(i + 1).drop_last() =~= cs@.take(i as int));
        let ghost before = out@;
        if cs[i] == '<' {
            out.push('\\');
            out.push('u');
            out.push('0');
            out.push('0');
            out.push('3');
            out.push('c');
            assert(out@ =~= before + seq!['\\', 'u', '0', '0', '3', 'c']);
        } else {
            out.push(cs[i]);
            assert(out@ =~= before + seq![cs@[i as int]]);
        }
        i += 1;
    }
    assert(cs@.take(cs@.len() as int) =~= cs@);
    string_from_chars(&out)
}

// ───────────────────────── laws ─────────────────────────

/// A bar never has more cells than its width when the count is at most the
/// maximum; a full count fills the width exactly, and any positive count
/// shows at least one cell on a nonzero width.
pub proof fn lemma_bar_fits_width(count: nat, max: nat, width: nat)
    requires
        max > 0,
        count <= max,
    ensures
        bar_of(count, max, width).len() <= width,
        count == max ==> bar_of(count, max, width).len() == width,
        count > 0 && width > 0 ==> bar_of(count, max, width).len() >= 1,
{
    assert(count * width <= max * width) by (nonlinear_arith)
        requires
            count <= max,
    ;
    let q = (count * width) / max;
    let r = (count * width) % max;
    assert(count * width == max * q + r && 0 <= r < max) by (nonlinear_arith)
        requires
            max > 0,
            q == (count * width) / max,
            r == (count * width) % max,
    ;
    assert(q <= width) by (nonlinear_arith)
        requires
            count * width == max * q + r,
            0 <= r,
            count * width <= max * width,
            max > 0,
    ;
    if r != 0 {
        assert(q < width) by (nonlinear_arith)
            requires
                count * width == max * q + r,
                0 < r < max,
                count * width <= max * width,
                max > 0,
        ;
    }
    if count == max {
        assert(max * width == max * width + 0);
        assert(q == width && r == 0) by (nonlinear_arith)
            requires
                count == max,
                max > 0,
                count * width == max * q + r,
                0 <= r < max,
        ;
    }
    if count > 0 && width > 0 {
        assert(count * width > 0) by (nonlinear_arith)
            requires
                count > 0,
                width > 0,
        ;
        if r == 0 {
            assert(q >= 1) by (nonlinear_arith)
                requires
                    count * width == max * q + r,
                    r == 0,
                    count * width > 0,
                    max > 0,
            ;
        }
    }
}

proof fn lemma_strip_controls_safe(s: Seq<char>)
    ensures
        forall|i: int| 0 <= i < strip_controls(s).len() ==> terminal_safe(#[trigger] strip_controls(s)[i]),
    decreases s.len(),
{
    if s.len() > 0 {
        lemma_strip_controls_safe(s.drop_last());
        let p = strip_controls(s.drop_last());
        if terminal_safe(s.last()) {
            assert forall|i: int| 0 <= i < p.push(s.last()).len() implies terminal_safe(#[trigger] p.push(s.last())[i]) by {
                if i < p.len() {
                    assert(p.push(s.last())[i] == p[i]);
                }
            }
        }
    }
}

proof fn lemma_strip_controls_keeps_safe(s: Seq<char>)
    requires
        forall|i: int| 0 <= i < s.len() ==> terminal_safe(#[trigger] s[i]),
    ensures
        strip_controls(s) == s,
    decreases s.len(),
{
    if s.len() > 0 {
        assert(terminal_safe(s[s.len() - 1]));
        lemma_strip_controls_keeps_safe(s.drop_last());
        assert(s.drop_last().push(s.last()) =~= s);
    }
}

/// Sanitized text holds only characters a terminal shows as they are, and
/// sanitizing it again changes nothing.
pub proof fn lemma_sanitize_idempotent(s: Seq<char>)
    ensures
        forall|i: int| 0 <= i < strip_controls(s).len() ==> terminal_safe(#[trigger] strip_controls(s)[i]),
        strip_controls(strip_controls(s)) == strip_controls(s),
{
    lemma_strip_controls_safe(s);
    lemma_strip_controls_keeps_safe(strip_controls(s));
}

/// Every item lands in exactly one group: the groups' keys are distinct,
/// each group holds only items with its key, and the groups together hold
/// as many items as there were.
pub proof fn lemma_groups_partition(items: Seq<TodoItemView>, g: GroupBy)
    ensures
        forall|i: int, j: int|
            0 <= i < j < first_groups(items, g).len() ==> (#[trigger] first_groups(items, g)[i]).0 != (
            #[trigger] first_groups(items, g)[j]).0,
        forall|i: int, k: int|
            0 <= i < first_groups(items, g).len() && 0 <= k < first_groups(items, g)[i].1.len() ==> group_key_of(
                #[trigger] first_groups(items, g)[i].1[k],
                g,
            ) == first_groups(items, g)[i].0,
        group_sizes(first_groups(items, g)) == items.len(),
    decreases items.len(),
{
    if items.len() > 0 {
        let prev = first_groups(items.drop_last(), g);
        lemma_groups_partition(items.drop_last(), g);
        let x = items.last();
        let k = group_key_of(x, g);
        lemma_key_position_bounds(prev, k);
        let cur = first_groups(items, g);
        match key_position(prev, k) {
            Some(p) => {
                lemma_group_sizes_update(prev, p, (k, prev[p].1.push(x)));
                assert forall|i: int, m: int|
                    0 <= i < cur.len() && 0 <= m < cur[i].1.len() implies group_key_of(#[trigger] cur[i].1[m], g) == cur[i].0 by {
                    if i == p && m == prev[p].1.len() {
                        assert(cur[i].1[m] == x);
                    } else if i == p {
                        assert(cur[i].1[m] == prev[p].1[m]);
                    }
                }
            },
            None => {
                lemma_group_sizes_push(prev, (k, seq![x]));
                assert forall|i: int, m: int|
                    0 <= i < cur.len() && 0 <= m < cur[i].1.len() implies group_key_of(#[trigger] cur[i].1[m], g) == cur[i].0 by {
                    if i == prev.len() {
                        assert(cur[i].1 =~= seq![x]);
                    }
                }
            },
        }
    }
}

/// Total number of items over the groups.
pub open spec fn group_sizes(gs: Seq<(Seq<char>, Seq<TodoItemView>)>) -> nat
    decreases gs.len(),
{
    if gs.len() == 0 {
        0
    } else {
        group_sizes(gs.drop_last()) + gs.last().1.len()
    }
}

proof fn lemma_group_sizes_push(gs: Seq<(Seq<char>, Seq<TodoItemView>)>, x: (Seq<char>, Seq<TodoItemView>))
    ensures
        group_sizes(gs.push(x)) == group_sizes(gs) + x.1.len(),
{
    assert(gs.push(x).drop_last() =~= gs);
}

proof fn lemma_group_sizes_update(gs: Seq<(Seq<char>, Seq<TodoItemView>)>, p: int, x: (Seq<char>, Seq<TodoItemView>))
    requires
        0 <= p < gs.len(),
    ensures
        group_sizes(gs.update(p, x)) == group_sizes(gs) - gs[p].1.len() + x.1.len(),
    decreases gs.len(),
{
    if p == gs.len() - 1 {
        assert(gs.update(p, x).drop_last() =~= gs.drop_last());
    } else {
        lemma_group_sizes_update(gs.drop_last(), p, x);
        assert(gs.update(p, x).drop_last() =~= gs.drop_last().update(p, x));
    }
}

proof fn lemma_key_position_bounds(gs: Seq<(Seq<char>, Seq<TodoItemView>)>, k: Seq<char>)
    ensures
        match key_position(gs, k) {
            Some(i) => 0 <= i < gs.len() && gs[i].0 == k,
            None => forall|m: int| 0 <= m < gs.len() ==> gs[m].0 != k,
        },
    decreases gs.len(),
{
    if gs.len() > 0 {
        let d = gs.drop_last();
        lemma_key_position_bounds(d, k);
        assert forall|m: int| 0 <= m < d.len() implies d[m] == gs[m] by {}
    }
}

/// JSON made script-safe holds no `<`, so it cannot close the script
/// block it is embedded in.
pub proof fn lemma_script_safe_has_no_open_angle(s: Seq<char>)
    ensures
        forall|i: int| 0 <= i < script_safe(s).len() ==> #[trigger] script_safe(s)[i] != '<',
    decreases s.len(),
{
    if s.len() > 0 {
        lemma_script_safe_has_no_open_angle(s.drop_last());
        let a = script_safe(s.drop_last());
        let b: Seq<char> = if s.last() == '<' {
            seq!['\\', 'u', '0', '0', '3', 'c']
        } else {
            seq![s.last()]
        };
        assert forall|i: int| 0 <= i < (a + b).len() implies #[trigger] (a + b)[i] != '<' by {
            if i >= a.len() {
                assert((a + b)[i] == b[i - a.len()]);
            } else {
                assert((a + b)[i] == a[i]);
            }
        }
    }
}

} // verus!
