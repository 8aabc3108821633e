//! Summary statistics of a scan: counts by tag, priority, author and file.
//!
//! Counting keeps the keys in order of first appearance; the count lists are
//! then sorted by count, largest first.
use vstd::prelude::*;

use crate::model::{
    item_views, DiffResult, Priority, PriorityCounts, ScanResult, StatsResult, Tag, TodoItem,
    TodoItemView, TrendInfo,
};
use crate::sorting::{sort_by_order, sorted_by, Order};
use crate::text::{chars_of, string_from_chars};

verus! {

// ───────────────────────── tallies ─────────────────────────

/// Index of the entry for key `k`.
pub open spec fn key_index<K>(r: Seq<(K, nat)>, k: K) -> Option<nat>
    decreases r.len(),
{
    if r.len() == 0 {
        None
    } else if r[0].0 == k {
        Some(0)
    } else {
        match key_index(r.drop_first(), k) {
            Some(i) => Some(i + 1),
            None => None,
        }
    }
}

pub proof fn lemma_key_index<K>(r: Seq<(K, nat)>, k: K)
    ensures
        key_index(r, k) matches Some(i) ==> i < r.len() && r[i as int].0 == k && forall|j: int|
            0 <= j < i ==> r[j].0 != k,
        key_index(r, k) is None ==> forall|j: int| 0 <= j < r.len() ==> r[j].0 != k,
    decreases r.len(),
{
    if r.len() > 0 && r[0].0 != k {
        lemma_key_index(r.drop_first(), k);
        assert forall|j: int| 1 <= j < r.len() implies r[j] == r.drop_first()[j - 1] by {}
    }
}

proof fn lemma_key_index_at<K>(r: Seq<(K, nat)>, k: K, i: int)
    requires
        0 <= i <= r.len(),
        forall|j: int| 0 <= j < i ==> r[j].0 != k,
    ensures
        i < r.len() && r[i].0 == k ==> key_index(r, k) == Some(i as nat),
        i == r.len() ==> key_index(r, k) is None,
    decreases i,
{
    if i > 0 {
        lemma_key_index_at(r.drop_first(), k, i - 1);
    }
}

/// The distinct keys in order of first appearance, each with its number of
/// occurrences.
pub open spec fn tally<K>(keys: Seq<K>) -> Seq<(K, nat)>
    decreases keys.len(),
{
    if keys.len() == 0 {
        seq![]
    } else {
        let r = tally(keys.drop_last());
        let k = keys.last();
        match key_index(r, k) {
            Some(i) => r.update(i as int, (k, r[i as int].1 + 1)),
            None => r.push((k, 1)),
        }
    }
}

/// Counts of a tally are bounded by the number of keys.
pub proof fn lemma_tally_bounds<K>(keys: Seq<K>)
    ensures
        forall|j: int| 0 <= j < tally(keys).len() ==> #[trigger] tally(keys)[j].1 <= keys.len(),
        tally(keys).len() <= keys.len(),
    decreases keys.len(),
{
    if keys.len() > 0 {
        lemma_tally_bounds(keys.drop_last());
        lemma_key_index(tally(keys.drop_last()), keys.last());
    }
}

/// Sum of the counts of a tally.
pub open spec fn tally_sum<K>(r: Seq<(K, nat)>) -> nat
    decreases r.len(),
{
    if r.len() == 0 {
        0
    } else {
        tally_sum(r.drop_last()) + r.last().1
    }
}

proof fn lemma_tally_sum_update<K>(r: Seq<(K, nat)>, i: int, x: (K, nat))
    requires
        0 <= i < r.len(),
    ensures
        tally_sum(r.update(i, x)) == tally_sum(r) - r[i].1 + x.1,
    decreases r.len(),
{
    if i == r.len() - 1 {
        assert(r.update(i, x).drop_last() =~= r.drop_last());
    } else {
        lemma_tally_sum_update(r.drop_last(), i, x);
        assert(r.update(i, x).drop_last() =~= r.drop_last().update(i, x));
    }
}

/// The counts of a tally add up to the number of keys counted.
pub proof fn lemma_tally_sum<K>(keys: Seq<K>)
    ensures
        tally_sum(tally(keys)) == keys.len(),
    decreases keys.len(),
{
    if keys.len() > 0 {
        let r = tally(keys.drop_last());
        lemma_tally_sum(keys.drop_last());
        lemma_key_index(r, keys.last());
        match key_index(r, keys.last()) {
            Some(i) => {
                lemma_tally_sum_update(r, i as int, (keys.last(), r[i as int].1 + 1));
            },
            None => {
                assert(r.push((keys.last(), 1nat)).drop_last() =~= r);
            },
        }
    }
}

/// Every item has exactly one priority: the three priority counts add up to
/// the number of items.
pub proof fn lemma_priority_counts_sum(items: Seq<TodoItemView>)
    ensures
        count_priority(items, Priority::Urgent) + count_priority(items, Priority::High) + count_priority(
            items,
            Priority::Normal,
        ) == items.len(),
    decreases items.len(),
{
    if items.len() > 0 {
        lemma_priority_counts_sum(items.drop_last());
    }
}

pub open spec fn pairs_view<K>(v: Seq<(K, usize)>) -> Seq<(K, nat)> {
    v.map_values(|p: (K, usize)| (p.0, p.1 as nat))
}

pub open spec fn string_pairs_view(v: Seq<(String, usize)>) -> Seq<(Seq<char>, nat)> {
    v.map_values(|p: (String, usize)| (p.0@, p.1 as nat))
}

/// Tally of tags.
pub fn tally_tags(tags: &Vec<Tag>) -> (res: Vec<(Tag, usize)>)
    ensures
        pairs_view(res@) == tally(tags@),
{
    let mut res: Vec<(Tag, usize)> = Vec::new();
    let mut i: usize = 0;
    assert(tags@.take(0) =~= Seq::<Tag>::empty());
    while i < tags.len()
        invariant
            i <= tags@.len(),
            pairs_view(res@) == tally(tags@.take(i as int)),
            forall|j: int| 0 <= j < res@.len() ==> (#[trigger] res@[j]).1 <= i,
        decreases tags@.len() - i,
    {
        let ghost pre = tags@.take(i as int);
        assert(tags@.take(i + 1).drop_last() =~= pre);
        let k = tags[i];
        let mut p: usize = 0;
        while p < res.len() && res[p].0 != k
            invariant
                p <= res@.len(),
                forall|j: int| 0 <= j < p ==> pairs_view(res@)[j].0 != k,
            decreases res@.len() - p,
        {
            p += 1;
        }
        proof {
            lemma_key_index_at(pairs_view(res@), k, p as int);
        }
        if p < res.len() {
            let c = res[p].1;
            let ghost old_res = res@;
            res.set(p, (k, c + 1));
            assert(pairs_view(res@) =~= pairs_view(old_res).update(p as int, (k, (c + 1) as nat)));
        } else {
            let ghost old_res = res@;
            res.push((k, 1));
            assert(pairs_view(res@) =~= pairs_view(old_res).push((k, 1nat)));
        }
        i += 1;
    }
    assert(tags@.take(tags@.len() as int) =~= tags@);
    res
}

/// Tally of strings (by their text).
pub fn tally_strings(keys: &Vec<String>) -> (res: Vec<(String, usize)>)
    ensures
        string_pairs_view(res@) == tally(keys@.map_values(|s: String| s@)),
{
    let ghost ks = keys@.map_values(|s: String| s@);
    let mut res: Vec<(String, usize)> = Vec::new();
    let mut i: usize = 0;
    assert(ks.take(0) =~= Seq::<Seq<char>>::empty());
    while i < keys.len()
        invariant
            ks == keys@.map_values(|s: String| s@),
            i <= keys@.len(),
            string_pairs_view(res@) == tally(ks.take(i as int)),
            forall|j: int| 0 <= j < res@.len() ==> (#[trigger] res@[j]).1 <= i,
        decreases keys@.len() - i,
    {
        let ghost pre = ks.take(i as int);
        assert(ks.take(i + 1).drop_last() =~= pre);
        assert(ks.take(i + 1).last() == keys@[i as int]@);
        let k = &keys[i];
        let mut p: usize = 0;
        while p < res.len() && res[p].0 != *k
            invariant
                p <= res@.len(),
                forall|j: int| 0 <= j < p ==> string_pairs_view(res@)[j].0 != k@,
            decreases res@.len() - p,
        {
            p += 1;
        }
        proof {
            lemma_key_index_at(string_pairs_view(res@), k@, p as int);
        }
        if p < res.len() {
            let c = res[p].1;
            let ghost old_res = res@;
            res.set(p, (k.clone(), c + 1));
            assert(string_pairs_view(res@) =~= string_pairs_view(old_res).update(p as int, (k@, (c + 1) as nat)));
        } else {
            let ghost old_res = res@;
            res.push((k.clone(), 1));
            assert(string_pairs_view(res@) =~= string_pairs_view(old_res).push((k@, 1nat)));
        }
        i += 1;
    }
    assert(ks.take(keys@.len() as int) =~= ks);
    res
}

// ───────────────────────── ordering by count ─────────────────────────

/// Tag counts ordered by count, largest first.
pub struct TagCountOrder;

impl Order<(Tag, usize)> for TagCountOrder {
    open spec fn le(a: &(Tag, usize), b: &(Tag, usize)) -> bool {
        a.1 >= b.1
    }

    fn le_exec(a: &(Tag, usize), b: &(Tag, usize)) -> (res: bool) {
        a.1 >= b.1
    }

    proof fn lemma_total(a: &(Tag, usize), b: &(Tag, usize)) {
    }

    proof fn lemma_trans(a: &(Tag, usize), b: &(Tag, usize), c: &(Tag, usize)) {
    }
}

/// Text counts ordered by count, largest first.
pub struct CountOrder;

impl Order<(String, usize)> for CountOrder {
    open spec fn le(a: &(String, usize), b: &(String, usize)) -> bool {
        a.1 >= b.1
    }

    fn le_exec(a: &(String, usize), b: &(String, usize)) -> (res: bool) {
        a.1 >= b.1
    }

    proof fn lemma_total(a: &(String, usize), b: &(String, usize)) {
    }

    proof fn lemma_trans(a: &(String, usize), b: &(String, usize), c: &(String, usize)) {
    }
}

// ───────────────────────── statistics ─────────────────────────

pub open spec fn item_files(items: Seq<TodoItemView>) -> Seq<Seq<char>> {
    items.map_values(|v: TodoItemView| v.file)
}

pub open spec fn item_tags(items: Seq<TodoItemView>) -> Seq<Tag> {
    items.map_values(|v: TodoItemView| v.tag)
}

/// The author of an item, or `unassigned`.
pub open spec fn author_key(v: TodoItemView) -> Seq<char> {
    match v.author {
        Some(a) => a,
        None => "unassigned"@,
    }
}

pub open spec fn item_authors(items: Seq<TodoItemView>) -> Seq<Seq<char>> {
    items.map_values(|v: TodoItemView| author_key(v))
}

/// Number of items with priority `p`.
pub open spec fn count_priority(items: Seq<TodoItemView>, p: Priority) -> nat
    decreases items.len(),
{
    if items.len() == 0 {
        0
    } else {
        count_priority(items.drop_last(), p) + if items.last().priority == p {
            1nat
        } else {
            0nat
        }
    }
}

pub(crate) fn files_of(items: &Vec<TodoItem>) -> (res: Vec<String>)
    ensures
        res@.map_values(|s: String| s@) == item_files(item_views(items@)),
{
    let mut res: Vec<String> = Vec::new();
    let mut i: usize = 0;
    while i < items.len()
        invariant
            i <= items@.len(),
            res@.len() == i,
            forall|j: int| 0 <= j < i ==> (#[trigger] res@[j])@ == items@[j].file@,
        decreases items@.len() - i,
    {
        res.push(items[i].file.clone());
        i += 1;
    }
    assert(res@.map_values(|s: String| s@) =~= item_files(item_views(items@)));
    res
}

fn authors_of(items: &Vec<TodoItem>) -> (res: Vec<String>)
    ensures
        res@.map_values(|s: String| s@) == item_authors(item_views(items@)),
{
    let mut res: Vec<String> = Vec::new();
    let mut i: usize = 0;
    while i < items.len()
        invariant
            i <= items@.len(),
            res@.len() == i,
            forall|j: int| 0 <= j < i ==> (#[trigger] res@[j])@ == author_key(items@[j]@),
        decreases items@.len() - i,
    {
        let a = match &items[i].author {
            Some(a) => a.clone(),
            None => string_from_chars(&chars_of("unassigned")),
        };
        res.push(a);
        i += 1;
    }
    assert(res@.map_values(|s: String| s@) =~= item_authors(item_views(items@)));
    res
}

fn tags_of(items: &Vec<TodoItem>) -> (res: Vec<Tag>)
    ensures
        res@ == item_tags(item_views(items@)),
{
    let mut res: Vec<Tag> = Vec::new();
    let mut i: usize = 0;
    while i < items.len()
        invariant
            i <= items@.len(),
            res@.len() == i,
            forall|j: int| 0 <= j < i ==> res@[j] == items@[j].tag,
        decreases items@.len() - i,
    {
        res.push(items[i].tag);
        i += 1;
    }
    assert(res@ =~= item_tags(item_views(items@)));
    res
}

fn count_priorities(items: &Vec<TodoItem>) -> (res: PriorityCounts)
    ensures
        res.normal == count_priority(item_views(items@), Priority::Normal),
        res.high == count_priority(item_views(items@), Priority::High),
        res.urgent == count_priority(item_views(items@), Priority::Urgent),
{
    let ghost vs = item_views(items@);
    let mut normal: usize = 0;
    let mut high: usize = 0;
    let mut urgent: usize = 0;
    let mut i: usize = 0;
    assert(vs.take(0) =~= Seq::<TodoItemView>::empty());
    while i < items.len()
        invariant
            vs == item_views(items@),
            i <= items@.len(),
            normal == count_priority(vs.take(i as int), Priority::Normal),
            high == count_priority(vs.take(i as int), Priority::High),
            urgent == count_priority(vs.take(i as int), Priority::Urgent),
            normal + high + urgent == i,
        decreases items@.len() - i,
    {
        assert(vs.take(i + 1).drop_last() =~= vs.take(i as int));
        assert(vs.take(i + 1).last() == items@[i as int]@);
        match items[i].priority {
            Priority::Normal => normal += 1,
            Priority::High => high += 1,
            Priority::Urgent => urgent += 1,
        }
        i += 1;
    }
    assert(vs.take(items@.len() as int) =~= vs);
    PriorityCounts { normal, high, urgent }
}

/// `hot` is the first (up to) five entries of an ordering, largest count
/// first, of the tally `t`.
pub open spec fn top_five_of(t: Seq<(Seq<char>, nat)>, hot: Seq<(String, usize)>) -> bool {
    exists|u: Seq<(String, usize)>, full: Seq<(String, usize)>|
        #![trigger string_pairs_view(u), full.to_multiset()]
        string_pairs_view(u) == t && u.to_multiset() == full.to_multiset() && sorted_by::<(String, usize), CountOrder>(full)
            && hot == full.take(if full.len() < 5 { full.len() as int } else { 5 })
}

/// `res` holds the statistics of `items`.
pub open spec fn stats_of(items: Seq<TodoItemView>, diff: Option<DiffResult>, res: StatsResult) -> bool {
    &&& res.total_items == items.len()
    &&& res.total_files == tally(item_files(items)).len()
    &&& exists|u: Seq<(Tag, usize)>| #[trigger] pairs_view(u) == tally(item_tags(items)) && u.to_multiset() == res.tag_counts@.to_multiset()
    &&& sorted_by::<(Tag, usize), TagCountOrder>(res.tag_counts@)
    &&& res.priority_counts.normal == count_priority(items, Priority::Normal)
    &&& res.priority_counts.high == count_priority(items, Priority::High)
    &&& res.priority_counts.urgent == count_priority(items, Priority::Urgent)
    &&& exists|u: Seq<(String, usize)>| #[trigger] string_pairs_view(u) == tally(item_authors(items)) && u.to_multiset() == res.author_counts@.to_multiset()
    &&& sorted_by::<(String, usize), CountOrder>(res.author_counts@)
    &&& top_five_of(tally(item_files(items)), res.hotspot_files@)
    &&& match diff {
        Some(d) => res.trend matches Some(t) && t.added == d.added_count && t.removed == d.removed_count && t.base_ref@ == d.base_ref@,
        None => res.trend is None,
    }
}

/// Compute summary statistics of a scan, with the trend of `diff` if given.
pub fn compute_stats(scan: &ScanResult, diff: Option<&DiffResult>) -> (res: StatsResult)
    ensures
        stats_of(
            item_views(scan.items@),
            match diff {
                Some(d) => Some(*d),
                None => None,
            },
            res,
        ),
{
    let ghost items = item_views(scan.items@);
    let files = files_of(&scan.items);
    let file_tally = tally_strings(&files);
    let total_files = file_tally.len();
    let tags = tags_of(&scan.items);
    let tag_tally = tally_tags(&tags);
    let ghost tag_unsorted = tag_tally@;
    let tag_counts = sort_by_order::<(Tag, usize), TagCountOrder>(tag_tally);
    let priority_counts = count_priorities(&scan.items);
    let authors = authors_of(&scan.items);
    let author_tally = tally_strings(&authors);
    let ghost author_unsorted = author_tally@;
    let author_counts = sort_by_order::<(String, usize), CountOrder>(author_tally);
    let ghost file_unsorted = file_tally@;
    let mut hotspot_files = sort_by_order::<(String, usize), CountOrder>(file_tally);
    let ghost full = hotspot_files@;
    hotspot_files.truncate(5);
    let trend = match diff {
        Some(d) => Some(TrendInfo { added: d.added_count, removed: d.removed_count, base_ref: d.base_ref.clone() }),
        None => None,
    };
    let res = StatsResult {
        total_items: scan.items.len(),
        total_files,
        tag_counts,
        priority_counts,
        author_counts,
        hotspot_files,
        trend,
    };
    proof {
        assert(string_pairs_view(file_unsorted).len() == file_unsorted.len());
        assert(pairs_view(tag_unsorted) == tally(item_tags(items)));
        assert(string_pairs_view(author_unsorted) == tally(item_authors(items)));
        assert(res.hotspot_files@ =~= full.take(if full.len() < 5 { full.len() as int } else { 5 }));
        assert(string_pairs_view(file_unsorted) == tally(item_files(items)));
    }
    res
}

// ───────────────────────── laws of the statistics ─────────────────────────

/// Sum of the counts of a list of (key, count) pairs.
pub open spec fn count_sum<K>(v: Seq<(K, usize)>) -> nat
    decreases v.len(),
{
    if v.len() == 0 {
        0
    } else {
        count_sum(v.drop_last()) + v.last().1 as nat
    }
}

proof fn lemma_count_sum_remove<K>(s: Seq<(K, usize)>, j: int)
    requires
        0 <= j < s.len(),
    ensures
        count_sum(s) == count_sum(s.remove(j)) + s[j].1,
    decreases s.len(),
{
    if j == s.len() - 1 {
        assert(s.remove(j) =~= s.drop_last());
    } else {
        lemma_count_sum_remove(s.drop_last(), j);
        assert(s.remove(j).drop_last() =~= s.drop_last().remove(j));
    }
}

/// Reordering a list of pairs keeps the sum of its counts.
proof fn lemma_count_sum_permutation<K>(a: Seq<(K, usize)>, b: Seq<(K, usize)>)
    requires
        a.to_multiset() == b.to_multiset(),
    ensures
        count_sum(a) == count_sum(b),
    decreases a.len(),
{
    broadcast use vstd::seq_lib::group_to_multiset_ensures;

    if a.len() == 0 {
        assert(a.to_multiset().len() == 0 && b.to_multiset().len() == b.len());
    } else {
        let x = a.last();
        assert(a =~= a.drop_last().push(x));
        assert(b.to_multiset().count(x) > 0);
        assert(b.contains(x));
        let j = choose|j: int| 0 <= j < b.len() && b[j] == x;
        lemma_count_sum_remove(b, j);
        assert(b.remove(j).to_multiset() =~= a.drop_last().to_multiset());
        lemma_count_sum_permutation(a.drop_last(), b.remove(j));
    }
}

proof fn lemma_count_sum_tags(u: Seq<(Tag, usize)>)
    ensures
        count_sum(u) == tally_sum(pairs_view(u)),
    decreases u.len(),
{
    if u.len() > 0 {
        lemma_count_sum_tags(u.drop_last());
        assert(pairs_view(u).drop_last() =~= pairs_view(u.drop_last()));
    }
}

proof fn lemma_count_sum_strings(u: Seq<(String, usize)>)
    ensures
        count_sum(u) == tally_sum(string_pairs_view(u)),
    decreases u.len(),
{
    if u.len() > 0 {
        lemma_count_sum_strings(u.drop_last());
        assert(string_pairs_view(u).drop_last() =~= string_pairs_view(u.drop_last()));
    }
}

/// Law: every item is counted once in each breakdown. The tag counts, the
/// author counts and the three priority counts each add up to the number of
/// items; the hot spots are the first five files (all files if fewer), by
/// count, largest first.
pub proof fn lemma_stats_totals(items: Seq<TodoItemView>, diff: Option<DiffResult>, res: StatsResult)
    requires
        stats_of(items, diff, res),
    ensures
        res.total_items == items.len(),
        count_sum(res.tag_counts@) == items.len(),
        count_sum(res.author_counts@) == items.len(),
        res.priority_counts.normal + res.priority_counts.high + res.priority_counts.urgent
            == items.len(),
        res.hotspot_files@.len() == if res.total_files < 5 {
            res.total_files as int
        } else {
            5
        },
        sorted_by::<(String, usize), CountOrder>(res.hotspot_files@),
{
    broadcast use vstd::seq_lib::group_to_multiset_ensures;

    let ut = choose|u: Seq<(Tag, usize)>|
        #[trigger] pairs_view(u) == tally(item_tags(items)) && u.to_multiset()
            == res.tag_counts@.to_multiset();
    lemma_count_sum_tags(ut);
    lemma_tally_sum(item_tags(items));
    lemma_count_sum_permutation(ut, res.tag_counts@);
    let ua = choose|u: Seq<(String, usize)>|
        #[trigger] string_pairs_view(u) == tally(item_authors(items)) && u.to_multiset()
            == res.author_counts@.to_multiset();
    lemma_count_sum_strings(ua);
    lemma_tally_sum(item_authors(items));
    lemma_count_sum_permutation(ua, res.author_counts@);
    lemma_priority_counts_sum(items);
    let t = tally(item_files(items));
    let (uf, full) = choose|u: Seq<(String, usize)>, full: Seq<(String, usize)>|
        #![trigger string_pairs_view(u), full.to_multiset()]
        string_pairs_view(u) == t && u.to_multiset() == full.to_multiset() && sorted_by::<
            (String, usize),
            CountOrder,
        >(full) && res.hotspot_files@ == full.take(
            if full.len() < 5 {
                full.len() as int
            } else {
                5
            },
        );
    assert(uf.len() == string_pairs_view(uf).len());
    assert(uf.to_multiset().len() == full.to_multiset().len());
    let hot = res.hotspot_files@;
    assert forall|i: int, j: int| 0 <= i < j < hot.len() implies CountOrder::le(
        &hot[i],
        &hot[j],
    ) by {
        assert(hot[i] == full[i] && hot[j] == full[j]);
    }
}

} // verus!
