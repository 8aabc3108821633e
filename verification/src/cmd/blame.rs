//! The `blame` command's narrowing of a blame report: filters by tag,
//! author, age and path, the chosen order, and the summary recomputed over
//! what is left.
use vstd::prelude::*;

use crate::blame::{count_stale, duration_days, duration_error, entry_views, parse_duration_days, sum_ages, BlameEntryView};
use crate::cli::BlameSortBy;
use crate::cmd::filter::{glob_usable, glob_is_match, glob_matches, compile_glob, named_tags, parse_tags, PathGlob};
use crate::config::Config;
use crate::model::{tag_severity, BlameEntry, BlameResult, Tag};
use crate::sorting::{
    lemma_lex_total, lemma_lex_trans, lemma_map_values_multiset, lemma_stable_sort_map, lex_le, lex_le_exec, sort_by_order, stable_sort,
    Order,
};
use crate::text::{chars_of, contains, contains_exec, lowercase, str_to_string, to_lowercase};

verus! {

broadcast use vstd::seq_lib::group_to_multiset_ensures;

/// Options of the `blame` command.
pub struct BlameOptions {
    pub sort: BlameSortBy,
    pub author: Option<String>,
    pub min_age: Option<String>,
    pub stale_threshold: Option<String>,
    pub tag: Vec<String>,
    pub path: Option<String>,
}

/// The stale threshold to use: the command line's, else the configured
/// one, else `365d`.
pub open spec fn threshold_text(cli: Option<String>, config: Config) -> Seq<char> {
    match cli {
        Some(t) => t@,
        None => match config.blame.stale_threshold {
            Some(t) => t@,
            None => "365d"@,
        },
    }
}

/// The stale threshold text of the `blame` and `report` commands.
pub fn stale_threshold_text(cli: &Option<String>, config: &Config) -> (res: String)
    ensures
        res@ == threshold_text(*cli, *config),
{
    match cli {
        Some(t) => t.clone(),
        None => match &config.blame.stale_threshold {
            Some(t) => t.clone(),
            None => str_to_string("365d"),
        },
    }
}

/// A filter on blame entries.
pub enum EntryFilter {
    /// The entry's tag is one of these.
    Tags(Vec<Tag>),
    /// The lower-cased author contains this (lower-cased) text.
    Author(Vec<char>),
    /// The entry is at least this many days old.
    MinAge(u64),
    /// The entry's file matches the glob.
    Glob(PathGlob),
}

/// The predicate of an entry filter.
pub open spec fn entry_pred(f: EntryFilter) -> spec_fn(BlameEntryView) -> bool {
    match f {
        EntryFilter::Tags(ts) => |e: BlameEntryView| ts@.contains(e.item.tag),
        EntryFilter::Author(n) => |e: BlameEntryView| contains(lowercase(e.blame.author), n@),
        EntryFilter::MinAge(d) => |e: BlameEntryView| e.blame.age_days >= d,
        EntryFilter::Glob(g) => |e: BlameEntryView| glob_matches(g@, e.item.file),
    }
}

/// The entries that satisfy `p`, in order.
pub open spec fn keep_entries(es: Seq<BlameEntryView>, p: spec_fn(BlameEntryView) -> bool) -> Seq<BlameEntryView>
    decreases es.len(),
{
    if es.len() == 0 {
        seq![]
    } else if p(es.last()) {
        keep_entries(es.drop_last(), p).push(es.last())
    } else {
        keep_entries(es.drop_last(), p)
    }
}

fn entry_holds(f: &EntryFilter, e: &BlameEntry) -> (res: bool)
    ensures
        res == entry_pred(*f)(e@),
{
    match f {
        EntryFilter::Tags(ts) => {
            let mut found = false;
            let mut k: usize = 0;
            while k < ts.len()
                invariant
                    k <= ts@.len(),
                    found <==> exists|m: int| 0 <= m < k && ts@[m] == e.item.tag,
                decreases ts@.len() - k,
            {
                if ts[k] == e.item.tag {
                    found = true;
                }
                k += 1;
            }
            found
        },
        EntryFilter::Author(n) => {
            let low = to_lowercase(&chars_of(e.blame.author.as_str()));
            contains_exec(&low, n)
        },
        EntryFilter::MinAge(d) => e.blame.age_days >= *d,
        EntryFilter::Glob(g) => glob_is_match(g, e.item.file.as_str()),
    }
}

/// Keep the entries that pass the filter.
pub fn retain_entries(es: &mut Vec<BlameEntry>, f: &EntryFilter)
    ensures
        entry_views(final(es)@) == keep_entries(entry_views(old(es)@), entry_pred(*f)),
{
    let mut src: Vec<BlameEntry> = Vec::new();
    std::mem::swap(es, &mut src);
    let ghost all = entry_views(src@);
    let total: usize = src.len();
    let mut n: usize = 0;
    while src.len() > 0
        invariant
            all.len() == total,
            n + src@.len() == total,
            entry_views(src@) == all.skip(n as int),
            entry_views(es@) == keep_entries(all.take(n as int), entry_pred(*f)),
        decreases src@.len(),
    {
        let ghost before = entry_views(es@);
        let ghost old_src = src@;
        let e = src.remove(0);
        proof {
            assert(all.skip(n as int)[0] == e@);
            assert(src@ =~= old_src.drop_first());
            assert(entry_views(src@) =~= entry_views(old_src).drop_first());
            assert(entry_views(src@) =~= all.skip(n + 1));
            assert(all.take(n + 1).drop_last() =~= all.take(n as int));
            assert(all.take(n + 1).last() == e@);
        }
        if entry_holds(f, &e) {
            es.push(e);
            assert(entry_views(es@) =~= before.push(e@));
        }
        n += 1;
    }
    assert(all.take(total as int) =~= all);
}

// ───────────────────────── order ─────────────────────────

/// The order of a blame sort key: by file and line; by age, oldest first;
/// by author; or by tag severity, highest first.
pub open spec fn blame_le(sort: BlameSortBy, a: BlameEntryView, b: BlameEntryView) -> bool {
    match sort {
        BlameSortBy::File => if a.item.file == b.item.file {
            a.item.line <= b.item.line
        } else {
            lex_le(a.item.file, b.item.file)
        },
        BlameSortBy::Age => a.blame.age_days >= b.blame.age_days,
        BlameSortBy::Author => lex_le(a.blame.author, b.blame.author),
        BlameSortBy::Tag => tag_severity(a.item.tag) >= tag_severity(b.item.tag),
    }
}

/// Blame entries by file and line.
pub struct EntriesByFile;

/// Blame entries by age, oldest first.
pub struct EntriesByAge;

/// Blame entries by author.
pub struct EntriesByAuthor;

/// Blame entries by tag severity, highest first.
pub struct EntriesBySeverity;

impl Order<BlameEntry> for EntriesByFile {
    open spec fn le(a: &BlameEntry, b: &BlameEntry) -> bool {
        blame_le(BlameSortBy::File, a@, b@)
    }

    fn le_exec(a: &BlameEntry, b: &BlameEntry) -> (res: bool) {
        if a.item.file == b.item.file {
            a.item.line <= b.item.line
        } else {
            let x = chars_of(a.item.file.as_str());
            let y = chars_of(b.item.file.as_str());
            lex_le_exec(&x, &y)
        }
    }

    proof fn lemma_total(a: &BlameEntry, b: &BlameEntry) {
        lemma_lex_total(a.item.file@, b.item.file@);
    }

    proof fn lemma_trans(a: &BlameEntry, b: &BlameEntry, c: &BlameEntry) {
        if a.item.file@ != b.item.file@ && b.item.file@ != c.item.file@ {
            lemma_lex_trans(a.item.file@, b.item.file@, c.item.file@);
            if a.item.file@ == c.item.file@ {
                crate::sorting::lemma_lex_antisym(a.item.file@, b.item.file@);
            }
        }
    }
}

impl Order<BlameEntry> for EntriesByAge {
    open spec fn le(a: &BlameEntry, b: &BlameEntry) -> bool {
        blame_le(BlameSortBy::Age, a@, b@)
    }

    fn le_exec(a: &BlameEntry, b: &BlameEntry) -> (res: bool) {
        a.blame.age_days >= b.blame.age_days
    }

    proof fn lemma_total(a: &BlameEntry, b: &BlameEntry) {
    }

    proof fn lemma_trans(a: &BlameEntry, b: &BlameEntry, c: &BlameEntry) {
    }
}

impl Order<BlameEntry> for EntriesByAuthor {
    open spec fn le(a: &BlameEntry, b: &BlameEntry) -> bool {
        blame_le(BlameSortBy::Author, a@, b@)
    }

    fn le_exec(a: &BlameEntry, b: &BlameEntry) -> (res: bool) {
        let x = chars_of(a.blame.author.as_str());
        let y = chars_of(b.blame.author.as_str());
        lex_le_exec(&x, &y)
    }

    proof fn lemma_total(a: &BlameEntry, b: &BlameEntry) {
        lemma_lex_total(a.blame.author@, b.blame.author@);
    }

    proof fn lemma_trans(a: &BlameEntry, b: &BlameEntry, c: &BlameEntry) {
        lemma_lex_trans(a.blame.author@, b.blame.author@, c.blame.author@);
    }
}

impl Order<BlameEntry> for EntriesBySeverity {
    open spec fn le(a: &BlameEntry, b: &BlameEntry) -> bool {
        blame_le(BlameSortBy::Tag, a@, b@)
    }

    fn le_exec(a: &BlameEntry, b: &BlameEntry) -> (res: bool) {
        a.item.tag.severity() >= b.item.tag.severity()
    }

    proof fn lemma_total(a: &BlameEntry, b: &BlameEntry) {
    }

    proof fn lemma_trans(a: &BlameEntry, b: &BlameEntry, c: &BlameEntry) {
    }
}

/// Blame entries sorted stably by the sort key: entries equal in the key
/// keep their relative order.
pub open spec fn sorted_entries(es: Seq<BlameEntryView>, sort: BlameSortBy) -> Seq<BlameEntryView> {
    stable_sort(es, |a: BlameEntryView, b: BlameEntryView| blame_le(sort, a, b))
}

/// Sort blame entries by the sort key, stably.
pub fn sort_entries(es: &mut Vec<BlameEntry>, sort: BlameSortBy)
    ensures
        entry_views(final(es)@) == sorted_entries(entry_views(old(es)@), sort),
        entry_views(final(es)@).to_multiset() == entry_views(old(es)@).to_multiset(),
        forall|i: int, j: int|
            0 <= i < j < final(es)@.len() ==> blame_le(sort, (#[trigger] final(es)@[i])@, (#[trigger] final(es)@[j])@),
{
    let mut src: Vec<BlameEntry> = Vec::new();
    std::mem::swap(es, &mut src);
    let ghost before = src@;
    let sorted = match sort {
        BlameSortBy::File => sort_by_order::<BlameEntry, EntriesByFile>(src),
        BlameSortBy::Age => sort_by_order::<BlameEntry, EntriesByAge>(src),
        BlameSortBy::Author => sort_by_order::<BlameEntry, EntriesByAuthor>(src),
        BlameSortBy::Tag => sort_by_order::<BlameEntry, EntriesBySeverity>(src),
    };
    proof {
        lemma_map_values_multiset(sorted@, before, |e: BlameEntry| e@);
        let f = |e: BlameEntry| e@;
        let lb = |a: BlameEntryView, b: BlameEntryView| blame_le(sort, a, b);
        let la = |a: BlameEntry, b: BlameEntry| blame_le(sort, a@, b@);
        match sort {
            BlameSortBy::File => assert(la =~= (|a: BlameEntry, b: BlameEntry| <EntriesByFile as Order<BlameEntry>>::le(&a, &b))),
            BlameSortBy::Age => assert(la =~= (|a: BlameEntry, b: BlameEntry| <EntriesByAge as Order<BlameEntry>>::le(&a, &b))),
            BlameSortBy::Author => assert(la =~= (|a: BlameEntry, b: BlameEntry| <EntriesByAuthor as Order<BlameEntry>>::le(&a, &b))),
            BlameSortBy::Tag => assert(la =~= (|a: BlameEntry, b: BlameEntry| <EntriesBySeverity as Order<BlameEntry>>::le(&a, &b))),
        }
        assert(sorted@ == stable_sort(before, la));
        lemma_stable_sort_map(before, f, la, lb);
        assert(entry_views(before) =~= before.map_values(f));
        assert(entry_views(sorted@) =~= sorted@.map_values(f));
        assert forall|i: int, j: int| 0 <= i < j < sorted@.len() implies blame_le(sort, (#[trigger] sorted@[i])@, (#[trigger] sorted@[j])@) by {
            match sort {
                BlameSortBy::File => assert(<EntriesByFile as Order<BlameEntry>>::le(&sorted@[i], &sorted@[j])),
                BlameSortBy::Age => assert(<EntriesByAge as Order<BlameEntry>>::le(&sorted@[i], &sorted@[j])),
                BlameSortBy::Author => assert(<EntriesByAuthor as Order<BlameEntry>>::le(&sorted@[i], &sorted@[j])),
                BlameSortBy::Tag => assert(<EntriesBySeverity as Order<BlameEntry>>::le(&sorted@[i], &sorted@[j])),
            }
        }
    }
    *es = sorted;
}

// ───────────────────────── the refinement ─────────────────────────

/// The entries left by the tag and author filters.
pub open spec fn after_tag_author(es: Seq<BlameEntryView>, o: &BlameOptions) -> Seq<BlameEntryView> {
    let ts = named_tags(o.tag@.map_values(|s: String| s@));
    let a = if o.tag@.len() > 0 {
        keep_entries(es, |e: BlameEntryView| ts.contains(e.item.tag))
    } else {
        es
    };
    match o.author {
        Some(x) => keep_entries(a, |e: BlameEntryView| contains(lowercase(e.blame.author), lowercase(x@))),
        None => a,
    }
}

/// The entries left by all filters, or the error that stops the command:
/// an unreadable minimum age, then an invalid path glob.
pub open spec fn refined_entries(es: Seq<BlameEntryView>, o: &BlameOptions) -> Result<Seq<BlameEntryView>, Seq<char>> {
    let a = after_tag_author(es, o);
    let b = match o.min_age {
        Some(m) => match duration_days(m@) {
            Some(d) => Ok(keep_entries(a, |e: BlameEntryView| e.blame.age_days >= d)),
            None => Err(duration_error(m@)),
        },
        None => Ok(a),
    };
    match b {
        Err(e) => Err(e),
        Ok(c) => match o.path {
            Some(p) => if glob_usable(p@) {
                Ok(keep_entries(c, |e: BlameEntryView| glob_matches(p@, e.item.file)))
            } else {
                Err("invalid glob pattern"@)
            },
            None => Ok(c),
        },
    }
}

proof fn lemma_keep_entries_len(es: Seq<BlameEntryView>, p: spec_fn(BlameEntryView) -> bool)
    ensures
        keep_entries(es, p).len() <= es.len(),
    decreases es.len(),
{
    if es.len() > 0 {
        lemma_keep_entries_len(es.drop_last(), p);
    }
}

/// Narrow a blame report as the `blame` command's options ask: keep the
/// entries with one of the tags, whose author contains the author text
/// (ignoring case), at least the minimum age old, and in files matching the
/// path glob; sort them; and recompute the total, stale count and average
/// age over what is left.
pub fn refine_blame(result: &mut BlameResult, opts: &BlameOptions) -> (res: Result<(), String>)
    ensures
        match refined_entries(entry_views(old(result).entries@), opts) {
            Err(e) => res matches Err(r) && r@ == e,
            Ok(kept) => {
                &&& res is Ok
                &&& entry_views(final(result).entries@) == sorted_entries(kept, opts.sort)
                &&& entry_views(final(result).entries@).to_multiset() == kept.to_multiset()
                &&& forall|i: int, j: int|
                    0 <= i < j < final(result).entries@.len() ==> blame_le(
                        opts.sort,
                        (#[trigger] final(result).entries@[i])@,
                        (#[trigger] final(result).entries@[j])@,
                    )
                &&& final(result).total == kept.len()
                &&& final(result).stale_count == count_stale(kept)
                &&& final(result).avg_age_days == if kept.len() > 0 {
                    sum_ages(kept) / (kept.len() as int)
                } else {
                    0
                }
                &&& final(result).stale_threshold_days == old(result).stale_threshold_days
            },
        },
{
    let ghost start = entry_views(result.entries@);
    let ghost tsv = named_tags(opts.tag@.map_values(|s: String| s@));
    let ghost a0 = if opts.tag@.len() > 0 {
        keep_entries(start, |e: BlameEntryView| tsv.contains(e.item.tag))
    } else {
        start
    };
    if opts.tag.len() > 0 {
        let ts = parse_tags(&opts.tag);
        let f = EntryFilter::Tags(ts);
        assert(entry_pred(f) =~= (|e: BlameEntryView| tsv.contains(e.item.tag)));
        retain_entries(&mut result.entries, &f);
    }
    assert(entry_views(result.entries@) == a0);
    match &opts.author {
        Some(a) => {
            let lower = to_lowercase(&chars_of(a.as_str()));
            let f = EntryFilter::Author(lower);
            assert(entry_pred(f) =~= (|e: BlameEntryView| contains(lowercase(e.blame.author), lowercase(a@))));
            retain_entries(&mut result.entries, &f);
        },
        None => {},
    }
    assert(entry_views(result.entries@) == after_tag_author(start, opts));
    match &opts.min_age {
        Some(m) => match parse_duration_days(m.as_str()) {
            Ok(d) => {
                let f = EntryFilter::MinAge(d);
                assert(entry_pred(f) =~= (|e: BlameEntryView| e.blame.age_days >= d as nat));
                retain_entries(&mut result.entries, &f);
            },
            Err(e) => return Err(e),
        },
        None => {},
    }
    match &opts.path {
        Some(p) => match compile_glob(p.as_str()) {
            Some(g) => {
                let f = EntryFilter::Glob(g);
                assert(entry_pred(f) =~= (|e: BlameEntryView| glob_matches(p@, e.item.file)));
                retain_entries(&mut result.entries, &f);
            },
            None => return Err(str_to_string("invalid glob pattern")),
        },
        None => {},
    }
    let ghost kept = entry_views(result.entries@);
    assert(refined_entries(start, opts) == Ok::<Seq<BlameEntryView>, Seq<char>>(kept));
    sort_entries(&mut result.entries, opts.sort);
    proof {
        lemma_views_multiset_sums(entry_views(result.entries@), kept);
    }
    summarize_entries(result);
    Ok(())
}

proof fn lemma_views_multiset_sums(a: Seq<BlameEntryView>, b: Seq<BlameEntryView>)
    requires
        a.to_multiset() == b.to_multiset(),
    ensures
        count_stale(a) == count_stale(b),
        sum_ages(a) == sum_ages(b),
        a.len() == b.len(),
    decreases a.len(),
{
    if a.len() == 0 {
        assert(b.to_multiset().len() == 0);
    } else {
        let x = a.last();
        assert(a =~= a.drop_last().push(x));
        assert(a.to_multiset() =~= a.drop_last().to_multiset().insert(x));
        assert(b.to_multiset().count(x) > 0);
        let j = choose|j: int| 0 <= j < b.len() && b[j] == x;
        let br = b.remove(j);
        assert(br.to_multiset() =~= b.to_multiset().remove(x));
        assert(a.drop_last().to_multiset() =~= a.to_multiset().remove(x));
        lemma_views_multiset_sums(a.drop_last(), br);
        lemma_remove_sums(b, j);
    }
}

proof fn lemma_remove_sums(b: Seq<BlameEntryView>, j: int)
    requires
        0 <= j < b.len(),
    ensures
        count_stale(b) == count_stale(b.remove(j)) + if b[j].stale { 1nat } else { 0nat },
        sum_ages(b) == sum_ages(b.remove(j)) + b[j].blame.age_days,
    decreases b.len(),
{
    if j == b.len() - 1 {
        assert(b.remove(j) =~= b.drop_last());
    } else {
        lemma_remove_sums(b.drop_last(), j);
        assert(b.remove(j).drop_last() =~= b.drop_last().remove(j));
        assert(b.remove(j).last() == b.last());
    }
}

/// Recompute the total, stale count and average age of a report from its
/// entries.
fn summarize_entries(result: &mut BlameResult)
    ensures
        final(result).entries@ == old(result).entries@,
        final(result).stale_threshold_days == old(result).stale_threshold_days,
        final(result).total == old(result).entries@.len(),
        final(result).stale_count == count_stale(entry_views(old(result).entries@)),
        final(result).avg_age_days == if old(result).entries@.len() > 0 {
            sum_ages(entry_views(old(result).entries@)) / (old(result).entries@.len() as int)
        } else {
            0
        },
{
    let ghost vs = entry_views(result.entries@);
    let n = result.entries.len();
    let mut stale: usize = 0;
    let mut sum: u128 = 0;
    let mut i: usize = 0;
    while i < n
        invariant
            n == result.entries@.len(),
            vs == entry_views(result.entries@),
            i <= n,
            stale == count_stale(vs.take(i as int)),
            stale <= i,
            sum == sum_ages(vs.take(i as int)),
            sum <= i * 0xffff_ffff_ffff_ffff,
        decreases n - i,
    {
        assert(vs.take(i + 1).drop_last() =~= vs.take(i as int));
        assert(vs.take(i + 1).last() == result.entries@[i as int]@);
        let age = result.entries[i].blame.age_days;
        if result.entries[i].stale {
            stale = stale + 1;
        }
        assert(sum + age <= (i + 1) * 0xffff_ffff_ffff_ffff) by (nonlinear_arith)
            requires
                sum <= i * 0xffff_ffff_ffff_ffff,
                age <= 0xffff_ffff_ffff_ffff,
        ;
        assert((i + 1) * 0xffff_ffff_ffff_ffff <= 0xffff_ffff_ffff_ffff_ffff_ffff_ffff_ffff) by (nonlinear_arith)
            requires
                i < 0x1_0000_0000_0000_0000,
        ;
        sum = sum + age as u128;
        i += 1;
    }
    assert(vs.take(n as int) =~= vs);
    result.total = n;
    result.stale_count = stale;
    if n > 0 {
        let avg = sum / (n as u128);
        assert(avg <= 0xffff_ffff_ffff_ffff) by (nonlinear_arith)
            requires
                avg == sum / (n as u128),
                sum <= n * 0xffff_ffff_ffff_ffff,
                n > 0,
        ;
        result.avg_age_days = avg as u64;
    } else {
        result.avg_age_days = 0;
    }
}

} // verus!
