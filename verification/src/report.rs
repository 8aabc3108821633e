//! Report data: statistics, age histogram and history of TODO counts.
//!
//! Running git (blame and history) is left to the caller, which hands over
//! the blame report and the history points.
use vstd::prelude::*;

use crate::date_utils::{iso8601_text, now_epoch_secs};
use crate::model::{
    clone_items, item_views, AgeBucket, BlameEntry, BlameResult, HistoryPoint, ReportResult,
    ReportSummary, ScanResult, StatsResult,
};
use crate::stats::{compute_stats, stats_of};
use crate::text::{chars_of, index_of_char, index_of_char_exec, lemma_index_of_char, string_from_chars, sub_chars, split_lines, split_lines_exec, views};

verus! {

// ───────────────────────── age histogram ─────────────────────────

/// Bucket of an age in days: <1 week, 1-4 weeks, 1-3 months, 3-6 months,
/// 6-12 months, >1 year.
pub open spec fn bucket_of(days: int) -> int {
    if days < 7 {
        0
    } else if days < 28 {
        1
    } else if days < 90 {
        2
    } else if days < 180 {
        3
    } else if days < 365 {
        4
    } else {
        5
    }
}

/// Label of bucket `k`.
pub open spec fn bucket_label(k: int) -> Seq<char> {
    if k == 0 {
        "<1 week"@
    } else if k == 1 {
        "1-4 weeks"@
    } else if k == 2 {
        "1-3 months"@
    } else if k == 3 {
        "3-6 months"@
    } else if k == 4 {
        "6-12 months"@
    } else {
        ">1 year"@
    }
}

/// Number of entries whose age falls in bucket `k`.
pub open spec fn count_in_bucket(entries: Seq<BlameEntry>, k: int) -> nat
    decreases entries.len(),
{
    if entries.len() == 0 {
        0
    } else {
        count_in_bucket(entries.drop_last(), k) + if bucket_of(entries.last().blame.age_days as int) == k {
            1nat
        } else {
            0nat
        }
    }
}

fn bucket_label_exec(k: usize) -> (res: String)
    requires
        k < 6,
    ensures
        res@ == bucket_label(k as int),
{
    let s = if k == 0 {
        "<1 week"
    } else if k == 1 {
        "1-4 weeks"
    } else if k == 2 {
        "1-3 months"
    } else if k == 3 {
        "3-6 months"
    } else if k == 4 {
        "6-12 months"
    } else {
        ">1 year"
    };
    string_from_chars(&chars_of(s))
}

fn buckets_with_counts(counts: &Vec<usize>) -> (res: Vec<AgeBucket>)
    requires
        counts@.len() == 6,
    ensures
        res@.len() == 6,
        forall|k: int| 0 <= k < 6 ==> (#[trigger] res@[k]).label@ == bucket_label(k) && res@[k].count == counts@[k],
{
    let mut res: Vec<AgeBucket> = Vec::new();
    let mut k: usize = 0;
    while k < 6
        invariant
            counts@.len() == 6,
            k <= 6,
            res@.len() == k,
            forall|j: int| 0 <= j < k ==> (#[trigger] res@[j]).label@ == bucket_label(j) && res@[j].count == counts@[j],
        decreases 6 - k,
    {
        res.push(AgeBucket { label: bucket_label_exec(k), count: counts[k] });
        k += 1;
    }
    res
}

/// Build the age histogram of a blame report: six buckets, in order, each
/// with the number of entries whose age falls in it.
pub fn build_age_histogram(blame_result: &BlameResult) -> (res: Vec<AgeBucket>)
    ensures
        res@.len() == 6,
        forall|k: int|
            0 <= k < 6 ==> (#[trigger] res@[k]).label@ == bucket_label(k) && res@[k].count == count_in_bucket(
                blame_result.entries@,
                k,
            ),
        res@[0].count + res@[1].count + res@[2].count + res@[3].count + res@[4].count + res@[5].count
            == blame_result.entries@.len(),
{
    let es = &blame_result.entries;
    let mut counts: Vec<usize> = vec![0, 0, 0, 0, 0, 0];
    let mut i: usize = 0;
    assert(es@.take(0) =~= Seq::<BlameEntry>::empty());
    while i < es.len()
        invariant
            i <= es@.len(),
            counts@.len() == 6,
            forall|k: int| 0 <= k < 6 ==> #[trigger] counts@[k] == count_in_bucket(es@.take(i as int), k),
            forall|k: int| 0 <= k < 6 ==> #[trigger] counts@[k] <= i,
        decreases es@.len() - i,
    {
        assert(es@.take(i + 1).drop_last() =~= es@.take(i as int));
        let days = es[i].blame.age_days;
        let idx: usize = if days < 7 {
            0
        } else if days < 28 {
            1
        } else if days < 90 {
            2
        } else if days < 180 {
            3
        } else if days < 365 {
            4
        } else {
            5
        };
        let c = counts[idx];
        counts.set(idx, c + 1);
        i += 1;
    }
    assert(es@.take(es@.len() as int) =~= es@);
    proof {
        lemma_histogram_total(es@);
    }
    let res = buckets_with_counts(&counts);
    assert(res@[0].count == count_in_bucket(es@, 0) && res@[1].count == count_in_bucket(es@, 1) && res@[2].count
        == count_in_bucket(es@, 2));
    assert(res@[3].count == count_in_bucket(es@, 3) && res@[4].count == count_in_bucket(es@, 4) && res@[5].count
        == count_in_bucket(es@, 5));
    res
}

/// The histogram used when blame data is unavailable: six empty buckets.
pub fn default_age_histogram() -> (res: Vec<AgeBucket>)
    ensures
        res@.len() == 6,
        forall|k: int| 0 <= k < 6 ==> (#[trigger] res@[k]).label@ == bucket_label(k) && res@[k].count == 0,
{
    let counts: Vec<usize> = vec![0, 0, 0, 0, 0, 0];
    buckets_with_counts(&counts)
}

/// Every blamed item falls in exactly one age bucket: the six bucket
/// counts add up to the number of entries.
pub proof fn lemma_histogram_total(entries: Seq<BlameEntry>)
    ensures
        count_in_bucket(entries, 0) + count_in_bucket(entries, 1) + count_in_bucket(entries, 2) + count_in_bucket(
            entries,
            3,
        ) + count_in_bucket(entries, 4) + count_in_bucket(entries, 5) == entries.len(),
    decreases entries.len(),
{
    if entries.len() > 0 {
        lemma_histogram_total(entries.drop_last());
    }
}

// ───────────────────────── history ─────────────────────────

/// A line of `git log --format="%H %aI"`: the text before the first space
/// and the text after it.
pub open spec fn log_line_fields(line: Seq<char>) -> Option<(Seq<char>, Seq<char>)> {
    match index_of_char(line, ' ') {
        Some(k) => Some((line.take(k as int), line.skip(k as int + 1))),
        None => None,
    }
}

/// (hash, date) of each line of a commit log that has a space, in order.
pub open spec fn log_commits(lines: Seq<Seq<char>>) -> Seq<(Seq<char>, Seq<char>)>
    decreases lines.len(),
{
    if lines.len() == 0 {
        seq![]
    } else {
        let rest = log_commits(lines.drop_last());
        match log_line_fields(lines.last()) {
            Some(f) => rest.push(f),
            None => rest,
        }
    }
}

pub open spec fn commit_pairs_view(v: Seq<(String, String)>) -> Seq<(Seq<char>, Seq<char>)> {
    v.map_values(|p: (String, String)| (p.0@, p.1@))
}

/// Parse `git log --format="%H %aI"` output into (hash, date) pairs.
pub fn parse_commit_log(output: &str) -> (res: Vec<(String, String)>)
    ensures
        commit_pairs_view(res@) == log_commits(split_lines(output@)),
{
    let cs = chars_of(output);
    let lines = split_lines_exec(&cs);
    let ghost ls = views(lines@);
    let mut res: Vec<(String, String)> = Vec::new();
    let mut i: usize = 0;
    assert(ls.take(0) =~= Seq::<Seq<char>>::empty());
    while i < lines.len()
        invariant
            ls == views(lines@),
            ls.len() == lines@.len(),
            i <= lines@.len(),
            commit_pairs_view(res@) == log_commits(ls.take(i as int)),
        decreases lines@.len() - i,
    {
        assert(ls.take(i + 1).drop_last() =~= ls.take(i as int));
        assert(ls.take(i + 1).last() == lines@[i as int]@);
        let l = &lines[i];
        proof {
            lemma_index_of_char(l@, ' ');
        }
        match index_of_char_exec(l, ' ') {
            Some(k) => {
                let n = l.len();
                assert(k < n);
                let h = sub_chars(l, 0, k);
                let d = sub_chars(l, k + 1, n);
                assert(h@ =~= l@.take(k as int));
                assert(d@ =~= l@.skip(k as int + 1));
                let ghost old = res@;
                res.push((string_from_chars(&h), string_from_chars(&d)));
                assert(commit_pairs_view(res@) =~= commit_pairs_view(old).push((h@, d@)));
            },
            None => {},
        }
        i += 1;
    }
    assert(ls.take(lines@.len() as int) =~= ls);
    res
}

/// The date part of an ISO-8601 date-time: the text before the first `T`.
pub open spec fn date_part(date: Seq<char>) -> Seq<char> {
    match index_of_char(date, 'T') {
        Some(k) => date.take(k as int),
        None => date,
    }
}

/// The first eight characters of a commit hash (all of a shorter one).
pub open spec fn short_hash(hash: Seq<char>) -> Seq<char> {
    if hash.len() <= 8 {
        hash
    } else {
        hash.take(8)
    }
}

/// The history point of a commit with `count` TODOs.
pub fn history_point(hash: &str, date: &str, count: usize) -> (res: HistoryPoint)
    ensures
        res.commit@ == short_hash(hash@),
        res.date@ == date_part(date@),
        res.count == count,
{
    let h = chars_of(hash);
    let n = if h.len() <= 8 {
        h.len()
    } else {
        8
    };
    let sh = sub_chars(&h, 0, n);
    assert(sh@ =~= short_hash(hash@));
    let d = chars_of(date);
    proof {
        lemma_index_of_char(d@, 'T');
    }
    let dp = match index_of_char_exec(&d, 'T') {
        Some(k) => sub_chars(&d, 0, k),
        None => sub_chars(&d, 0, d.len()),
    };
    assert(dp@ =~= date_part(date@));
    HistoryPoint { commit: string_from_chars(&sh), date: string_from_chars(&dp), count }
}

// ───────────────────────── the report ─────────────────────────

/// `res` is the report of `scan` given its statistics' inputs, the blame
/// report (if git could provide one), the history points and the time stamp.
pub open spec fn report_of(
    scan: &ScanResult,
    blame: Option<BlameResult>,
    history: Seq<HistoryPoint>,
    generated_at: Seq<char>,
    res: ReportResult,
) -> bool {
    &&& res.generated_at@ == generated_at
    &&& res.summary.total_items == scan.items@.len()
    &&& res.summary.files_scanned == scan.files_scanned
    &&& res.summary.urgent_count == res.priority_counts.urgent
    &&& res.summary.high_count == res.priority_counts.high
    &&& stats_of(
        item_views(scan.items@),
        None,
        StatsResult {
            total_items: res.summary.total_items,
            total_files: res.summary.total_files,
            tag_counts: res.tag_counts,
            priority_counts: res.priority_counts,
            author_counts: res.author_counts,
            hotspot_files: res.hotspot_files,
            trend: None,
        },
    )
    &&& match blame {
        Some(b) => {
            &&& res.summary.stale_count == b.stale_count
            &&& res.summary.avg_age_days == b.avg_age_days
            &&& res.age_histogram@.len() == 6
            &&& forall|k: int|
                0 <= k < 6 ==> (#[trigger] res.age_histogram@[k]).label@ == bucket_label(k)
                    && res.age_histogram@[k].count == count_in_bucket(b.entries@, k)
        },
        None => {
            &&& res.summary.stale_count == 0
            &&& res.summary.avg_age_days == 0
            &&& res.age_histogram@.len() == 6
            &&& forall|k: int|
                0 <= k < 6 ==> (#[trigger] res.age_histogram@[k]).label@ == bucket_label(k)
                    && res.age_histogram@[k].count == 0
        },
    }
    &&& res.history@ == history
    &&& item_views(res.items@) == item_views(scan.items@)
}

/// Assemble the report of `scan`, stamped `generated_at`.
pub fn build_report(
    scan: &ScanResult,
    blame: Option<&BlameResult>,
    history: Vec<HistoryPoint>,
    generated_at: String,
) -> (res: ReportResult)
    ensures
        report_of(
            scan,
            match blame {
                Some(b) => Some(*b),
                None => None,
            },
            history@,
            generated_at@,
            res,
        ),
{
    let stats = compute_stats(scan, None);
    let (age_histogram, stale_count, avg_age_days) = match blame {
        Some(b) => (build_age_histogram(b), b.stale_count, b.avg_age_days),
        None => (default_age_histogram(), 0, 0),
    };
    let summary = ReportSummary {
        total_items: stats.total_items,
        total_files: stats.total_files,
        files_scanned: scan.files_scanned,
        urgent_count: stats.priority_counts.urgent,
        high_count: stats.priority_counts.high,
        stale_count,
        avg_age_days,
    };
    let res = ReportResult {
        generated_at,
        summary,
        tag_counts: stats.tag_counts,
        priority_counts: stats.priority_counts,
        author_counts: stats.author_counts,
        hotspot_files: stats.hotspot_files,
        history,
        age_histogram,
        items: clone_items(&scan.items),
    };
    res
}

/// Compute the report of `scan`, stamped with the current time by the system clock.
pub fn compute_report(scan: &ScanResult, blame: Option<&BlameResult>, history: Vec<HistoryPoint>) -> (res: ReportResult)
    ensures
        exists|secs: u64|
            report_of(
                scan,
                match blame {
                    Some(b) => Some(*b),
                    None => None,
                },
                history@,
                #[trigger] iso8601_text(secs as nat),
                res,
            ),
{
    let secs = now_epoch_secs();
    let stamp = crate::date_utils::format_iso8601_utc(secs);
    build_report(scan, blame, history, stamp)
}

} // verus!
