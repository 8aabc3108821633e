//! Blame information for TODO items: parsing `git blame --porcelain` output,
//! dating commits and building blame reports.
//!
//! Running git is left to the caller, which hands over the parsed blame of each
//! file it could blame.
use std::collections::HashMap;
use vstd::prelude::*;

use crate::date_utils::{civil_from_days, days_to_ymd, now_epoch_secs};
use crate::model::{BlameEntry, BlameInfo, BlameResult, ScanResult, TodoItem, TodoItemView};
use crate::sorting::{
    lemma_lex_antisym, lemma_lex_total, lemma_lex_trans, lemma_stable_sort_map,
    lemma_stable_sort_multiset, lex_le, lex_le_exec, sort_by_key, sorted_by_key,
    stable_sort, SortKey,
};
use crate::text::{
    chars_eq, chars_of, is_whitespace, parse_i64_exec, parse_i64_spec, parse_unsigned,
    parse_unsigned_exec, push_zero_padded, split_lines, split_lines_exec, split_whitespace_chars,
    starts_with, starts_with_exec, string_from_chars, sub_chars, trim, trim_chars, trim_end, trim_start, views,
    words, zero_padded, decimal, lemma_decimal_value, is_ascii_digit,
};

verus! {

broadcast use vstd::std_specs::hash::group_hash_axioms;

/// Blame data of one line, as `git blame --porcelain` reports it.
#[derive(Debug, Clone)]
pub struct RawBlameData {
    pub author: String,
    pub email: String,
    pub timestamp: i64,
    pub commit: String,
}

/// Model of [`RawBlameData`].
pub struct RawBlameView {
    pub author: Seq<char>,
    pub email: Seq<char>,
    pub timestamp: i64,
    pub commit: Seq<char>,
}

impl View for RawBlameData {
    type V = RawBlameView;

    open spec fn view(&self) -> RawBlameView {
        RawBlameView {
            author: self.author@,
            email: self.email@,
            timestamp: self.timestamp,
            commit: self.commit@,
        }
    }
}

// ───────────────────────── porcelain parsing ─────────────────────────

/// Parser state while reading porcelain output line by line.
pub struct PorcelainState {
    pub line: Option<usize>,
    pub commit: Seq<char>,
    pub author: Seq<char>,
    pub email: Seq<char>,
    pub timestamp: i64,
    pub entries: Map<usize, RawBlameView>,
}

pub open spec fn porcelain_start() -> PorcelainState {
    PorcelainState {
        line: None,
        commit: seq![],
        author: seq![],
        email: seq![],
        timestamp: 0,
        entries: Map::empty(),
    }
}

/// A header line starts with a 40-digit hexadecimal commit hash.
pub open spec fn is_commit_header(l: Seq<char>) -> bool {
    l.len() >= 40 && forall|i: int| 0 <= i < 40 ==> crate::text::is_ascii_hexdigit(#[trigger] l[i])
}

pub open spec fn author_prefix() -> Seq<char> {
    seq!['a', 'u', 't', 'h', 'o', 'r', ' ']
}

pub open spec fn author_mail_prefix() -> Seq<char> {
    seq!['a', 'u', 't', 'h', 'o', 'r', '-', 'm', 'a', 'i', 'l', ' ']
}

pub open spec fn author_time_prefix() -> Seq<char> {
    seq!['a', 'u', 't', 'h', 'o', 'r', '-', 't', 'i', 'm', 'e', ' ']
}

pub open spec fn is_angle(c: char) -> bool {
    c == '<' || c == '>'
}

/// Drop leading `<` and `>` characters.
pub open spec fn trim_angles_start(s: Seq<char>) -> Seq<char>
    decreases s.len(),
{
    if s.len() > 0 && is_angle(s[0]) {
        trim_angles_start(s.drop_first())
    } else {
        s
    }
}

/// Drop trailing `<` and `>` characters.
pub open spec fn trim_angles_end(s: Seq<char>) -> Seq<char>
    decreases s.len(),
{
    if s.len() > 0 && is_angle(s.last()) {
        trim_angles_end(s.drop_last())
    } else {
        s
    }
}

/// `trim_matches(|c| c == '<' || c == '>')`.
pub open spec fn trim_angles(s: Seq<char>) -> Seq<char> {
    trim_angles_end(trim_angles_start(s))
}

/// The effect of one line of porcelain output.
pub open spec fn porcelain_step(st: PorcelainState, l: Seq<char>) -> PorcelainState {
    if is_commit_header(l) {
        let parts = words(l);
        if parts.len() >= 3 {
            PorcelainState {
                commit: l.take(8),
                line: match parse_unsigned(parts[2], usize::MAX as nat) {
                    Some(n) => Some(n as usize),
                    None => st.line,
                },
                ..st
            }
        } else {
            st
        }
    } else if starts_with(l, author_prefix()) {
        PorcelainState { author: l.skip(7), ..st }
    } else if starts_with(l, author_mail_prefix()) {
        PorcelainState { email: trim_angles(l.skip(12)), ..st }
    } else if starts_with(l, author_time_prefix()) {
        PorcelainState {
            timestamp: match parse_i64_spec(l.skip(12)) {
                Some(t) => t as i64,
                None => 0,
            },
            ..st
        }
    } else if l.len() > 0 && l[0] == '\t' {
        match st.line {
            Some(n) => PorcelainState {
                line: None,
                entries: st.entries.insert(
                    n,
                    RawBlameView {
                        author: st.author,
                        email: st.email,
                        timestamp: st.timestamp,
                        commit: st.commit,
                    },
                ),
                ..st
            },
            None => st,
        }
    } else {
        st
    }
}

/// The parser state after reading `lines` in order.
pub open spec fn porcelain_run(lines: Seq<Seq<char>>) -> PorcelainState
    decreases lines.len(),
{
    if lines.len() == 0 {
        porcelain_start()
    } else {
        porcelain_step(porcelain_run(lines.drop_last()), lines.last())
    }
}

/// Line number → blame data of a whole porcelain output.
pub open spec fn porcelain_entries(output: Seq<char>) -> Map<usize, RawBlameView> {
    porcelain_run(split_lines(output)).entries
}

fn is_commit_header_exec(l: &[char]) -> (res: bool)
    ensures
        res == is_commit_header(l@),
{
    if l.len() < 40 {
        return false;
    }
    let mut i: usize = 0;
    while i < 40
        invariant
            i <= 40 <= l@.len(),
            forall|j: int| 0 <= j < i ==> crate::text::is_ascii_hexdigit(#[trigger] l@[j]),
        decreases 40 - i,
    {
        let c = l[i];
        if !(('0' <= c && c <= '9') || ('a' <= c && c <= 'f') || ('A' <= c && c <= 'F')) {
            return false;
        }
        i += 1;
    }
    true
}

fn trim_angles_exec(s: &[char]) -> (res: Vec<char>)
    ensures
        res@ == trim_angles(s@),
{
    let mut a: usize = 0;
    assert(s@.skip(0) =~= s@);
    while a < s.len() && (s[a] == '<' || s[a] == '>')
        invariant
            a <= s@.len(),
            trim_angles_start(s@) == trim_angles_start(s@.skip(a as int)),
        decreases s@.len() - a,
    {
        assert(s@.skip(a as int).drop_first() =~= s@.skip(a + 1));
        a += 1;
    }
    let t = sub_chars(s, a, s.len());
    assert(t@ =~= s@.skip(a as int));
    let mut b: usize = t.len();
    assert(t@.take(b as int) =~= t@);
    while b > 0 && (t[b - 1] == '<' || t[b - 1] == '>')
        invariant
            b <= t@.len(),
            trim_angles_end(t@) == trim_angles_end(t@.take(b as int)),
        decreases b,
    {
        assert(t@.take(b as int).drop_last() =~= t@.take(b - 1));
        b -= 1;
    }
    sub_chars(&t, 0, b)
}

/// Parse `git blame --porcelain` output into a map from line number to blame data.
///
/// A header line (40 hex digits, then the line numbers in the blamed commit and in the file)
/// starts an entry; `author`, `author-mail` (angle brackets trimmed) and
/// `author-time` lines fill it; the tab-prefixed content line completes it.
pub fn parse_porcelain_blame(output: &str) -> (res: HashMap<usize, RawBlameData>)
    ensures
        forall|k: usize| #[trigger] res@.contains_key(k) <==> porcelain_entries(output@).contains_key(k),
        forall|k: usize| #[trigger] res@.contains_key(k) ==> res@[k]@ == porcelain_entries(output@)[k],
{
    let text = chars_of(output);
    let lines = split_lines_exec(&text);
    let ghost ls = views(lines@);
    let mut result: HashMap<usize, RawBlameData> = HashMap::new();
    let mut current_line: Option<usize> = None;
    let mut current_commit: Vec<char> = Vec::new();
    let mut current_author: Vec<char> = Vec::new();
    let mut current_email: Vec<char> = Vec::new();
    let mut current_timestamp: i64 = 0;
    let author_p: Vec<char> = vec!['a', 'u', 't', 'h', 'o', 'r', ' '];
    let mail_p: Vec<char> = vec!['a', 'u', 't', 'h', 'o', 'r', '-', 'm', 'a', 'i', 'l', ' '];
    let time_p: Vec<char> = vec!['a', 'u', 't', 'h', 'o', 'r', '-', 't', 'i', 'm', 'e', ' '];
    assert(author_p@ =~= author_prefix());
    assert(mail_p@ =~= author_mail_prefix());
    assert(time_p@ =~= author_time_prefix());
    let mut i: usize = 0;
    assert(ls.take(0) =~= Seq::<Seq<char>>::empty());
    while i < lines.len()
        invariant
            ls == views(lines@),
            ls.len() == lines@.len(),
            i <= lines@.len(),
            author_p@ == author_prefix(),
            mail_p@ == author_mail_prefix(),
            time_p@ == author_time_prefix(),
            ({
                let st = porcelain_run(ls.take(i as int));
                &&& current_line == st.line
                &&& current_commit@ == st.commit
                &&& current_author@ == st.author
                &&& current_email@ == st.email
                &&& current_timestamp == st.timestamp
                &&& forall|k: usize| #[trigger] result@.contains_key(k) <==> st.entries.contains_key(k)
                &&& forall|k: usize| #[trigger] result@.contains_key(k) ==> result@[k]@ == st.entries[k]
            }),
        decreases lines@.len() - i,
    {
        let l: &Vec<char> = &lines[i];
        assert(ls.take(i + 1).drop_last() =~= ls.take(i as int));
        assert(ls.take(i + 1).last() == l@);
        if is_commit_header_exec(l) {
            let parts = split_whitespace_chars(l);
            assert(views(parts@).len() == parts@.len());
            if parts.len() >= 3 {
                assert(views(parts@)[2] == parts@[2]@);
                current_commit = sub_chars(l, 0, 8);
                match parse_unsigned_exec(&parts[2], usize::MAX as u64) {
                    Some(ln) => {
                        current_line = Some(ln as usize);
                    },
                    None => {},
                }
            }
        } else if starts_with_exec(l, &author_p) {
            current_author = sub_chars(l, 7, l.len());
            assert(current_author@ =~= l@.skip(7));
        } else if starts_with_exec(l, &mail_p) {
            let rest = sub_chars(l, 12, l.len());
            assert(rest@ =~= l@.skip(12));
            current_email = trim_angles_exec(&rest);
        } else if starts_with_exec(l, &time_p) {
            let rest = sub_chars(l, 12, l.len());
            assert(rest@ =~= l@.skip(12));
            current_timestamp = match parse_i64_exec(&rest) {
                Some(t) => t,
                None => 0,
            };
        } else if l.len() > 0 && l[0] == '\t' {
            match current_line {
                Some(ln) => {
                    let data = RawBlameData {
                        author: string_from_chars(&current_author),
                        email: string_from_chars(&current_email),
                        timestamp: current_timestamp,
                        commit: string_from_chars(&current_commit),
                    };
                    result.insert(ln, data);
                    current_line = None;
                },
                None => {},
            }
        }
        i += 1;
    }
    assert(ls.take(lines@.len() as int) =~= ls);
    result
}

// ───────────────────────── dates and ages ─────────────────────────

/// `YYYY-MM-DD` of the civil date `days` days after 1970-01-01.
pub open spec fn civil_date_text(days: int) -> Seq<char> {
    let ymd = civil_from_days(days);
    zero_padded(ymd.0, 4) + seq!['-'] + zero_padded(ymd.1, 2) + seq!['-'] + zero_padded(ymd.2, 2)
}

/// `YYYY-MM-DD` of the UTC date of a Unix timestamp: the day holding that
/// instant (whole days since the epoch, rounded down).
pub open spec fn timestamp_date_text(timestamp: int) -> Seq<char> {
    civil_date_text(timestamp / 86400)
}

/// Convert a unix timestamp to a `YYYY-MM-DD` date string.
pub fn timestamp_to_date_string(timestamp: i64) -> (res: String)
    ensures
        res@ == timestamp_date_text(timestamp as int),
{
    let t: i128 = timestamp as i128;
    let days: i128 = if t >= 0 {
        t / 86400
    } else {
        -((-t + 86399) / 86400)
    };
    proof {
        if t < 0 {
            let q = (-t + 86399) / 86400;
            assert(-q == t / 86400) by (nonlinear_arith)
                requires
                    t < 0,
                    q == (-t + 86399) / 86400,
            {
                let r = t / 86400;
                assert(t == r * 86400 + t % 86400);
                assert(0 <= t % 86400 < 86400);
                assert(-t + 86399 == (-r) * 86400 + (86399 - t % 86400));
                assert(0 <= 86399 - t % 86400 < 86400);
            }
        }
    }
    let (year, month, day) = days_to_ymd(days as i64);
    let mut out: Vec<char> = Vec::new();
    push_zero_padded(&mut out, year, 4);
    out.push('-');
    push_zero_padded(&mut out, month as i64, 2);
    out.push('-');
    push_zero_padded(&mut out, day as i64, 2);
    assert(out@ =~= timestamp_date_text(timestamp as int));
    string_from_chars(&out)
}

/// Whole days from `timestamp` to `now` (zero when `timestamp` is in the future).
pub open spec fn age_days(now: int, timestamp: int) -> int {
    if now - timestamp < 0 {
        0
    } else {
        (now - timestamp) / 86400
    }
}

/// Age in days of `timestamp` at the instant `now_secs` (seconds since the epoch).
pub fn age_days_at(now_secs: u64, timestamp: i64) -> (res: u64)
    ensures
        res as int == age_days(now_secs as int, timestamp as int),
{
    let diff: i128 = now_secs as i128 - timestamp as i128;
    if diff < 0 {
        return 0;
    }
    (diff / 86400) as u64
}

/// Compute age in days from a unix timestamp to now (by the system clock).
pub fn compute_age_days(timestamp: i64) -> (res: u64)
    ensures
        exists|now: u64| res as int == age_days(now as int, timestamp as int),
{
    let now = now_epoch_secs();
    age_days_at(now, timestamp)
}

/// `s` with the suffix `d` removed, if present.
pub open spec fn strip_day_suffix(s: Seq<char>) -> Seq<char> {
    if s.len() > 0 && s.last() == 'd' {
        s.drop_last()
    } else {
        s
    }
}

/// Days of a duration written as `N` or `Nd` (surrounding white space ignored).
pub open spec fn duration_days(s: Seq<char>) -> Option<nat> {
    parse_unsigned(strip_day_suffix(trim(s)), u64::MAX as nat)
}

/// `invalid duration: <trimmed text>`.
pub open spec fn duration_error(s: Seq<char>) -> Seq<char> {
    seq!['i', 'n', 'v', 'a', 'l', 'i', 'd', ' ', 'd', 'u', 'r', 'a', 't', 'i', 'o', 'n', ':', ' ']
        + trim(s)
}

/// A duration written as its number of days, with or without the `d`
/// suffix, reads back as that number.
pub proof fn lemma_duration_roundtrip(n: nat)
    requires
        n <= u64::MAX,
    ensures
        duration_days(decimal(n)) == Some(n),
        duration_days(decimal(n).push('d')) == Some(n),
{
    lemma_decimal_value(n);
    let t = decimal(n);
    assert(is_ascii_digit(t[0]));
    assert(is_ascii_digit(t[t.len() - 1]));
    assert(t.last() == t[t.len() - 1]);
    assert(trim_start(t) == t);
    assert(trim_end(t) == t);
    assert(t[0] != '+');
    assert(strip_day_suffix(t) == t);
    let u = t.push('d');
    assert(u[0] == t[0]);
    assert(trim_start(u) == u);
    assert(trim_end(u) == u);
    assert(u.drop_last() =~= t);
}

/// Parse a duration string like `"90d"` or `"365"` into days.
pub fn parse_duration_days(s: &str) -> (res: Result<u64, String>)
    ensures
        res matches Ok(n) ==> duration_days(s@) == Some(n as nat),
        res matches Err(e) ==> duration_days(s@) is None && e@ == duration_error(s@),
{
    let cs = chars_of(s);
    let t = trim_chars(&cs);
    let numeric = if t.len() > 0 && t[t.len() - 1] == 'd' {
        sub_chars(&t, 0, t.len() - 1)
    } else {
        sub_chars(&t, 0, t.len())
    };
    assert(numeric@ =~= strip_day_suffix(trim(s@)));
    match parse_unsigned_exec(&numeric, u64::MAX) {
        Some(n) => Ok(n),
        None => {
            let mut msg: Vec<char> = vec![
                'i', 'n', 'v', 'a', 'l', 'i', 'd', ' ', 'd', 'u', 'r', 'a', 't', 'i', 'o', 'n', ':', ' ',
            ];
            crate::text::push_all(&mut msg, &t);
            assert(msg@ =~= duration_error(s@));
            Err(string_from_chars(&msg))
        },
    }
}


// ───────────────────────── blame reports ─────────────────────────

/// The blame of one file that git could blame: line number → blame data.
#[derive(Debug)]
pub struct FileBlame {
    pub file: String,
    pub lines: HashMap<usize, RawBlameData>,
}

/// Model of [`BlameInfo`].
pub struct BlameInfoView {
    pub author: Seq<char>,
    pub email: Seq<char>,
    pub date: Seq<char>,
    pub age_days: int,
    pub commit: Seq<char>,
}

impl View for BlameInfo {
    type V = BlameInfoView;

    open spec fn view(&self) -> BlameInfoView {
        BlameInfoView {
            author: self.author@,
            email: self.email@,
            date: self.date@,
            age_days: self.age_days as int,
            commit: self.commit@,
        }
    }
}

/// Model of [`BlameEntry`].
pub struct BlameEntryView {
    pub item: TodoItemView,
    pub blame: BlameInfoView,
    pub stale: bool,
}

impl View for BlameEntry {
    type V = BlameEntryView;

    open spec fn view(&self) -> BlameEntryView {
        BlameEntryView { item: self.item@, blame: self.blame@, stale: self.stale }
    }
}

pub open spec fn entry_views(es: Seq<BlameEntry>) -> Seq<BlameEntryView> {
    es.map_values(|e: BlameEntry| e@)
}

/// The blame of file `f`: that of the first entry of `blames` for it.
pub open spec fn blame_of_file(blames: Seq<FileBlame>, f: Seq<char>) -> Option<Map<usize, RawBlameData>>
    decreases blames.len(),
{
    if blames.len() == 0 {
        None
    } else if blames[0].file@ == f {
        Some(blames[0].lines@)
    } else {
        blame_of_file(blames.drop_first(), f)
    }
}

/// Blame information of a line: from its blame data, or `Unknown` without any.
pub open spec fn info_for_line(raw: Option<RawBlameView>, now: int) -> BlameInfoView {
    match raw {
        Some(r) => BlameInfoView {
            author: r.author,
            email: r.email,
            date: timestamp_date_text(r.timestamp as int),
            age_days: age_days(now, r.timestamp as int),
            commit: r.commit,
        },
        None => BlameInfoView {
            author: seq!['U', 'n', 'k', 'n', 'o', 'w', 'n'],
            email: seq![],
            date: seq![],
            age_days: 0,
            commit: seq![],
        },
    }
}

/// The blame entry of an item whose file has the blame `m`.
pub open spec fn entry_for(v: TodoItemView, m: Map<usize, RawBlameData>, now: int, threshold: int) -> BlameEntryView {
    let info = info_for_line(
        if m.contains_key(v.line) {
            Some(m[v.line]@)
        } else {
            None
        },
        now,
    );
    BlameEntryView { item: v, blame: info, stale: info.age_days >= threshold }
}

/// Blame entries of the items, in scan order; items of files without blame are skipped.
pub open spec fn blame_candidates(items: Seq<TodoItemView>, blames: Seq<FileBlame>, now: int, threshold: int) -> Seq<BlameEntryView>
    decreases items.len(),
{
    if items.len() == 0 {
        seq![]
    } else {
        let rest = blame_candidates(items.drop_last(), blames, now, threshold);
        match blame_of_file(blames, items.last().file) {
            Some(m) => rest.push(entry_for(items.last(), m, now, threshold)),
            None => rest,
        }
    }
}

/// Number of stale entries.
pub open spec fn count_stale(es: Seq<BlameEntryView>) -> nat
    decreases es.len(),
{
    if es.len() == 0 {
        0
    } else {
        count_stale(es.drop_last()) + if es.last().stale {
            1nat
        } else {
            0nat
        }
    }
}

/// Sum of the ages of the entries.
pub open spec fn sum_ages(es: Seq<BlameEntryView>) -> int
    decreases es.len(),
{
    if es.len() == 0 {
        0
    } else {
        sum_ages(es.drop_last()) + es.last().blame.age_days
    }
}

impl SortKey for BlameEntry {
    /// By file path, then by line.
    open spec fn key_le(&self, other: &Self) -> bool {
        if self.item.file@ == other.item.file@ {
            self.item.line <= other.item.line
        } else {
            lex_le(self.item.file@, other.item.file@)
        }
    }

    fn key_le_exec(&self, other: &Self) -> (res: bool) {
        if self.item.file == other.item.file {
            self.item.line <= other.item.line
        } else {
            let a = chars_of(self.item.file.as_str());
            let b = chars_of(other.item.file.as_str());
            lex_le_exec(&a, &b)
        }
    }

    proof fn lemma_total(a: &Self, b: &Self) {
        lemma_lex_total(a.item.file@, b.item.file@);
    }

    proof fn lemma_trans(a: &Self, b: &Self, c: &Self) {
        if a.item.file@ != b.item.file@ && b.item.file@ != c.item.file@ {
            lemma_lex_trans(a.item.file@, b.item.file@, c.item.file@);
            if a.item.file@ == c.item.file@ {
                lemma_lex_antisym(a.item.file@, b.item.file@);
            }
        }
    }
}

fn find_file_blame<'a>(blames: &'a Vec<FileBlame>, f: &String) -> (res: Option<&'a HashMap<usize, RawBlameData>>)
    ensures
        match res {
            Some(m) => blame_of_file(blames@, f@) == Some(m@),
            None => blame_of_file(blames@, f@) is None,
        },
{
    let mut i: usize = 0;
    assert(blames@.skip(0) =~= blames@);
    while i < blames.len()
        invariant
            i <= blames@.len(),
            blame_of_file(blames@, f@) == blame_of_file(blames@.skip(i as int), f@),
        decreases blames@.len() - i,
    {
        assert(blames@.skip(i as int)[0] == blames@[i as int]);
        if blames[i].file == *f {
            return Some(&blames[i].lines);
        }
        assert(blames@.skip(i as int).drop_first() =~= blames@.skip(i + 1));
        i += 1;
    }
    None
}

fn blame_info_for(raw: Option<&RawBlameData>, now_secs: u64) -> (res: BlameInfo)
    ensures
        res@ == info_for_line(
            match raw {
                Some(r) => Some(r@),
                None => None,
            },
            now_secs as int,
        ),
{
    match raw {
        Some(r) => BlameInfo {
            author: r.author.clone(),
            email: r.email.clone(),
            date: timestamp_to_date_string(r.timestamp),
            age_days: age_days_at(now_secs, r.timestamp),
            commit: r.commit.clone(),
        },
        None => {
            let unknown: Vec<char> = vec!['U', 'n', 'k', 'n', 'o', 'w', 'n'];
            let empty: Vec<char> = Vec::new();
            BlameInfo {
                author: string_from_chars(&unknown),
                email: string_from_chars(&empty),
                date: string_from_chars(&empty),
                age_days: 0,
                commit: string_from_chars(&empty),
            }
        },
    }
}

/// `res` is the blame report of `items` at the instant `now`: its entries are
/// the candidates, sorted by file then line, with their count, stale count and
/// mean age.
/// Order of blame entries by location: file path, then line.
pub open spec fn entry_location_le(a: BlameEntryView, b: BlameEntryView) -> bool {
    if a.item.file == b.item.file {
        a.item.line <= b.item.line
    } else {
        lex_le(a.item.file, b.item.file)
    }
}

pub open spec fn blame_report_of(items: Seq<TodoItemView>, blames: Seq<FileBlame>, now: int, threshold: u64, res: BlameResult) -> bool {
    let c = blame_candidates(items, blames, now, threshold as int);
    &&& entry_views(res.entries@) == stable_sort(c, |a: BlameEntryView, b: BlameEntryView| entry_location_le(a, b))
    &&& sorted_by_key(res.entries@)
    &&& res.total == c.len()
    &&& res.stale_count == count_stale(c)
    &&& res.avg_age_days == if c.len() > 0 {
        sum_ages(c) / (c.len() as int)
    } else {
        0
    }
    &&& res.stale_threshold_days == threshold
}

/// Build the blame report of the items of `scan` at the instant `now_secs`.
///
/// Items of files that have no entry in `blames` (git could not blame them)
/// are left out; an item whose line has no blame data is attributed to
/// `Unknown`.  An entry is stale when its age reaches `stale_threshold_days`.
/// Entries are sorted by file, then line.
pub fn build_blame(scan: &ScanResult, blames: &Vec<FileBlame>, now_secs: u64, stale_threshold_days: u64) -> (res: BlameResult)
    ensures
        blame_report_of(crate::model::item_views(scan.items@), blames@, now_secs as int, stale_threshold_days, res),
{
    let ghost items = crate::model::item_views(scan.items@);
    let ghost now = now_secs as int;
    let ghost thr = stale_threshold_days as int;
    let mut entries: Vec<BlameEntry> = Vec::new();
    let mut stale_count: usize = 0;
    let mut sum: u128 = 0;
    let mut i: usize = 0;
    assert(items.take(0) =~= Seq::<TodoItemView>::empty());
    while i < scan.items.len()
        invariant
            items == crate::model::item_views(scan.items@),
            now == now_secs as int,
            thr == stale_threshold_days as int,
            i <= scan.items@.len(),
            entry_views(entries@) == blame_candidates(items.take(i as int), blames@, now, thr),
            entries@.len() <= i,
            stale_count == count_stale(entry_views(entries@)),
            stale_count <= entries@.len(),
            sum == sum_ages(entry_views(entries@)),
            sum <= entries@.len() * 400_000_000_000_000,
        decreases scan.items@.len() - i,
    {
        let item = &scan.items[i];
        assert(items.take(i + 1).drop_last() =~= items.take(i as int));
        assert(items.take(i + 1).last() == item@);
        match find_file_blame(blames, &item.file) {
            Some(m) => {
                let raw = m.get(&item.line);
                let info = blame_info_for(raw, now_secs);
                let stale = info.age_days >= stale_threshold_days;
                let age = info.age_days;
                let ghost old_entries = entries@;
                entries.push(BlameEntry { item: item.duplicate(), blame: info, stale });
                assert(entry_views(entries@) =~= entry_views(old_entries).push(entries@.last()@));
                assert(entry_views(entries@).drop_last() =~= entry_views(old_entries));
                if stale {
                    stale_count += 1;
                }
                assert(age <= 400_000_000_000_000u64) by {
                    assert(age_days(now, (raw.unwrap().timestamp) as int) <= 400_000_000_000_000) by (nonlinear_arith)
                        requires
                            0 <= now < 0x1_0000_0000_0000_0000,
                            -0x8000_0000_0000_0000 <= raw.unwrap().timestamp,
                    {}
                }
                assert(sum + age <= (old_entries.len() + 1) * 400_000_000_000_000) by (nonlinear_arith)
                    requires
                        sum <= old_entries.len() * 400_000_000_000_000,
                        age <= 400_000_000_000_000,
                ;
                sum = sum + age as u128;
            },
            None => {},
        }
        i += 1;
    }
    assert(items.take(scan.items@.len() as int) =~= items);
    let total = entries.len();
    let avg: u64 = if total > 0 {
        assert(sum / (total as u128) <= 400_000_000_000_000) by (nonlinear_arith)
            requires
                sum <= total * 400_000_000_000_000,
                total > 0,
        ;
        (sum / (total as u128)) as u64
    } else {
        0
    };
    let ghost unsorted = entries@;
    let sorted = sort_by_key(entries);
    let res = BlameResult { entries: sorted, total, avg_age_days: avg, stale_count, stale_threshold_days };
    assert(entry_views(unsorted) == blame_candidates(items, blames@, now, thr));
    proof {
        let f = |e: BlameEntry| e@;
        let la = |a: BlameEntry, b: BlameEntry| a.key_le(&b);
        let lb = |a: BlameEntryView, b: BlameEntryView| entry_location_le(a, b);
        lemma_stable_sort_map(unsorted, f, la, lb);
        assert(entry_views(unsorted) =~= unsorted.map_values(f));
        assert(entry_views(res.entries@) =~= res.entries@.map_values(f));
    }
    res
}

/// Build the blame report of the items of `scan`, with ages taken by the system clock.
pub fn compute_blame(scan: &ScanResult, blames: &Vec<FileBlame>, stale_threshold_days: u64) -> (res: BlameResult)
    ensures
        exists|now: u64| blame_report_of(crate::model::item_views(scan.items@), blames@, now as int, stale_threshold_days, res),
{
    let now = now_epoch_secs();
    build_blame(scan, blames, now, stale_threshold_days)
}

// ───────────────────────── laws of the blame report ─────────────────────────

/// The items whose file could be blamed.
pub open spec fn blamed_items(items: Seq<TodoItemView>, blames: Seq<FileBlame>) -> Seq<TodoItemView> {
    items.filter(|v: TodoItemView| blame_of_file(blames, v.file) is Some)
}

proof fn lemma_candidates_shape(items: Seq<TodoItemView>, blames: Seq<FileBlame>, now: int, threshold: int)
    ensures
        blame_candidates(items, blames, now, threshold).map_values(|e: BlameEntryView| e.item)
            == blamed_items(items, blames),
        forall|i: int|
            0 <= i < blame_candidates(items, blames, now, threshold).len() ==> {
                let e = #[trigger] blame_candidates(items, blames, now, threshold)[i];
                &&& blame_of_file(blames, e.item.file) is Some
                &&& e == entry_for(e.item, blame_of_file(blames, e.item.file)->0, now, threshold)
            },
    decreases items.len(),
{
    reveal(Seq::filter);
    let f = |e: BlameEntryView| e.item;
    let c = blame_candidates(items, blames, now, threshold);
    if items.len() == 0 {
        assert(c.map_values(f) =~= blamed_items(items, blames));
    } else {
        lemma_candidates_shape(items.drop_last(), blames, now, threshold);
        let prev = blame_candidates(items.drop_last(), blames, now, threshold);
        match blame_of_file(blames, items.last().file) {
            Some(m) => {
                assert(c.map_values(f) =~= prev.map_values(f).push(items.last()));
                assert(forall|i: int| 0 <= i < prev.len() ==> c[i] == prev[i]);
            },
            None => {
                assert(c.map_values(f) =~= prev.map_values(f));
            },
        }
    }
}

proof fn lemma_stale_ages_remove(s: Seq<BlameEntryView>, j: int)
    requires
        0 <= j < s.len(),
    ensures
        count_stale(s) == count_stale(s.remove(j)) + if s[j].stale {
            1nat
        } else {
            0nat
        },
        sum_ages(s) == sum_ages(s.remove(j)) + s[j].blame.age_days,
    decreases s.len(),
{
    if j == s.len() - 1 {
        assert(s.remove(j) =~= s.drop_last());
    } else {
        lemma_stale_ages_remove(s.drop_last(), j);
        assert(s.remove(j).drop_last() =~= s.drop_last().remove(j));
    }
}

/// Reordering entries keeps the number of stale ones and the sum of ages.
proof fn lemma_stale_ages_permutation(a: Seq<BlameEntryView>, b: Seq<BlameEntryView>)
    requires
        a.to_multiset() == b.to_multiset(),
    ensures
        count_stale(a) == count_stale(b),
        sum_ages(a) == sum_ages(b),
        a.len() == b.len(),
    decreases a.len(),
{
    broadcast use vstd::seq_lib::group_to_multiset_ensures;

    if a.len() == 0 {
        assert(a.to_multiset().len() == 0 && b.to_multiset().len() == b.len());
    } else {
        let x = a.last();
        assert(a =~= a.drop_last().push(x));
        assert(b.to_multiset().count(x) > 0);
        assert(b.contains(x));
        let j = choose|j: int| 0 <= j < b.len() && b[j] == x;
        lemma_stale_ages_remove(b, j);
        assert(b.remove(j).to_multiset() =~= a.drop_last().to_multiset());
        lemma_stale_ages_permutation(a.drop_last(), b.remove(j));
    }
}

/// Law of the blame report: its entries are, reordered by file and line, one
/// per item whose file could be blamed (the others are left out), in the
/// order of the scan before sorting; each carries the blame of its line (or
/// `Unknown`) and is stale exactly when its age reaches the threshold; the
/// total is the number of entries, the stale count the number of stale
/// entries, and the average age the sum of ages divided by the total (0 when
/// there is none).
pub proof fn lemma_blame_report(
    items: Seq<TodoItemView>,
    blames: Seq<FileBlame>,
    now: int,
    threshold: u64,
    res: BlameResult,
)
    requires
        blame_report_of(items, blames, now, threshold, res),
    ensures
        entry_views(res.entries@).to_multiset() == blame_candidates(
            items,
            blames,
            now,
            threshold as int,
        ).to_multiset(),
        blame_candidates(items, blames, now, threshold as int).map_values(|e: BlameEntryView| e.item)
            == blamed_items(items, blames),
        forall|i: int|
            0 <= i < res.entries@.len() ==> {
                let e = (#[trigger] res.entries@[i])@;
                &&& blame_of_file(blames, e.item.file) is Some
                &&& e == entry_for(e.item, blame_of_file(blames, e.item.file)->0, now, threshold as int)
                &&& e.stale == (e.blame.age_days >= threshold)
            },
        res.total == res.entries@.len(),
        res.stale_count == count_stale(entry_views(res.entries@)),
        res.avg_age_days == if res.total > 0 {
            sum_ages(entry_views(res.entries@)) / (res.total as int)
        } else {
            0
        },
{
    broadcast use vstd::seq_lib::group_to_multiset_ensures;

    let c = blame_candidates(items, blames, now, threshold as int);
    let es = entry_views(res.entries@);
    lemma_stable_sort_multiset(c, |a: BlameEntryView, b: BlameEntryView| entry_location_le(a, b));
    lemma_candidates_shape(items, blames, now, threshold as int);
    lemma_stale_ages_permutation(es, c);
    assert forall|i: int| 0 <= i < res.entries@.len() implies {
        let e = (#[trigger] res.entries@[i])@;
        &&& blame_of_file(blames, e.item.file) is Some
        &&& e == entry_for(e.item, blame_of_file(blames, e.item.file)->0, now, threshold as int)
        &&& e.stale == (e.blame.age_days >= threshold)
    } by {
        let e = res.entries@[i]@;
        assert(es[i] == e);
        assert(es.to_multiset().count(e) > 0);
        assert(c.contains(e));
        let k = choose|k: int| 0 <= k < c.len() && c[k] == e;
        assert(c[k] == e);
    }
}

} // verus!
