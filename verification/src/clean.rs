//! Cleanup analysis: TODOs that point at closed issues, and duplicate TODOs.
//!
//! The state of an issue comes from an [`IssueChecker`], which callers supply
//! (the command-line tool asks the `gh` CLI).  Everything else is computed
//! here.
use vstd::prelude::*;

use crate::blame::{age_days, duration_days, parse_duration_days};
use crate::config::Config;
use crate::date_utils::{days_from_civil, max_year, ymd_to_days};
use crate::model::{item_views, CleanResult, CleanViolation, ScanResult, TodoItem, TodoItemView};
use crate::pattern::{groups_view, regex_accepts, regex_captures, Group, Pattern};
use crate::scanner::{group_text, group_text_exec};
use crate::sorting::{
    lemma_lex_antisym, lemma_lex_total, lemma_lex_trans, lemma_stable_sort_map, lex_le, lex_le_exec, sort_by_key,
    sorted_by_key, stable_sort, SortKey,
};
use crate::text::{
    chars_of, decimal, lowercase, parse_i64_exec, parse_i64_spec, parse_unsigned,
    parse_unsigned_exec, push_all, push_decimal, split_whitespace_chars, string_from_chars, to_lowercase,
    trim, trim_chars, views, words,
};

verus! {

#[verifier::external_type_specification]
#[verifier::external_body]
pub struct ExAnyhowError(anyhow::Error);

/// State of an issue in the tracker.
#[derive(Debug, Clone, PartialEq, Eq, Structural)]
pub enum IssueState {
    Open,
    Closed { closed_at: Option<i64> },
}

/// Looks up the state of an issue by number.  `Ok(None)` means the state
/// could not be determined; the issue is then skipped, as it is on an error.
pub trait IssueChecker {
    fn check_issue(&self, issue_number: u32) -> Result<Option<IssueState>, anyhow::Error>;
}

// ───────────────────────── issue numbers ─────────────────────────

/// Source of the issue-number pattern: `#` and digits, nothing else.
pub open spec fn issue_number_source() -> Seq<char> {
    "^#(\\d+)$"@
}

/// The issue number that a match of the issue-number pattern denotes.
pub open spec fn issue_number_of_captures(c: Option<Seq<Option<(Seq<char>, Seq<char>)>>>) -> Option<u32> {
    match c {
        Some(gs) => match group_text(gs, 1) {
            Some(t) => match parse_unsigned(t, u32::MAX as nat) {
                Some(n) => Some(n as u32),
                None => None,
            },
            None => None,
        },
        None => None,
    }
}

/// What [`extract_issue_number`] returns for an issue reference.
pub open spec fn issue_number_of(issue_ref: Seq<char>) -> Option<u32> {
    if regex_accepts(issue_number_source()) {
        issue_number_of_captures(regex_captures(issue_number_source(), trim(issue_ref)))
    } else {
        None
    }
}

/// The issue number denoted by the result of matching the issue-number pattern.
pub fn issue_number_from_captures(caps: Option<Vec<Option<Group>>>) -> (res: Option<u32>)
    ensures
        res == issue_number_of_captures(
            match caps {
                Some(gs) => Some(groups_view(gs@)),
                None => None,
            },
        ),
{
    match caps {
        Some(gs) => match group_text_exec(&gs, 1) {
            Some(t) => {
                let tc = chars_of(t.as_str());
                match parse_unsigned_exec(&tc, u32::MAX as u64) {
                    Some(n) => Some(n as u32),
                    None => None,
                }
            },
            None => None,
        },
        None => None,
    }
}

/// Extract a GitHub issue number from an issue reference like `#123`.
pub fn extract_issue_number(issue_ref: &str) -> (res: Option<u32>)
    ensures
        res == issue_number_of(issue_ref@),
{
    match Pattern::new("^#(\\d+)$") {
        Some(p) => {
            let cs = chars_of(issue_ref);
            let t = string_from_chars(&trim_chars(&cs));
            issue_number_from_captures(p.captures(t.as_str()))
        },
        None => None,
    }
}

// ───────────────────────── ISO-8601 timestamps ─────────────────────────

/// Source of the timestamp pattern `YYYY-MM-DDTHH:MM:SS`.
pub open spec fn iso8601_source() -> Seq<char> {
    "(\\d{4})-(\\d{2})-(\\d{2})T(\\d{2}):(\\d{2}):(\\d{2})"@
}

/// The six numeric fields of a timestamp match (year, month, day, hour,
/// minute, second), when each group parses.
pub open spec fn iso_fields(gs: Seq<Option<(Seq<char>, Seq<char>)>>) -> Option<(int, int, int, int, int, int)> {
    match (group_text(gs, 1), group_text(gs, 2), group_text(gs, 3), group_text(gs, 4), group_text(gs, 5), group_text(gs, 6)) {
        (Some(y), Some(mo), Some(d), Some(h), Some(mi), Some(s)) => match (
            parse_i64_spec(y),
            parse_unsigned(mo, u32::MAX as nat),
            parse_unsigned(d, u32::MAX as nat),
            parse_i64_spec(h),
            parse_i64_spec(mi),
            parse_i64_spec(s),
        ) {
            (Some(y), Some(mo), Some(d), Some(h), Some(mi), Some(s)) => Some(
                (y, mo as int, d as int, h, mi, s),
            ),
            _ => None,
        },
        _ => None,
    }
}

pub open spec fn i64_range(x: int) -> bool {
    i64::MIN <= x <= i64::MAX
}

/// The fields can be combined without overflow (and without the day-count
/// underflow of month 3, day 0).
pub open spec fn iso_fields_in_range(f: (int, int, int, int, int, int)) -> bool {
    let days = days_from_civil(f.0, f.1, f.2);
    &&& -max_year() <= f.0 <= max_year()
    &&& !(f.1 == 3 && f.2 == 0)
    &&& i64_range(days * 86400)
    &&& i64_range(f.3 * 3600)
    &&& i64_range(f.4 * 60)
    &&& i64_range(days * 86400 + f.3 * 3600)
    &&& i64_range(days * 86400 + f.3 * 3600 + f.4 * 60)
    &&& i64_range(days * 86400 + f.3 * 3600 + f.4 * 60 + f.5)
}

/// Seconds since the epoch of the fields, read as a UTC date and time.
pub open spec fn iso_seconds(f: (int, int, int, int, int, int)) -> int {
    days_from_civil(f.0, f.1, f.2) * 86400 + f.3 * 3600 + f.4 * 60 + f.5
}

/// Whether the fields of a timestamp match can be combined.
pub open spec fn iso_captures_ok(caps: Option<Seq<Option<(Seq<char>, Seq<char>)>>>) -> bool {
    match caps {
        Some(gs) => match iso_fields(gs) {
            Some(f) => iso_fields_in_range(f),
            None => true,
        },
        None => true,
    }
}

/// The Unix timestamp that a match of the timestamp pattern denotes.
pub open spec fn iso_timestamp_of_captures(caps: Option<Seq<Option<(Seq<char>, Seq<char>)>>>) -> Option<int> {
    match caps {
        Some(gs) => match iso_fields(gs) {
            Some(f) => Some(iso_seconds(f)),
            None => None,
        },
        None => None,
    }
}

/// What [`parse_iso8601_timestamp`] returns for a string.
pub open spec fn iso8601_timestamp(s: Seq<char>) -> Option<int> {
    if regex_accepts(iso8601_source()) {
        let caps = regex_captures(iso8601_source(), s);
        if iso_captures_ok(caps) {
            iso_timestamp_of_captures(caps)
        } else {
            None
        }
    } else {
        None
    }
}

fn parsed_group_i64(gs: &Vec<Option<Group>>, k: usize) -> (res: Option<i64>)
    ensures
        match res {
            Some(v) => group_text(groups_view(gs@), k as int) matches Some(t) && parse_i64_spec(t) == Some(v as int),
            None => match group_text(groups_view(gs@), k as int) {
                Some(t) => parse_i64_spec(t) is None,
                None => true,
            },
        },
{
    match group_text_exec(gs, k) {
        Some(t) => {
            let tc = chars_of(t.as_str());
            parse_i64_exec(&tc)
        },
        None => None,
    }
}

fn parsed_group_u32(gs: &Vec<Option<Group>>, k: usize) -> (res: Option<u32>)
    ensures
        match res {
            Some(v) => group_text(groups_view(gs@), k as int) matches Some(t) && parse_unsigned(t, u32::MAX as nat) == Some(v as nat),
            None => match group_text(groups_view(gs@), k as int) {
                Some(t) => parse_unsigned(t, u32::MAX as nat) is None,
                None => true,
            },
        },
{
    match group_text_exec(gs, k) {
        Some(t) => {
            let tc = chars_of(t.as_str());
            match parse_unsigned_exec(&tc, u32::MAX as u64) {
                Some(n) => Some(n as u32),
                None => None,
            }
        },
        None => None,
    }
}

/// The six fields of a timestamp match, when each group parses.
fn iso_fields_exec(gs: &Vec<Option<Group>>) -> (res: Option<(i64, u32, u32, i64, i64, i64)>)
    ensures
        match res {
            Some(f) => iso_fields(groups_view(gs@)) == Some((f.0 as int, f.1 as int, f.2 as int, f.3 as int, f.4 as int, f.5 as int)),
            None => iso_fields(groups_view(gs@)) is None,
        },
{
    let y = parsed_group_i64(gs, 1);
    let mo = parsed_group_u32(gs, 2);
    let d = parsed_group_u32(gs, 3);
    let h = parsed_group_i64(gs, 4);
    let mi = parsed_group_i64(gs, 5);
    let s = parsed_group_i64(gs, 6);
    match (y, mo, d, h, mi, s) {
        (Some(y), Some(mo), Some(d), Some(h), Some(mi), Some(s)) => Some((y, mo, d, h, mi, s)),
        _ => None,
    }
}

/// The Unix timestamp that a match of the timestamp pattern denotes.
pub fn timestamp_from_captures(caps: Option<Vec<Option<Group>>>) -> (res: Option<i64>)
    requires
        iso_captures_ok(
            match caps {
                Some(gs) => Some(groups_view(gs@)),
                None => None,
            },
        ),
    ensures
        match res {
            Some(t) => iso_timestamp_of_captures(
                match caps {
                    Some(gs) => Some(groups_view(gs@)),
                    None => None,
                },
            ) == Some(t as int),
            None => iso_timestamp_of_captures(
                match caps {
                    Some(gs) => Some(groups_view(gs@)),
                    None => None,
                },
            ) is None,
        },
{
    match caps {
        Some(gs) => match iso_fields_exec(&gs) {
            Some((y, mo, d, h, mi, s)) => {
                let days = ymd_to_days(y, mo, d);
                Some(days * 86400 + h * 3600 + mi * 60 + s)
            },
            None => None,
        },
        None => None,
    }
}

/// Whether the fields of a timestamp match can be combined.
fn iso_captures_ok_exec(caps: &Option<Vec<Option<Group>>>) -> (res: bool)
    ensures
        res == iso_captures_ok(
            match caps {
                Some(gs) => Some(groups_view(gs@)),
                None => None,
            },
        ),
{
    match caps {
        Some(gs) => match iso_fields_exec(gs) {
            Some((y, mo, d, h, mi, s)) => {
                if !(-0x0040_0000_0000_0000i64 <= y && y <= 0x0040_0000_0000_0000i64) || (mo == 3 && d == 0) {
                    return false;
                }
                let days = ymd_to_days(y, mo, d) as i128;
                let a: i128 = days * 86400;
                let b: i128 = (h as i128) * 3600;
                let c: i128 = (mi as i128) * 60;
                let lo: i128 = i64::MIN as i128;
                let hi: i128 = i64::MAX as i128;
                lo <= a && a <= hi && lo <= b && b <= hi && lo <= c && c <= hi && lo <= a + b && a
                    + b <= hi && lo <= a + b + c && a + b + c <= hi && lo <= a + b + c + s as i128 && a + b
                    + c + s as i128 <= hi
            },
            None => true,
        },
        None => true,
    }
}

/// The state of an issue as the tracker reports it: `CLOSED` is closed, at
/// the reported closing time when it parses; any other state, or none, is
/// open.
pub open spec fn issue_state_of_report(state: Option<Seq<char>>, closed_at: Option<Seq<char>>) -> IssueState {
    if state == Some("CLOSED"@) {
        IssueState::Closed {
            closed_at: match closed_at {
                Some(t) => match iso8601_timestamp(t) {
                    Some(x) => Some(x as i64),
                    None => None,
                },
                None => None,
            },
        }
    } else {
        IssueState::Open
    }
}


/// Parse an ISO-8601 timestamp (`YYYY-MM-DDTHH:MM:SS`, anywhere in the
/// string) into a Unix timestamp.  Fields that cannot be combined without
/// overflow give `None`.
pub fn parse_iso8601_timestamp(s: &str) -> (res: Option<i64>)
    ensures
        match res {
            Some(t) => iso8601_timestamp(s@) == Some(t as int),
            None => iso8601_timestamp(s@) is None,
        },
{
    match Pattern::new("(\\d{4})-(\\d{2})-(\\d{2})T(\\d{2}):(\\d{2}):(\\d{2})") {
        Some(p) => {
            let caps = p.captures(s);
            if iso_captures_ok_exec(&caps) {
                timestamp_from_captures(caps)
            } else {
                None
            }
        },
        None => None,
    }
}

// ───────────────────────── message normalization ─────────────────────────

/// Words joined by single spaces.
pub open spec fn join_spaces(ws: Seq<Seq<char>>) -> Seq<char>
    decreases ws.len(),
{
    if ws.len() == 0 {
        seq![]
    } else if ws.len() == 1 {
        ws[0]
    } else {
        join_spaces(ws.drop_last()) + seq![' '] + ws.last()
    }
}

/// A message normalized for duplicate comparison: trimmed, lower-cased, and
/// with runs of white space collapsed to single spaces.
pub open spec fn normalized(msg: Seq<char>) -> Seq<char> {
    join_spaces(words(lowercase(trim(msg))))
}

fn join_spaces_exec(ws: &Vec<Vec<char>>) -> (res: Vec<char>)
    ensures
        res@ == join_spaces(views(ws@)),
{
    let mut out: Vec<char> = Vec::new();
    let mut i: usize = 0;
    let ghost vs = views(ws@);
    assert(vs.take(0) =~= Seq::<Seq<char>>::empty());
    while i < ws.len()
        invariant
            vs == views(ws@),
            vs.len() == ws@.len(),
            i <= ws@.len(),
            out@ == join_spaces(vs.take(i as int)),
        decreases ws@.len() - i,
    {
        assert(vs.take(i + 1).drop_last() =~= vs.take(i as int));
        assert(vs.take(i + 1).last() == ws@[i as int]@);
        if i > 0 {
            out.push(' ');
        }
        push_all(&mut out, &ws[i]);
        i += 1;
    }
    assert(vs.take(ws@.len() as int) =~= vs);
    out
}

fn normalize_chars(msg: &[char]) -> (res: Vec<char>)
    ensures
        res@ == normalized(msg@),
{
    let t = trim_chars(msg);
    let l = to_lowercase(&t);
    let ws = split_whitespace_chars(&l);
    join_spaces_exec(&ws)
}

/// Normalize a TODO message for duplicate comparison.
pub fn normalize_message(msg: &str) -> (res: String)
    ensures
        res@ == normalized(msg@),
{
    let cs = chars_of(msg);
    string_from_chars(&normalize_chars(&cs))
}


// ───────────────────────── violations ─────────────────────────

/// Model of a [`CleanViolation`].
pub struct CleanViolationView {
    pub rule: Seq<char>,
    pub message: Seq<char>,
    pub file: Seq<char>,
    pub line: usize,
    pub issue_ref: Option<Seq<char>>,
    pub duplicate_of: Option<Seq<char>>,
}

impl View for CleanViolation {
    type V = CleanViolationView;

    open spec fn view(&self) -> CleanViolationView {
        CleanViolationView {
            rule: self.rule@,
            message: self.message@,
            file: self.file@,
            line: self.line,
            issue_ref: crate::model::opt_view(self.issue_ref),
            duplicate_of: crate::model::opt_view(self.duplicate_of),
        }
    }
}

pub open spec fn clean_views(vs: Seq<CleanViolation>) -> Seq<CleanViolationView> {
    vs.map_values(|v: CleanViolation| v@)
}

/// Order of reported violations: by file path, then by line.
pub open spec fn clean_view_le(a: CleanViolationView, b: CleanViolationView) -> bool {
    if a.file == b.file {
        a.line <= b.line
    } else {
        lex_le(a.file, b.file)
    }
}

pub open spec fn stale_rule() -> Seq<char> {
    seq!['s', 't', 'a', 'l', 'e', '_', 'i', 's', 's', 'u', 'e']
}

pub open spec fn duplicate_rule() -> Seq<char> {
    seq!['d', 'u', 'p', 'l', 'i', 'c', 'a', 't', 'e']
}

/// `Issue #N is closed`.
pub open spec fn stale_message(n: u32) -> Seq<char> {
    seq!['I', 's', 's', 'u', 'e', ' ', '#'] + decimal(n as nat) + seq![' ', 'i', 's', ' ', 'c', 'l', 'o', 's', 'e', 'd']
}

/// The violation for an item that refers to the closed issue `n`.
pub open spec fn stale_violation(v: TodoItemView, n: u32) -> CleanViolationView {
    CleanViolationView {
        rule: stale_rule(),
        message: stale_message(n),
        file: v.file,
        line: v.line,
        issue_ref: v.issue_ref,
        duplicate_of: None,
    }
}

/// `Duplicate TODO: "<trimmed message>"`.
pub open spec fn duplicate_message(msg: Seq<char>) -> Seq<char> {
    seq!['D', 'u', 'p', 'l', 'i', 'c', 'a', 't', 'e', ' ', 'T', 'O', 'D', 'O', ':', ' ', '"'] + trim(msg)
        + seq!['"']
}

/// `file:line` of an item.
pub open spec fn location(v: TodoItemView) -> Seq<char> {
    v.file + seq![':'] + decimal(v.line as nat)
}

/// The violation for item `d`, a duplicate of the earlier item `o`.
pub open spec fn duplicate_violation(d: TodoItemView, o: TodoItemView) -> CleanViolationView {
    CleanViolationView {
        rule: duplicate_rule(),
        message: duplicate_message(d.message),
        file: d.file,
        line: d.line,
        issue_ref: None,
        duplicate_of: Some(location(o)),
    }
}

// ───────────────────────── stale issues ─────────────────────────

/// Items that refer to a GitHub issue (`#N`), with the issue number, in order.
pub open spec fn issue_items(items: Seq<TodoItemView>) -> Seq<(TodoItemView, u32)>
    decreases items.len(),
{
    if items.len() == 0 {
        seq![]
    } else {
        let rest = issue_items(items.drop_last());
        match items.last().issue_ref {
            Some(r) => match issue_number_of(r) {
                Some(n) => rest.push((items.last(), n)),
                None => rest,
            },
            None => rest,
        }
    }
}

/// Whether an issue in `state` makes its TODO stale, `now` being the current
/// Unix time: the issue is closed, and, when `since_days` is given and the
/// closing time is known, it was closed at least that many days ago.
pub open spec fn is_stale(state: IssueState, since_days: Option<u64>, now: int) -> bool {
    match state {
        IssueState::Open => false,
        IssueState::Closed { closed_at } => match (since_days, closed_at) {
            (Some(days), Some(ts)) => age_days(now, ts as int) >= days,
            _ => true,
        },
    }
}

/// Stale violations of the issue items, given what the checker reported for
/// each (`None`: state unknown, or the check failed).
pub open spec fn stale_violations(
    cands: Seq<(TodoItemView, u32)>,
    outcomes: Seq<Option<IssueState>>,
    since_days: Option<u64>,
    now: int,
) -> Seq<CleanViolationView>
    decreases cands.len(),
{
    if cands.len() == 0 || outcomes.len() < cands.len() {
        seq![]
    } else {
        let rest = stale_violations(cands.drop_last(), outcomes, since_days, now);
        let k = cands.len() - 1;
        match outcomes[k] {
            Some(state) => if is_stale(state, since_days, now) {
                rest.push(stale_violation(cands[k].0, cands[k].1))
            } else {
                rest
            },
            None => rest,
        }
    }
}

/// Items that refer to a GitHub issue, with the issue number.
pub fn collect_issue_items(items: &Vec<TodoItem>) -> (res: Vec<(usize, u32)>)
    ensures
        res@.len() == issue_items(item_views(items@)).len(),
        forall|k: int| 0 <= k < res@.len() ==> (#[trigger] res@[k]).0 < items@.len() && items@[res@[k].0 as int]@ == issue_items(item_views(items@))[k].0
            && res@[k].1 == issue_items(item_views(items@))[k].1,
{
    let ghost vs = item_views(items@);
    let mut res: Vec<(usize, u32)> = Vec::new();
    let mut i: usize = 0;
    assert(vs.take(0) =~= Seq::<TodoItemView>::empty());
    while i < items.len()
        invariant
            vs == item_views(items@),
            i <= items@.len(),
            res@.len() == issue_items(vs.take(i as int)).len(),
            forall|k: int| 0 <= k < res@.len() ==> (#[trigger] res@[k]).0 < items@.len() && items@[res@[k].0 as int]@ == issue_items(vs.take(i as int))[k].0
                && res@[k].1 == issue_items(vs.take(i as int))[k].1,
        decreases items@.len() - i,
    {
        assert(vs.take(i + 1).drop_last() =~= vs.take(i as int));
        assert(vs.take(i + 1).last() == items@[i as int]@);
        match &items[i].issue_ref {
            Some(r) => match extract_issue_number(r.as_str()) {
                Some(n) => {
                    res.push((i, n));
                },
                None => {},
            },
            None => {},
        }
        i += 1;
    }
    assert(vs.take(items@.len() as int) =~= vs);
    res
}

fn clean_violation(rule: Vec<char>, message: Vec<char>, item: &TodoItem, issue_ref: Option<String>, duplicate_of: Option<String>) -> (res: CleanViolation)
    ensures
        res@ == (CleanViolationView {
            rule: rule@,
            message: message@,
            file: item.file@,
            line: item.line,
            issue_ref: crate::model::opt_view(issue_ref),
            duplicate_of: crate::model::opt_view(duplicate_of),
        }),
{
    CleanViolation {
        rule: string_from_chars(&rule),
        message: string_from_chars(&message),
        file: item.file.clone(),
        line: item.line,
        issue_ref,
        duplicate_of,
    }
}

/// Whether an issue in `state` makes its TODO stale at the instant `now_ts`.
pub fn issue_is_stale(state: &IssueState, since_days: Option<u64>, now_ts: i64) -> (res: bool)
    ensures
        res == is_stale(*state, since_days, now_ts as int),
{
    match state {
        IssueState::Open => false,
        IssueState::Closed { closed_at } => match (since_days, closed_at) {
            (Some(days), Some(ts)) => {
                let diff: i128 = now_ts as i128 - *ts as i128;
                let age: i128 = if diff < 0 {
                    0
                } else {
                    diff / 86400
                };
                age >= days as i128
            },
            _ => true,
        },
    }
}

/// Stale violations of the issue items, given the checker's report for each.
pub fn stale_from_outcomes(
    items: &Vec<TodoItem>,
    cands: &Vec<(usize, u32)>,
    outcomes: &Vec<Option<IssueState>>,
    since_days: Option<u64>,
    now_ts: i64,
) -> (res: Vec<CleanViolation>)
    requires
        forall|k: int| 0 <= k < cands@.len() ==> (#[trigger] cands@[k]).0 < items@.len(),
    ensures
        clean_views(res@) == stale_violations(
            cands@.map_values(|c: (usize, u32)| (items@[c.0 as int]@, c.1)),
            outcomes@,
            since_days,
            now_ts as int,
        ),
{
    let ghost cs = cands@.map_values(|c: (usize, u32)| (items@[c.0 as int]@, c.1));
    let mut res: Vec<CleanViolation> = Vec::new();
    if outcomes.len() < cands.len() {
        assert(clean_views(res@) =~= seq![]);
        return res;
    }
    let mut i: usize = 0;
    assert(cs.take(0) =~= Seq::<(TodoItemView, u32)>::empty());
    while i < cands.len()
        invariant
            cs == cands@.map_values(|c: (usize, u32)| (items@[c.0 as int]@, c.1)),
            forall|k: int| 0 <= k < cands@.len() ==> (#[trigger] cands@[k]).0 < items@.len(),
            outcomes@.len() >= cands@.len(),
            i <= cands@.len(),
            clean_views(res@) == stale_violations(cs.take(i as int), outcomes@, since_days, now_ts as int),
        decreases cands@.len() - i,
    {
        let ghost t = cs.take(i + 1);
        assert(t.drop_last() =~= cs.take(i as int));
        assert(t[i as int] == cs[i as int]);
        let (idx, n) = cands[i];
        match &outcomes[i] {
            Some(state) => {
                if issue_is_stale(state, since_days, now_ts) {
                    let mut msg: Vec<char> = vec!['I', 's', 's', 'u', 'e', ' ', '#'];
                    push_decimal(&mut msg, n as u64);
                    let tail: Vec<char> = vec![' ', 'i', 's', ' ', 'c', 'l', 'o', 's', 'e', 'd'];
                    push_all(&mut msg, &tail);
                    assert(msg@ =~= stale_message(n));
                    let item = &items[idx];
                    let v = clean_violation(
                        vec!['s', 't', 'a', 'l', 'e', '_', 'i', 's', 's', 'u', 'e'],
                        msg,
                        item,
                        item.issue_ref.clone(),
                        None,
                    );
                    let ghost old_res = res@;
                    res.push(v);
                    assert(clean_views(res@) =~= clean_views(old_res).push(v@));
                }
            },
            None => {},
        }
        i += 1;
    }
    assert(cs.take(cands@.len() as int) =~= cs);
    res
}

/// Ask the checker about each issue item, in order.  A failed check and an
/// undetermined state both give `None`.
pub fn check_issues(checker: &dyn IssueChecker, cands: &Vec<(usize, u32)>) -> (res: Vec<Option<IssueState>>)
    ensures
        res@.len() == cands@.len(),
{
    let mut res: Vec<Option<IssueState>> = Vec::new();
    let mut i: usize = 0;
    while i < cands.len()
        invariant
            i <= cands@.len(),
            res@.len() == i,
        decreases cands@.len() - i,
    {
        let outcome = match checker.check_issue(cands[i].1) {
            Ok(Some(state)) => Some(state),
            _ => None,
        };
        res.push(outcome);
        i += 1;
    }
    res
}


// ───────────────────────── duplicates ─────────────────────────

/// Index of the first occurrence of `x` in `ns`.
pub open spec fn first_index(ns: Seq<Seq<char>>, x: Seq<char>) -> Option<nat>
    decreases ns.len(),
{
    if ns.len() == 0 {
        None
    } else if ns[0] == x {
        Some(0)
    } else {
        match first_index(ns.drop_first(), x) {
            Some(k) => Some(k + 1),
            None => None,
        }
    }
}

proof fn lemma_first_index(ns: Seq<Seq<char>>, x: Seq<char>, k: int)
    requires
        0 <= k <= ns.len(),
        forall|m: int| 0 <= m < k ==> ns[m] != x,
    ensures
        k < ns.len() && ns[k] == x ==> first_index(ns, x) == Some(k as nat),
        k == ns.len() ==> first_index(ns, x) is None,
    decreases k,
{
    if k > 0 {
        lemma_first_index(ns.drop_first(), x, k - 1);
    } else if ns.len() > 0 && ns[0] != x {
        lemma_first_index_none_or_later(ns.drop_first(), x);
    }
}

proof fn lemma_first_index_none_or_later(ns: Seq<Seq<char>>, x: Seq<char>)
    ensures
        first_index(ns, x) matches Some(k) ==> k < ns.len() && ns[k as int] == x,
    decreases ns.len(),
{
    if ns.len() > 0 && ns[0] != x {
        lemma_first_index_none_or_later(ns.drop_first(), x);
    }
}

/// Normalized messages of the items.
pub open spec fn norms_of(items: Seq<TodoItemView>) -> Seq<Seq<char>> {
    items.map_values(|v: TodoItemView| normalized(v.message))
}

/// Duplicate violations: every item whose normalized message is not empty and
/// equals that of an earlier item is a duplicate of the first such item.
pub open spec fn duplicate_violations(items: Seq<TodoItemView>) -> Seq<CleanViolationView>
    decreases items.len(),
{
    if items.len() == 0 {
        seq![]
    } else {
        let rest = duplicate_violations(items.drop_last());
        let n = normalized(items.last().message);
        if n.len() > 0 {
            match first_index(norms_of(items.drop_last()), n) {
                Some(i) => rest.push(duplicate_violation(items.last(), items[i as int])),
                None => rest,
            }
        } else {
            rest
        }
    }
}

/// Items whose normalized messages all differ have no duplicates.
pub proof fn lemma_distinct_messages_no_duplicates(items: Seq<TodoItemView>)
    requires
        forall|i: int, j: int|
            0 <= i < j < items.len() ==> normalized((#[trigger] items[i]).message) != normalized((#[trigger] items[j]).message),
    ensures
        duplicate_violations(items) == Seq::<CleanViolationView>::empty(),
    decreases items.len(),
{
    if items.len() > 0 {
        let d = items.drop_last();
        assert forall|i: int, j: int| 0 <= i < j < d.len() implies normalized((#[trigger] d[i]).message) != normalized(
            (#[trigger] d[j]).message,
        ) by {
            assert(d[i] == items[i] && d[j] == items[j]);
        }
        lemma_distinct_messages_no_duplicates(d);
        let n = normalized(items.last().message);
        let ns = norms_of(d);
        assert forall|m: int| 0 <= m < ns.len() implies ns[m] != n by {
            assert(ns[m] == normalized(items[m].message));
            assert(items.last() == items[items.len() - 1]);
        }
        lemma_first_index(ns, n, ns.len() as int);
    }
}

/// The state of an issue from the JSON that `gh issue view --json
/// state,closedAt` prints: its `state` and `closedAt` strings (output that
/// does not parse, or fields that are missing or no strings, count as
/// absent).
pub fn issue_state_from_gh_output(stdout: &[u8]) -> (res: IssueState)
    ensures
        res == issue_state_of_report(
            crate::manifest::text_value(crate::manifest::entry_of_opt(crate::manifest::json_document_bytes(stdout@), "state"@)),
            crate::manifest::text_value(crate::manifest::entry_of_opt(crate::manifest::json_document_bytes(stdout@), "closedAt"@)),
        ),
{
    match crate::manifest::parse_json_bytes(stdout) {
        Some(doc) => {
            let state = crate::manifest::entry_text(&doc, "state");
            let closed_at = crate::manifest::entry_text(&doc, "closedAt");
            issue_state_from_report(state, closed_at)
        },
        None => issue_state_from_report(None, None),
    }
}

/// The state of an issue from the tracker's `state` and `closedAt` fields.
pub fn issue_state_from_report(state: Option<&str>, closed_at: Option<&str>) -> (res: IssueState)
    ensures
        res == issue_state_of_report(
            match state {
                Some(s) => Some(s@),
                None => None,
            },
            match closed_at {
                Some(t) => Some(t@),
                None => None,
            },
        ),
{
    let closed = match state {
        Some(s) => {
            let cs = chars_of(s);
            let want = chars_of("CLOSED");
            crate::text::chars_eq(&cs, &want)
        },
        None => false,
    };
    if closed {
        let at = match closed_at {
            Some(t) => parse_iso8601_timestamp(t),
            None => None,
        };
        IssueState::Closed { closed_at: at }
    } else {
        IssueState::Open
    }
}

fn location_exec(item: &TodoItem) -> (res: String)
    ensures
        res@ == location(item@),
{
    let mut v = chars_of(item.file.as_str());
    v.push(':');
    push_decimal(&mut v, item.line as u64);
    string_from_chars(&v)
}

/// Duplicate violations of the items, in item order.
pub fn detect_duplicates(items: &Vec<TodoItem>) -> (res: Vec<CleanViolation>)
    ensures
        clean_views(res@) == duplicate_violations(item_views(items@)),
{
    let ghost vs = item_views(items@);
    let mut norms: Vec<Vec<char>> = Vec::new();
    let mut i: usize = 0;
    while i < items.len()
        invariant
            i <= items@.len(),
            norms@.len() == i,
            forall|k: int| 0 <= k < i ==> (#[trigger] norms@[k])@ == normalized(items@[k].message@),
        decreases items@.len() - i,
    {
        let cs = chars_of(items[i].message.as_str());
        norms.push(normalize_chars(&cs));
        i += 1;
    }
    let mut res: Vec<CleanViolation> = Vec::new();
    let mut j: usize = 0;
    assert(vs.take(0) =~= Seq::<TodoItemView>::empty());
    while j < items.len()
        invariant
            vs == item_views(items@),
            norms@.len() == items@.len(),
            forall|k: int| 0 <= k < items@.len() ==> (#[trigger] norms@[k])@ == normalized(items@[k].message@),
            j <= items@.len(),
            clean_views(res@) == duplicate_violations(vs.take(j as int)),
        decreases items@.len() - j,
    {
        let ghost pre = vs.take(j as int);
        assert(vs.take(j + 1).drop_last() =~= pre);
        assert(vs.take(j + 1).last() == items@[j as int]@);
        let ghost ns = norms_of(pre);
        if norms[j].len() > 0 {
            let mut k: usize = 0;
            while k < j && !crate::text::chars_eq(&norms[k], &norms[j])
                invariant
                    k <= j < items@.len(),
                    norms@.len() == items@.len(),
                    forall|m: int| 0 <= m < items@.len() ==> (#[trigger] norms@[m])@ == normalized(items@[m].message@),
                    ns == norms_of(pre),
                    pre == vs.take(j as int),
                    vs == item_views(items@),
                    forall|m: int| 0 <= m < k ==> ns[m] != norms@[j as int]@,
                decreases j - k,
            {
                assert(ns[k as int] == norms@[k as int]@);
                k += 1;
            }
            proof {
                if k < j {
                    assert(ns[k as int] == norms@[k as int]@);
                }
                lemma_first_index(ns, norms@[j as int]@, k as int);
            }
            if k < j {
                let d = &items[j];
                let mut msg: Vec<char> = vec!['D', 'u', 'p', 'l', 'i', 'c', 'a', 't', 'e', ' ', 'T', 'O', 'D', 'O', ':', ' ', '"'];
                let mc = chars_of(d.message.as_str());
                let tm = trim_chars(&mc);
                push_all(&mut msg, &tm);
                msg.push('"');
                assert(msg@ =~= duplicate_message(d.message@));
                let loc = location_exec(&items[k]);
                let v = clean_violation(
                    vec!['d', 'u', 'p', 'l', 'i', 'c', 'a', 't', 'e'],
                    msg,
                    d,
                    None,
                    Some(loc),
                );
                let ghost old_res = res@;
                res.push(v);
                assert(clean_views(res@) =~= clean_views(old_res).push(v@));
                assert(v@ == duplicate_violation(vs.take(j + 1).last(), vs.take(j + 1)[k as int]));
            }
        }
        j += 1;
    }
    assert(vs.take(items@.len() as int) =~= vs);
    res
}

// ───────────────────────── the clean report ─────────────────────────

impl SortKey for CleanViolation {
    /// By file path, then by line.
    open spec fn key_le(&self, other: &Self) -> bool {
        if self.file@ == other.file@ {
            self.line <= other.line
        } else {
            lex_le(self.file@, other.file@)
        }
    }

    fn key_le_exec(&self, other: &Self) -> (res: bool) {
        if self.file == other.file {
            self.line <= other.line
        } else {
            let a = chars_of(self.file.as_str());
            let b = chars_of(other.file.as_str());
            lex_le_exec(&a, &b)
        }
    }

    proof fn lemma_total(a: &Self, b: &Self) {
        lemma_lex_total(a.file@, b.file@);
    }

    proof fn lemma_trans(a: &Self, b: &Self, c: &Self) {
        if a.file@ != b.file@ && b.file@ != c.file@ {
            lemma_lex_trans(a.file@, b.file@, c.file@);
            if a.file@ == c.file@ {
                lemma_lex_antisym(a.file@, b.file@);
            }
        }
    }
}

/// The `since` duration in days: the command line's, else the configured one;
/// `None` when neither is given or the text is not a duration.
pub open spec fn since_days_of(since_cli: Option<Seq<char>>, config: &Config) -> Option<u64> {
    let text = match since_cli {
        Some(s) => Some(s),
        None => crate::model::opt_view(config.clean.since),
    };
    match text {
        Some(t) => match duration_days(t) {
            Some(d) => Some(d as u64),
            None => None,
        },
        None => None,
    }
}

pub open spec fn stale_enabled(config: &Config) -> bool {
    match config.clean.stale_issues {
        Some(b) => b,
        None => true,
    }
}

pub open spec fn duplicates_enabled(config: &Config) -> bool {
    match config.clean.duplicates {
        Some(b) => b,
        None => true,
    }
}

pub open spec fn str_view(o: Option<&str>) -> Option<Seq<char>> {
    match o {
        Some(s) => Some(s@),
        None => None,
    }
}

/// `res` is the clean report of `items`: `outcomes` are the checker's reports
/// for the issue items (`None` when stale detection did not run), `now` the
/// current Unix time.
pub open spec fn clean_report_of(
    items: Seq<TodoItemView>,
    config: &Config,
    outcomes: Option<Seq<Option<IssueState>>>,
    since_cli: Option<Seq<char>>,
    now: int,
    res: CleanResult,
) -> bool {
    let stale = match outcomes {
        Some(o) => stale_violations(issue_items(items), o, since_days_of(since_cli, config), now),
        None => seq![],
    };
    let dups = if duplicates_enabled(config) {
        duplicate_violations(items)
    } else {
        seq![]
    };
    &&& clean_views(res.violations@) == stable_sort(stale + dups, |a: CleanViolationView, b: CleanViolationView| clean_view_le(a, b))
    &&& sorted_by_key(res.violations@)
    &&& res.passed == (stale.len() + dups.len() == 0)
    &&& res.total_items == items.len()
    &&& res.stale_count == stale.len()
    &&& res.duplicate_count == dups.len()
}

fn since_days_exec(config: &Config, since_cli: Option<&str>) -> (res: Option<u64>)
    ensures
        res == since_days_of(str_view(since_cli), config),
{
    let text: Option<&str> = match since_cli {
        Some(s) => Some(s),
        None => match &config.clean.since {
            Some(s) => Some(s.as_str()),
            None => None,
        },
    };
    match text {
        Some(t) => match parse_duration_days(t) {
            Ok(d) => Some(d),
            Err(_) => None,
        },
        None => None,
    }
}

/// Clean analysis of a scan, given the issue checker's report for each issue
/// item (`None` when stale detection does not run) and the current Unix time.
/// Stale detection runs only when enabled in the configuration and reports
/// are given; violations come sorted by file, then line.
pub fn clean_with_outcomes(
    scan: &ScanResult,
    config: &Config,
    outcomes: Option<&Vec<Option<IssueState>>>,
    since_cli: Option<&str>,
    now_ts: i64,
) -> (res: CleanResult)
    ensures
        clean_report_of(
            item_views(scan.items@),
            config,
            match outcomes {
                Some(o) => if stale_enabled(config) {
                    Some(o@)
                } else {
                    None
                },
                None => None,
            },
            str_view(since_cli),
            now_ts as int,
            res,
        ),
{
    let ghost items = item_views(scan.items@);
    let mut stale: Vec<CleanViolation> = Vec::new();
    let enable_stale = match config.clean.stale_issues {
        Some(b) => b,
        None => true,
    };
    let enable_dups = match config.clean.duplicates {
        Some(b) => b,
        None => true,
    };
    let since_days = since_days_exec(config, since_cli);
    if enable_stale {
        match outcomes {
            Some(o) => {
                let cands = collect_issue_items(&scan.items);
                stale = stale_from_outcomes(&scan.items, &cands, o, since_days, now_ts);
                assert(cands@.map_values(|c: (usize, u32)| (scan.items@[c.0 as int]@, c.1)) =~= issue_items(items));
            },
            None => {},
        }
    }
    let ghost stale_v = clean_views(stale@);
    let ghost oc = match outcomes {
        Some(o) => if stale_enabled(config) {
            Some(o@)
        } else {
            None
        },
        None => None,
    };
    proof {
        if oc is None {
            assert(stale_v =~= seq![]);
        }
    }
    let dups: Vec<CleanViolation> = if enable_dups {
        detect_duplicates(&scan.items)
    } else {
        Vec::new()
    };
    let ghost dups_v = clean_views(dups@);
    let stale_count = stale.len();
    let duplicate_count = dups.len();
    let mut all = stale;
    let mut d = dups;
    let ghost a0 = all@;
    let ghost d0 = d@;
    all.append(&mut d);
    assert(clean_views(all@) =~= clean_views(a0) + clean_views(d0));
    let ghost unsorted = all@;
    let sorted = sort_by_key(all);
    let passed = stale_count == 0 && duplicate_count == 0;
    let res = CleanResult { passed, total_items: scan.items.len(), stale_count, duplicate_count, violations: sorted };
    proof {
        let st = match oc {
            Some(o) => stale_violations(issue_items(items), o, since_days_of(str_view(since_cli), config), now_ts as int),
            None => seq![],
        };
        let du = if duplicates_enabled(config) {
            duplicate_violations(items)
        } else {
            seq![]
        };
        assert(stale_v == st);
        if !enable_dups {
            assert(dups_v =~= seq![]);
        }
        assert(dups_v == du);
        assert(clean_views(unsorted) == st + du);
        let f = |v: CleanViolation| v@;
        let la = |a: CleanViolation, b: CleanViolation| a.key_le(&b);
        let lb = |a: CleanViolationView, b: CleanViolationView| clean_view_le(a, b);
        lemma_stable_sort_map(unsorted, f, la, lb);
        assert(clean_views(unsorted) =~= unsorted.map_values(f));
        assert(clean_views(res.violations@) =~= res.violations@.map_values(f));
    }
    res
}

/// Run clean analysis on scan results.  Stale issues are looked up with
/// `issue_checker` (skipped without one), at the current time by the system
/// clock.
pub fn run_clean(
    scan: &ScanResult,
    config: &Config,
    issue_checker: Option<&dyn IssueChecker>,
    since_cli: Option<&str>,
) -> (res: CleanResult)
    ensures
        exists|outcomes: Option<Seq<Option<IssueState>>>, now: i64|
            (outcomes is Some <==> (issue_checker is Some && stale_enabled(config))) && (outcomes matches Some(o)
                ==> o.len() == issue_items(item_views(scan.items@)).len()) && #[trigger] clean_report_of(
                item_views(scan.items@),
                config,
                outcomes,
                str_view(since_cli),
                now as int,
                res,
            ),
{
    let enable_stale = match config.clean.stale_issues {
        Some(b) => b,
        None => true,
    };
    match issue_checker {
        Some(c) => {
            if enable_stale {
                let cands = collect_issue_items(&scan.items);
                let outcomes = check_issues(c, &cands);
                let now = crate::date_utils::now_epoch_secs();
                let now_ts: i64 = if now <= i64::MAX as u64 {
                    now as i64
                } else {
                    i64::MAX
                };
                clean_with_outcomes(scan, config, Some(&outcomes), since_cli, now_ts)
            } else {
                clean_with_outcomes(scan, config, None, since_cli, 0)
            }
        },
        None => clean_with_outcomes(scan, config, None, since_cli, 0),
    }
}

} // verus!
