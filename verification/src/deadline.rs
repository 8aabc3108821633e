//! Deadlines attached to TODO comments: `YYYY-MM-DD` dates and `YYYY-QN`
//! quarter ends.
use vstd::prelude::*;

use crate::text::{
    is_ascii_digit, lemma_index_of_char_at, lemma_parse_zero_padded, lemma_zero_padded_digits,
    trim_end, trim_start,
    chars_of, index_of_char, index_of_char_exec, lemma_index_of_char, parse_unsigned,
    parse_unsigned_exec, push_zero_padded, string_from_chars, sub_chars, trim, trim_chars,
    zero_padded,
};

verus! {

/// A calendar date by which a TODO should be resolved.
#[derive(Debug, Clone, Copy, PartialEq, Eq, Structural)]
pub struct Deadline {
    pub year: u16,
    pub month: u8,
    pub day: u8,
}

/// Lexicographic order on (year, month, day).
pub open spec fn date_lt(a: Deadline, b: Deadline) -> bool {
    a.year < b.year || (a.year == b.year && (a.month < b.month || (a.month == b.month && a.day
        < b.day)))
}

/// Law: "before" is a strict total order on dates.  No date is before
/// itself, two dates are never each before the other, it is transitive, and
/// of two different dates one is before the other.
pub proof fn lemma_date_order(a: Deadline, b: Deadline, c: Deadline)
    ensures
        !date_lt(a, a),
        date_lt(a, b) ==> !date_lt(b, a),
        date_lt(a, b) && date_lt(b, c) ==> date_lt(a, c),
        (a.year != b.year || a.month != b.month || a.day != b.day) ==> (date_lt(a, b) || date_lt(b, a)),
{
}

/// Law: the year decides first, then the month, then the day.  A date in an
/// earlier year is before any date of a later year, whatever their months
/// and days; within one year an earlier month is before any day of a later
/// month; within one month the earlier day is before.
pub proof fn lemma_date_order_by_fields(a: Deadline, b: Deadline)
    ensures
        a.year < b.year ==> date_lt(a, b),
        a.year > b.year ==> !date_lt(a, b),
        a.year == b.year && a.month < b.month ==> date_lt(a, b),
        a.year == b.year && a.month > b.month ==> !date_lt(a, b),
        a.year == b.year && a.month == b.month ==> (date_lt(a, b) <==> a.day < b.day),
{
}

/// `YYYY-MM-DD` with zero padding (the `Display` form).
pub open spec fn deadline_text(d: Deadline) -> Seq<char> {
    zero_padded(d.year as int, 4) + seq!['-'] + zero_padded(d.month as int, 2) + seq!['-']
        + zero_padded(d.day as int, 2)
}

impl Deadline {
    /// A deadline is expired when it lies strictly before `today`.
    pub fn is_expired(&self, today: &Deadline) -> (res: bool)
        ensures
            res == date_lt(*self, *today),
    {
        self.year < today.year || (self.year == today.year && (self.month < today.month || (
        self.month == today.month && self.day < today.day)))
    }

    /// The `YYYY-MM-DD` form of the date.
    pub fn to_text(&self) -> (res: Vec<char>)
        ensures
            res@ == deadline_text(*self),
    {
        let mut out: Vec<char> = Vec::new();
        push_zero_padded(&mut out, self.year as i64, 4);
        out.push('-');
        push_zero_padded(&mut out, self.month as i64, 2);
        out.push('-');
        push_zero_padded(&mut out, self.day as i64, 2);
        out
    }

    /// The `YYYY-MM-DD` form of the date, as a `String`.
    pub fn to_string(&self) -> (res: String)
        ensures
            res@ == deadline_text(*self),
    {
        let t = self.to_text();
        string_from_chars(&t)
    }
}

/// End of a quarter: Q1 = Mar 31, Q2 = Jun 30, Q3 = Sep 30, Q4 = Dec 31.
pub open spec fn quarter_end(q: nat) -> (u8, u8) {
    if q == 1 {
        (3u8, 31u8)
    } else if q == 2 {
        (6u8, 30u8)
    } else if q == 3 {
        (9u8, 30u8)
    } else {
        (12u8, 31u8)
    }
}

/// The specification of [`parse_deadline`], on the trimmed text `s`.
///
/// If the text has a `-` and the part after the first `-` starts with `Q` or
/// `q`, it is a quarter (`YYYY-QN`, N in 1..=4) and nothing else is tried.
/// Otherwise it must split at its first two `-` into year, month and day, with
/// month in 1..=12 and day in 1..=31.
pub open spec fn deadline_of_trimmed(s: Seq<char>) -> Option<Deadline> {
    match index_of_char(s, '-') {
        Some(i) if (s.skip(i + 1 as int).len() > 0 && (s[i + 1 as int] == 'Q' || s[i + 1 as int]
            == 'q')) => {
            match (parse_unsigned(s.take(i as int), 0xffff), parse_unsigned(s.skip(i + 2 as int), 0xff)) {
                (Some(y), Some(q)) => if 1 <= q <= 4 {
                    Some(Deadline { year: y as u16, month: quarter_end(q).0, day: quarter_end(q).1 })
                } else {
                    None
                },
                _ => None,
            }
        },
        Some(i) => {
            let rest = s.skip(i + 1 as int);
            match index_of_char(rest, '-') {
                Some(j) => match (
                    parse_unsigned(s.take(i as int), 0xffff),
                    parse_unsigned(rest.take(j as int), 0xff),
                    parse_unsigned(rest.skip(j + 1 as int), 0xff),
                ) {
                    (Some(y), Some(m), Some(d)) => if 1 <= m <= 12 && 1 <= d <= 31 {
                        Some(Deadline { year: y as u16, month: m as u8, day: d as u8 })
                    } else {
                        None
                    },
                    _ => None,
                },
                None => None,
            }
        },
        None => None,
    }
}

/// What [`parse_deadline`] returns for `s`.
pub open spec fn deadline_of(s: Seq<char>) -> Option<Deadline> {
    deadline_of_trimmed(trim(s))
}

/// The text of a deadline with a real month (1 to 12) and day (1 to 31)
/// parses back to the same deadline.
pub proof fn lemma_deadline_text_roundtrip(d: Deadline)
    requires
        1 <= d.month <= 12,
        1 <= d.day <= 31,
    ensures
        deadline_of(deadline_text(d)) == Some(d),
{
    let ys = zero_padded(d.year as int, 4);
    let ms = zero_padded(d.month as int, 2);
    let ds = zero_padded(d.day as int, 2);
    lemma_zero_padded_digits(d.year as nat, 4);
    lemma_zero_padded_digits(d.month as nat, 2);
    lemma_zero_padded_digits(d.day as nat, 2);
    lemma_parse_zero_padded(d.year as nat, 4, 0xffff);
    lemma_parse_zero_padded(d.month as nat, 2, 0xff);
    lemma_parse_zero_padded(d.day as nat, 2, 0xff);
    let t = deadline_text(d);
    assert(t =~= ys + seq!['-'] + ms + seq!['-'] + ds);
    assert(is_ascii_digit(ys[0]));
    assert(t[0] == ys[0]);
    assert(t.last() == ds.last());
    assert(is_ascii_digit(ds[ds.len() - 1]));
    assert(trim_start(t) == t);
    assert(trim_end(t) == t);
    let i = ys.len() as int;
    assert forall|j: int| 0 <= j < i implies t[j] != '-' by {
        assert(t[j] == ys[j]);
        assert(is_ascii_digit(ys[j]));
    }
    lemma_index_of_char_at(t, '-', i);
    assert(t.take(i) =~= ys);
    let rest = t.skip(i + 1);
    assert(rest =~= ms + seq!['-'] + ds);
    assert(rest[0] == ms[0]);
    assert(is_ascii_digit(ms[0]));
    let j = ms.len() as int;
    assert forall|q: int| 0 <= q < j implies rest[q] != '-' by {
        assert(rest[q] == ms[q]);
        assert(is_ascii_digit(ms[q]));
    }
    lemma_index_of_char_at(rest, '-', j);
    assert(rest.take(j) =~= ms);
    assert(rest.skip(j + 1) =~= ds);
}

/// Parse a deadline from text: `YYYY-MM-DD` or `YYYY-QN` (quarter end),
/// surrounded by optional white space.
pub fn parse_deadline(s: &str) -> (res: Option<Deadline>)
    ensures
        res == deadline_of(s@),
{
    let cs = chars_of(s);
    parse_deadline_chars(&cs)
}

/// [`parse_deadline`] on characters.
pub fn parse_deadline_chars(s: &[char]) -> (res: Option<Deadline>)
    ensures
        res == deadline_of(s@),
{
    let t = trim_chars(s);
    let ghost ts = t@;
    match index_of_char_exec(&t, '-') {
        Some(i) => {
            proof {
                lemma_index_of_char(ts, '-');
            }
            if i + 1 < t.len() && (t[i + 1] == 'Q' || t[i + 1] == 'q') {
                let year_s = sub_chars(&t, 0, i);
                let q_s = sub_chars(&t, i + 2, t.len());
                assert(year_s@ =~= ts.take(i as int));
                assert(q_s@ =~= ts.skip(i + 2 as int));
                let year = parse_unsigned_exec(&year_s, 0xffff);
                let q = parse_unsigned_exec(&q_s, 0xff);
                match (year, q) {
                    (Some(y), Some(q)) => {
                        if 1 <= q && q <= 4 {
                            let (month, day): (u8, u8) = if q == 1 {
                                (3, 31)
                            } else if q == 2 {
                                (6, 30)
                            } else if q == 3 {
                                (9, 30)
                            } else {
                                (12, 31)
                            };
                            Some(Deadline { year: y as u16, month, day })
                        } else {
                            None
                        }
                    },
                    _ => None,
                }
            } else {
                let rest = sub_chars(&t, i + 1, t.len());
                assert(rest@ =~= ts.skip(i + 1 as int));
                match index_of_char_exec(&rest, '-') {
                    Some(j) => {
                        proof {
                            lemma_index_of_char(rest@, '-');
                        }
                        let year_s = sub_chars(&t, 0, i);
                        let month_s = sub_chars(&rest, 0, j);
                        let day_s = sub_chars(&rest, j + 1, rest.len());
                        assert(year_s@ =~= ts.take(i as int));
                        assert(month_s@ =~= rest@.take(j as int));
                        assert(day_s@ =~= rest@.skip(j + 1 as int));
                        let y = parse_unsigned_exec(&year_s, 0xffff);
                        let m = parse_unsigned_exec(&month_s, 0xff);
                        let d = parse_unsigned_exec(&day_s, 0xff);
                        match (y, m, d) {
                            (Some(y), Some(m), Some(d)) => {
                                if 1 <= m && m <= 12 && 1 <= d && d <= 31 {
                                    Some(Deadline { year: y as u16, month: m as u8, day: d as u8 })
                                } else {
                                    None
                                }
                            },
                            _ => None,
                        }
                    },
                    None => None,
                }
            }
        },
        None => None,
    }
}

/// Today's date in UTC, from the `time` crate's clock: a month from 1 to 12
/// and a day from 1 to 31 (the year as the clock gives it, in 16 bits).
pub fn today() -> (res: Deadline)
    ensures
        1 <= res.month <= 12,
        1 <= res.day <= 31,
{
    let (y, m, d) = utc_today();
    Deadline { year: y as u16, month: m, day: d }
}

/// `time::OffsetDateTime::now_utc()`: the current UTC date as (year, month,
/// day).  Which date it is depends on the clock; stated is only what the
/// `time` crate documents of every date: `Month` numbers January to
/// December as 1 to 12, and `day()` lies in `1..=31`.  Nothing is stated of
/// the year.
#[verifier::external_body]
fn utc_today() -> (res: (i32, u8, u8))
    ensures
        1 <= res.1 <= 12,
        1 <= res.2 <= 31,
{
    let now = time::OffsetDateTime::now_utc();
    (now.year(), now.month() as u8, now.day())
}

} // verus!
