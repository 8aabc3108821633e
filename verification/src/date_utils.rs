//! Calendar arithmetic (Howard Hinnant's civil-calendar algorithms) and
//! ISO-8601 formatting.
use vstd::prelude::*;

use crate::text::{push_zero_padded, string_from_chars, zero_padded};

verus! {

/// `civil_from_days`: the proleptic Gregorian (year, month, day) that lies
/// `days` days after 1970-01-01.  Divisions are floor divisions.
pub open spec fn civil_from_days(days: int) -> (int, int, int) {
    let z = days + 719468;
    let era = z / 146097;
    let doe = z - era * 146097;
    let yoe = (doe - doe / 1460 + doe / 36524 - doe / 146096) / 365;
    let y = yoe + era * 400;
    let doy = doe - (365 * yoe + yoe / 4 - yoe / 100);
    let mp = (5 * doy + 2) / 153;
    let d = doy - (153 * mp + 2) / 5 + 1;
    let m = if mp < 10 {
        mp + 3
    } else {
        mp - 9
    };
    (if m <= 2 {
        y + 1
    } else {
        y
    }, m, d)
}

/// `days_from_civil`: the number of days from 1970-01-01 to (year, month, day).
/// Divisions are floor divisions.
pub open spec fn days_from_civil(year: int, month: int, day: int) -> int {
    let y = if month <= 2 {
        year - 1
    } else {
        year
    };
    let m = if month <= 2 {
        month + 9
    } else {
        month - 3
    };
    let era = y / 400;
    let yoe = y - era * 400;
    let doy = (153 * m + 2) / 5 + day - 1;
    let doe = yoe * 365 + yoe / 4 - yoe / 100 + doy;
    era * 146097 + doe - 719468
}

/// Largest magnitude of a year that [`ymd_to_days`] accepts: beyond it the
/// day count leaves the range of `i64`.
pub open spec fn max_year() -> int {
    25_000_000_000_000_000
}

proof fn lemma_floor_div(z: int, d: int)
    requires
        d > 0,
    ensures
        0 <= z - (z / d) * d < d,
{
    assert(0 <= z - (z / d) * d < d) by (nonlinear_arith)
        requires
            d > 0,
    ;
}

/// Floor division of a negative number through a division of naturals.
proof fn lemma_neg_floor(z: int, d: int)
    requires
        z < 0,
        d > 0,
    ensures
        -((-z + d - 1) / d) == z / d,
{
    let q = (-z + d - 1) / d;
    lemma_floor_div(-z + d - 1, d);
    lemma_floor_div(z, d);
    let f = z / d;
    // z == -q * d + s with 0 <= s < d, and z == f * d + t with 0 <= t < d
    assert((f + q) * d == f * d + q * d) by (nonlinear_arith);
    assert(-d < (f + q) * d < d);
    assert(f + q == 0) by (nonlinear_arith)
        requires
            -d < (f + q) * d < d,
            d > 0,
    ;
}

/// Ranges of the intermediate values of `civil_from_days` within one era.
proof fn lemma_era_ranges(doe: int)
    requires
        0 <= doe < 146097,
    ensures
        ({
            let yoe = (doe - doe / 1460 + doe / 36524 - doe / 146096) / 365;
            let doy = doe - (365 * yoe + yoe / 4 - yoe / 100);
            let mp = (5 * doy + 2) / 153;
            let d = doy - (153 * mp + 2) / 5 + 1;
            &&& 0 <= yoe <= 399
            &&& 0 <= doy <= 365
            &&& 0 <= mp <= 11
            &&& 1 <= d <= 31
        }),
{
    let yoe = (doe - doe / 1460 + doe / 36524 - doe / 146096) / 365;
    assert(0 <= yoe <= 399) by (nonlinear_arith)
        requires
            0 <= doe < 146097,
            yoe == (doe - doe / 1460 + doe / 36524 - doe / 146096) / 365,
    ;
    let doy = doe - (365 * yoe + yoe / 4 - yoe / 100);
    assert(0 <= doy <= 365) by (nonlinear_arith)
        requires
            0 <= doe < 146097,
            yoe == (doe - doe / 1460 + doe / 36524 - doe / 146096) / 365,
            doy == doe - (365 * yoe + yoe / 4 - yoe / 100),
    ;
    let mp = (5 * doy + 2) / 153;
    assert(0 <= mp <= 11) by (nonlinear_arith)
        requires
            0 <= doy <= 365,
            mp == (5 * doy + 2) / 153,
    ;
    let d = doy - (153 * mp + 2) / 5 + 1;
    assert(1 <= d <= 31) by (nonlinear_arith)
        requires
            0 <= doy <= 365,
            mp == (5 * doy + 2) / 153,
            d == doy - (153 * mp + 2) / 5 + 1,
    ;
}

/// Converting a day count to a civil date and back gives the day count again
/// (`ymd_to_days` inverts `days_to_ymd`).
pub proof fn lemma_days_civil_roundtrip(days: int)
    ensures
        ({
            let ymd = civil_from_days(days);
            days_from_civil(ymd.0, ymd.1, ymd.2) == days
        }),
{
    let z = days + 719468;
    let era = z / 146097;
    lemma_floor_div(z, 146097);
    let doe = z - era * 146097;
    lemma_era_ranges(doe);
    let yoe = (doe - doe / 1460 + doe / 36524 - doe / 146096) / 365;
    let doy = doe - (365 * yoe + yoe / 4 - yoe / 100);
    let mp = (5 * doy + 2) / 153;
    let y0 = yoe + era * 400;
    assert(y0 / 400 == era) by (nonlinear_arith)
        requires
            y0 == yoe + era * 400,
            0 <= yoe <= 399,
    {
        assert(y0 - era * 400 == yoe);
    }
    let ymd = civil_from_days(days);
    assert(ymd.0 == (if mp < 10 { y0 } else { y0 + 1 }));
    assert(ymd.1 == (if mp < 10 { mp + 3 } else { mp - 9 }));
    let yy = if ymd.1 <= 2 { ymd.0 - 1 } else { ymd.0 };
    let mm = if ymd.1 <= 2 { ymd.1 + 9 } else { ymd.1 - 3 };
    assert(yy == y0);
    assert(mm == mp);
    assert(yy - (yy / 400) * 400 == yoe);
}

/// Convert days since the Unix epoch to (year, month, day).
pub fn days_to_ymd(days: i64) -> (res: (i64, u32, u32))
    requires
        days <= i64::MAX - 719468,
    ensures
        res.0 as int == civil_from_days(days as int).0,
        res.1 as int == civil_from_days(days as int).1,
        res.2 as int == civil_from_days(days as int).2,
        1 <= res.1 <= 12,
        1 <= res.2 <= 31,
{
    let z: i64 = days + 719468;
    let era: i64 = if z >= 0 {
        z / 146097
    } else {
        -((-z + 146096) / 146097)
    };
    proof {
        lemma_floor_div(z as int, 146097);
        if z < 0 {
            lemma_neg_floor(z as int, 146097);
        }
        assert(era == z as int / 146097);
    }
    let doe_i: i64 = z - era * 146097;
    let doe: u64 = doe_i as u64;
    proof {
        lemma_era_ranges(doe as int);
    }
    let yoe: u64 = (doe - doe / 1460 + doe / 36524 - doe / 146096) / 365;
    let y: i64 = yoe as i64 + era * 400;
    let doy: u64 = doe - (365 * yoe + yoe / 4 - yoe / 100);
    let mp: u64 = (5 * doy + 2) / 153;
    let d: u64 = doy - (153 * mp + 2) / 5 + 1;
    let m: u64 = if mp < 10 {
        mp + 3
    } else {
        mp - 9
    };
    let y = if m <= 2 {
        y + 1
    } else {
        y
    };
    (y, m as u32, d as u32)
}

/// Convert (year, month, day) to days since the Unix epoch (inverse of
/// [`days_to_ymd`] on real dates).
pub fn ymd_to_days(year: i64, month: u32, day: u32) -> (res: i64)
    requires
        -max_year() <= year <= max_year(),
        !(month == 3 && day == 0),
    ensures
        res as int == days_from_civil(year as int, month as int, day as int),
{
    let y: i64 = if month <= 2 {
        year - 1
    } else {
        year
    };
    let m: i64 = if month <= 2 {
        month as i64 + 9
    } else {
        month as i64 - 3
    };
    let era: i64 = if y >= 0 {
        y / 400
    } else {
        -((-y + 399) / 400)
    };
    proof {
        lemma_floor_div(y as int, 400);
        if y < 0 {
            lemma_neg_floor(y as int, 400);
        }
        assert(era == y as int / 400);
    }
    let yoe: u64 = (y - era * 400) as u64;
    assert(yoe < 400);
    let doy: u64 = (153 * m as u64 + 2) / 5 + day as u64 - 1;
    let doe: u64 = yoe * 365 + yoe / 4 - yoe / 100 + doy;
    assert(-62_500_000_000_001 <= era <= 62_500_000_000_001);
    assert(era * 146097 <= 62_500_000_000_001 * 146097 && era * 146097 >= -62_500_000_000_001
        * 146097) by (nonlinear_arith)
        requires
            -62_500_000_000_001 <= era <= 62_500_000_000_001,
    ;
    assert(doe <= 200_000_000_000);
    era * 146097 + doe as i64 - 719468
}

/// `YYYY-MM-DDTHH:MM:SSZ` for a number of seconds since the Unix epoch.
pub open spec fn iso8601_text(secs: nat) -> Seq<char> {
    let ymd = civil_from_days((secs / 86400) as int);
    let t = secs % 86400;
    zero_padded(ymd.0, 4) + seq!['-'] + zero_padded(ymd.1, 2) + seq!['-'] + zero_padded(ymd.2, 2)
        + seq!['T'] + zero_padded((t / 3600) as int, 2) + seq![':'] + zero_padded(((t % 3600) / 60) as int, 2)
        + seq![':'] + zero_padded((t % 60) as int, 2) + seq!['Z']
}

/// Format a Unix epoch timestamp (seconds) as an ISO-8601 UTC string.
pub fn format_iso8601_utc(epoch_secs: u64) -> (res: String)
    ensures
        res@ == iso8601_text(epoch_secs as nat),
{
    let days = epoch_secs / 86400;
    let (year, month, day) = days_to_ymd(days as i64);
    let secs_today = epoch_secs % 86400;
    let hour = secs_today / 3600;
    let minute = (secs_today % 3600) / 60;
    let second = secs_today % 60;
    let mut out: Vec<char> = Vec::new();
    push_zero_padded(&mut out, year, 4);
    out.push('-');
    push_zero_padded(&mut out, month as i64, 2);
    out.push('-');
    push_zero_padded(&mut out, day as i64, 2);
    out.push('T');
    push_zero_padded(&mut out, hour as i64, 2);
    out.push(':');
    push_zero_padded(&mut out, minute as i64, 2);
    out.push(':');
    push_zero_padded(&mut out, second as i64, 2);
    out.push('Z');
    assert(out@ =~= iso8601_text(epoch_secs as nat));
    string_from_chars(&out)
}

/// Seconds since the Unix epoch by the system clock
/// (`SystemTime::now().duration_since(UNIX_EPOCH)`, zero before the epoch).
/// It depends on the clock, so nothing is stated of it.
#[verifier::external_body]
pub(crate) fn now_epoch_secs() -> (res: u64) {
    std::time::SystemTime::now().duration_since(std::time::UNIX_EPOCH).unwrap_or_default().as_secs()
}

/// The current UTC time as an ISO-8601 string.
pub fn now_iso8601() -> (res: String)
    ensures
        exists|secs: u64| res@ == iso8601_text(secs as nat),
{
    let secs = now_epoch_secs();
    format_iso8601_utc(secs)
}

} // verus!
