use todo_scan::date_utils::{days_to_ymd, format_iso8601_utc, now_iso8601, ymd_to_days};


#[test]
fn days_to_ymd_epoch_zero() {
    assert_eq!(days_to_ymd(0), (1970, 1, 1));
}


#[test]
fn days_to_ymd_known_date() {
    // 2024-01-01 is 19723 days after epoch
    assert_eq!(days_to_ymd(19723), (2024, 1, 1));
}


#[test]
fn days_to_ymd_negative_days() {
    // 1969-12-31 is day -1
    assert_eq!(days_to_ymd(-1), (1969, 12, 31));
}


#[test]
fn ymd_to_days_epoch() {
    assert_eq!(ymd_to_days(1970, 1, 1), 0);
}


#[test]
fn ymd_to_days_known_date() {
    assert_eq!(ymd_to_days(2024, 1, 1), 19723);
}


#[test]
fn roundtrip_days_ymd() {
    for days in [-365, -1, 0, 1, 365, 10000, 19723, 20000] {
        let (y, m, d) = days_to_ymd(days);
        assert_eq!(
            ymd_to_days(y, m, d),
            days,
            "roundtrip failed for day {days}"
        );
    }
}


#[test]
fn format_iso8601_utc_epoch_zero() {
    assert_eq!(format_iso8601_utc(0), "1970-01-01T00:00:00Z");
}


#[test]
fn format_iso8601_utc_known_timestamp() {
    // 2024-01-01 11:50:45 UTC = 1704109845
    assert_eq!(format_iso8601_utc(1704109845), "2024-01-01T11:50:45Z");
}


#[test]
fn now_iso8601_format() {
    let ts = now_iso8601();
    assert!(ts.ends_with('Z'), "should end with Z: {ts}");
    assert_eq!(ts.len(), 20, "ISO-8601 UTC should be 20 chars: {ts}");
    assert!(ts.contains('T'), "should contain T separator: {ts}");
}
