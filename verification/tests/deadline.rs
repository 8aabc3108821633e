use todo_scan::deadline::{parse_deadline, Deadline};


#[test]
fn test_parse_date_format() {
    let d = parse_deadline("2025-06-01").unwrap();
    assert_eq!(d.year, 2025);
    assert_eq!(d.month, 6);
    assert_eq!(d.day, 1);
}


#[test]
fn test_parse_date_with_whitespace() {
    let d = parse_deadline("  2025-06-01  ").unwrap();
    assert_eq!(d.year, 2025);
    assert_eq!(d.month, 6);
    assert_eq!(d.day, 1);
}


#[test]
fn test_parse_quarter_q1() {
    let d = parse_deadline("2025-Q1").unwrap();
    assert_eq!(
        d,
        Deadline {
            year: 2025,
            month: 3,
            day: 31
        }
    );
}


#[test]
fn test_parse_quarter_q2() {
    let d = parse_deadline("2025-Q2").unwrap();
    assert_eq!(
        d,
        Deadline {
            year: 2025,
            month: 6,
            day: 30
        }
    );
}


#[test]
fn test_parse_quarter_q3() {
    let d = parse_deadline("2025-Q3").unwrap();
    assert_eq!(
        d,
        Deadline {
            year: 2025,
            month: 9,
            day: 30
        }
    );
}


#[test]
fn test_parse_quarter_q4() {
    let d = parse_deadline("2025-Q4").unwrap();
    assert_eq!(
        d,
        Deadline {
            year: 2025,
            month: 12,
            day: 31
        }
    );
}


#[test]
fn test_parse_quarter_lowercase() {
    let d = parse_deadline("2025-q2").unwrap();
    assert_eq!(
        d,
        Deadline {
            year: 2025,
            month: 6,
            day: 30
        }
    );
}


#[test]
fn test_parse_invalid_quarter() {
    assert!(parse_deadline("2025-Q5").is_none());
    assert!(parse_deadline("2025-Q0").is_none());
}


#[test]
fn test_parse_invalid_month() {
    assert!(parse_deadline("2025-13-01").is_none());
    assert!(parse_deadline("2025-00-01").is_none());
}


#[test]
fn test_parse_invalid_day() {
    assert!(parse_deadline("2025-06-00").is_none());
    assert!(parse_deadline("2025-06-32").is_none());
}


#[test]
fn test_parse_garbage() {
    assert!(parse_deadline("not-a-date").is_none());
    assert!(parse_deadline("").is_none());
    assert!(parse_deadline("alice").is_none());
}


#[test]
fn test_is_expired_past_date() {
    let deadline = Deadline {
        year: 2025,
        month: 1,
        day: 1,
    };
    let today = Deadline {
        year: 2025,
        month: 6,
        day: 15,
    };
    assert!(deadline.is_expired(&today));
}


#[test]
fn test_is_expired_same_date() {
    let deadline = Deadline {
        year: 2025,
        month: 6,
        day: 15,
    };
    let today = Deadline {
        year: 2025,
        month: 6,
        day: 15,
    };
    assert!(!deadline.is_expired(&today));
}


#[test]
fn test_is_expired_future_date() {
    let deadline = Deadline {
        year: 2025,
        month: 12,
        day: 31,
    };
    let today = Deadline {
        year: 2025,
        month: 6,
        day: 15,
    };
    assert!(!deadline.is_expired(&today));
}


#[test]
fn test_display() {
    let d = Deadline {
        year: 2025,
        month: 6,
        day: 1,
    };
    assert_eq!(d.to_string(), "2025-06-01");
}


#[test]
fn test_display_padded() {
    let d = Deadline {
        year: 2025,
        month: 1,
        day: 5,
    };
    assert_eq!(d.to_string(), "2025-01-05");
}

#[test]
fn today_is_a_calendar_date() {
    let t = todo_scan::deadline::today();
    assert!(1 <= t.month && t.month <= 12);
    assert!(1 <= t.day && t.day <= 31);
    assert!(t.year >= 2024);
}
