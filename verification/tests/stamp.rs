use comrade::stamp::{parse_timestamp, Timestamp};

#[test]
fn parses_a_full_timestamp() {
    let ts = parse_timestamp("Fri Apr 29 17:25:01 2022").unwrap();
    assert_eq!(
        ts,
        Timestamp { year: 2022, month: 4, day: 29, hour: 17, minute: 25, second: 1 }
    );
}

#[test]
fn accepts_single_digit_day_and_time() {
    let ts = parse_timestamp("Mon Jan 1 0:5:9 2001").unwrap();
    assert_eq!(
        ts,
        Timestamp { year: 2001, month: 1, day: 1, hour: 0, minute: 5, second: 9 }
    );
}

#[test]
fn rejects_unknown_weekday_or_month() {
    assert!(parse_timestamp("Xyz Apr 29 17:25:01 2022").is_none());
    assert!(parse_timestamp("Fri Abc 29 17:25:01 2022").is_none());
}

#[test]
fn rejects_impossible_calendar_days() {
    assert!(parse_timestamp("Fri Apr 31 17:25:01 2022").is_none());
    assert!(parse_timestamp("Mon Feb 29 10:00:00 2021").is_none());
}

#[test]
fn accepts_leap_day_in_leap_years() {
    assert!(parse_timestamp("Tue Feb 29 10:00:00 2000").is_some());
    assert!(parse_timestamp("Mon Feb 29 10:00:00 1900").is_none());
}

#[test]
fn rejects_weekday_that_does_not_match_the_date() {
    assert!(parse_timestamp("Mon Apr 29 17:25:01 2022").is_none());
    assert!(parse_timestamp("Sat Apr 30 17:25:01 2022").is_some());
}

#[test]
fn rejects_out_of_range_clock_fields() {
    assert!(parse_timestamp("Fri Apr 29 24:00:00 2022").is_none());
    assert!(parse_timestamp("Fri Apr 29 17:60:00 2022").is_none());
    assert!(parse_timestamp("Fri Apr 29 17:25:60 2022").is_none());
}

#[test]
fn rejects_malformed_shapes() {
    assert!(parse_timestamp("").is_none());
    assert!(parse_timestamp("Fri Apr 29 17:25:01").is_none());
    assert!(parse_timestamp("Fri Apr 29 17:25:01 22").is_none());
    assert!(parse_timestamp("Fri Apr 29 172501 2022").is_none());
    assert!(parse_timestamp("Fri  Apr 29 17:25:01 2022").is_none());
}
