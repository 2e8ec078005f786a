use binance_pnl::clock::{
    day_end_millis, day_start_millis, get_timestamp, parse_date, request_timestamp,
    timestamp_from_time, utc_from_millis, utc_from_secs, LAST_UTC_SECOND,
};

#[test]
fn seconds_have_a_calendar_text() {
    assert_eq!(utc_from_secs(0), "1970-01-01 00:00:00 UTC");
    assert_eq!(utc_from_secs(1_705_329_121), "2024-01-15 14:32:01 UTC");
    assert_eq!(utc_from_secs(253_402_300_799), "9999-12-31 23:59:59 UTC");
}

#[test]
fn the_last_second_still_has_a_text() {
    assert_eq!(utc_from_secs(LAST_UTC_SECOND), "+262142-12-31 23:59:59 UTC");
}

#[test]
fn milliseconds_are_cut_to_seconds() {
    assert_eq!(utc_from_millis(1_704_067_200_999), "2024-01-01 00:00:00 UTC");
}

#[test]
fn timestamps_keep_the_low_bits() {
    assert_eq!(timestamp_from_time(Some((18_446_744_073_709_551, 621_000_000))), Some(5));
    assert_eq!(timestamp_from_time(None), None);
}

#[test]
fn timestamps_are_whole_milliseconds() {
    assert_eq!(timestamp_from_time(Some((1_700_000_000, 0))), Some(1_700_000_000_000));
    assert_eq!(timestamp_from_time(Some((1_700_000_000, 999_999_999))), Some(1_700_000_000_999));
    assert_eq!(timestamp_from_time(Some((0, 999_999))), Some(0));
}

#[test]
fn the_local_clock_is_past_2020() {
    assert!(get_timestamp().unwrap() > 1_577_836_800_000);
}

#[test]
fn the_exchange_clock_comes_first() {
    assert_eq!(request_timestamp(Some(7)), Some(7));
    assert!(request_timestamp(None).unwrap() > 1_577_836_800_000);
}

#[test]
fn dates_span_their_day() {
    let first = parse_date("2024-01-01").unwrap();
    let last = parse_date("2024-03-31").unwrap();
    assert_eq!(day_start_millis(&first), 1_704_067_200_000);
    assert_eq!(day_end_millis(&last), 1_711_843_200_000 + 86_399_999);
    let end = parse_date("9999-12-31").unwrap();
    assert_eq!(day_start_millis(&end), 253_402_214_400_000);
    let epoch = parse_date("1970-01-01").unwrap();
    assert_eq!(day_start_millis(&epoch), 0);
    let before = parse_date("1969-12-31").unwrap();
    assert_eq!((day_start_millis(&before), day_end_millis(&before)), (-86_400_000, -1));
    let zero = parse_date("0000-01-01").unwrap();
    assert_eq!(day_start_millis(&zero), -719_528 * 86_400_000);
}

#[test]
fn a_date_ends_where_the_next_one_starts() {
    for (a, b) in [
        ("2024-02-28", "2024-02-29"),
        ("2024-02-29", "2024-03-01"),
        ("2023-12-31", "2024-01-01"),
        ("2100-02-28", "2100-03-01"),
        ("2000-02-29", "2000-03-01"),
        ("1969-12-31", "1970-01-01"),
        ("1900-02-28", "1900-03-01"),
        ("0000-02-29", "0000-03-01"),
    ] {
        let a = parse_date(a).unwrap();
        let b = parse_date(b).unwrap();
        assert_eq!(day_end_millis(&a) + 1, day_start_millis(&b));
    }
}

#[test]
fn impossible_dates_are_refused() {
    for text in [
        "", "2024-1-1", "2024-13-01", "2024-00-10", "2023-02-29", "2100-02-29", "2024-04-31",
        "2024-01-00", "1969-12-32", "2024/01/01", "2024-01-0a", "2024-01-011", "２024-01-01",
    ] {
        assert!(parse_date(text).is_none(), "{}", text);
    }
}
