use standx_dry_run_grid::messages::{
    auth_code, current_time_ns, parse_timestamp, parse_timestamp_value, retry_as_utc, route_message,
    stamp_from_nanos, timestamp_from_readings, MessageError, MessageRoute, TimeValue,
};

#[test]
fn rfc3339_with_zone_parses() {
    assert_eq!(parse_timestamp("1970-01-01T00:00:01Z").ok(), Some(1_000_000_000));
    assert_eq!(parse_timestamp("2024-01-01T00:00:00+00:00").ok(), Some(1_704_067_200_000_000_000));
    assert_eq!(parse_timestamp("1970-01-01T01:00:00+01:00").ok(), Some(0));
}

#[test]
fn missing_zone_is_read_as_utc() {
    assert_eq!(parse_timestamp("1970-01-01T00:00:02.5").ok(), Some(2_500_000_000));
}

#[test]
fn invalid_timestamp_is_refused_with_its_text() {
    match parse_timestamp("not a time") {
        Err(MessageError::InvalidTimestamp(t)) => assert_eq!(t, "not a time"),
        _ => panic!("expected InvalidTimestamp"),
    }
    match parse_timestamp("garbageZ") {
        Err(MessageError::InvalidTimestamp(t)) => assert_eq!(t, "garbageZ"),
        _ => panic!("expected InvalidTimestamp"),
    }
}

#[test]
fn timestamp_value_numbers_are_milliseconds() {
    assert_eq!(parse_timestamp_value(&TimeValue::Number(Some(1_500))).ok(), Some(1_500_000_000));
    assert_eq!(parse_timestamp_value(&TimeValue::Number(None)).ok(), Some(0));
    assert_eq!(parse_timestamp_value(&TimeValue::Number(Some(i64::MAX))).ok(), Some(i64::MAX));
    assert_eq!(parse_timestamp_value(&TimeValue::Number(Some(i64::MIN))).ok(), Some(i64::MIN));
    assert_eq!(parse_timestamp_value(&TimeValue::Other).ok(), Some(0));
    assert_eq!(
        parse_timestamp_value(&TimeValue::Text("1970-01-01T00:00:03Z".to_string())).ok(),
        Some(3_000_000_000)
    );
    assert!(parse_timestamp_value(&TimeValue::Text("x".to_string())).is_err());
}

#[test]
fn routes_by_channel() {
    let ch = |s: &str| Some(s.to_string());
    assert_eq!(route_message(&ch("depth_book"), None, true), MessageRoute::DepthBook);
    assert_eq!(route_message(&ch("depth_book"), None, false), MessageRoute::MissingData);
    assert_eq!(route_message(&ch("auth"), None, true), MessageRoute::Auth);
    assert_eq!(route_message(&ch("auth"), Some(5), false), MessageRoute::MissingData);
    assert_eq!(route_message(&ch("trades"), None, true), MessageRoute::UnknownData);
    assert_eq!(route_message(&ch("trades"), Some(3), false), MessageRoute::UnknownWhole);
    assert_eq!(route_message(&None, Some(401), false), MessageRoute::Error);
    assert_eq!(route_message(&None, Some(0), true), MessageRoute::UnknownData);
    assert_eq!(route_message(&None, Some(0), false), MessageRoute::UnknownWhole);
    assert_eq!(route_message(&None, None, true), MessageRoute::UnknownData);
    assert_eq!(route_message(&None, None, false), MessageRoute::UnknownWhole);
}

#[test]
fn auth_code_truncates_to_i32() {
    assert_eq!(auth_code(Some(200)), 200);
    assert_eq!(auth_code(None), 0);
    assert_eq!(auth_code(Some(1i64 << 32 | 7)), 7);
}

#[test]
fn stamps_from_clock_nanos() {
    assert_eq!(stamp_from_nanos(None), 0);
    assert_eq!(stamp_from_nanos(Some(42)), 42);
    assert_eq!(stamp_from_nanos(Some((1u128 << 64) + 5)), 5);
    let now = current_time_ns();
    assert!(now > 1_600_000_000_000_000_000);
}

#[test]
fn readings_combine_first_success() {
    assert_eq!(timestamp_from_readings("a", Some(Some(5)), Some(Some(9))).ok(), Some(5));
    assert_eq!(timestamp_from_readings("a", Some(None), None).ok(), Some(0));
    assert_eq!(timestamp_from_readings("a", None, Some(Some(9))).ok(), Some(9));
    assert_eq!(timestamp_from_readings("a", None, Some(None)).ok(), Some(0));
    match timestamp_from_readings("abc", None, None) {
        Err(MessageError::InvalidTimestamp(t)) => assert_eq!(t, "abc"),
        _ => panic!("expected InvalidTimestamp"),
    }
}

#[test]
fn utc_retry_rule() {
    assert!(retry_as_utc("2024-01-01T00:00:00"));
    assert!(!retry_as_utc("2024-01-01T00:00:00Z"));
    assert!(retry_as_utc(""));
    assert!(!retry_as_utc(&"1".repeat(64)));
    assert!(retry_as_utc(&"1".repeat(63)));
}
