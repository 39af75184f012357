//! The `--since` argument.

use agentmux::cli::{parse_since, parse_span, resolve_since};
use agentmux::time::Timestamp;
use chrono::TimeZone;

fn instant(month: u32, day: u32, hour: u32) -> Timestamp {
    let time = chrono::Utc
        .with_ymd_and_hms(2026, month, day, hour, 0, 0)
        .single()
        .expect("测试时间应有效");
    Timestamp::new(time.timestamp(), 0).expect("on the calendar")
}

fn now() -> Timestamp {
    let time = chrono::Utc::now();
    Timestamp::new(time.timestamp(), time.timestamp_subsec_nanos()).expect("on the calendar")
}

#[test]
fn parses_supported_since_formats() {
    let now = instant(7, 10, 12);
    assert_eq!(parse_since("24h", now).expect("相对时间应有效"), instant(7, 9, 12));
    assert_eq!(parse_since("2026-07-01", now).expect("日期应有效"), instant(7, 1, 0));
    assert!(parse_since("2026-07-01T08:00:00+08:00", now).is_ok());
}

#[test]
fn rejects_invalid_since_value() {
    assert!(parse_since("soon", now()).is_err());
    assert!(parse_since("-1d", now()).is_err());
}

#[test]
fn every_unit_counts() {
    assert_eq!(parse_span("30m"), Some(1_800));
    assert_eq!(parse_span("24h"), Some(86_400));
    assert_eq!(parse_span("7d"), Some(604_800));
    assert_eq!(parse_span("4w"), Some(2_419_200));
    assert_eq!(parse_span("+5m"), Some(300));
    assert_eq!(parse_span("0w"), Some(0));
    assert_eq!(parse_span("m"), None);
    assert_eq!(parse_span(""), None);
    assert_eq!(parse_span("5s"), None);
    assert_eq!(parse_span("5 m"), None);
    assert_eq!(parse_span("-5m"), None);
    assert_eq!(parse_span("9223372036854775807w"), None);
    assert_eq!(parse_span("99999999999999999999d"), None);
}

#[test]
fn units_agree() {
    let now = instant(7, 10, 12);
    for n in [0u64, 1, 2, 3, 10, 1_000, 13_000_000, 15_250_284_452, 9_223_372_036_854_775_807] {
        let span = |n: u128, unit: &str| parse_span(&format!("{n}{unit}"));
        let n = u128::from(n);
        assert_eq!(span(n, "w"), span(7 * n, "d"));
        assert_eq!(span(n, "d"), span(24 * n, "h"));
        assert_eq!(span(n, "h"), span(60 * n, "m"));
        let since = |n: u128, unit: &str| parse_since(&format!("{n}{unit}"), now).ok();
        assert_eq!(since(n, "w"), since(7 * n, "d"));
        assert_eq!(since(n, "d"), since(24 * n, "h"));
        assert_eq!(since(n, "h"), since(60 * n, "m"));
    }
    assert_eq!(parse_since("0w", now), Ok(now));
    assert_eq!(parse_since("1w", now), Ok(instant(7, 3, 12)));
}

#[test]
fn offsets_are_converted_and_blanks_trimmed() {
    let now = instant(7, 10, 12);
    assert_eq!(
        parse_since("  2026-07-01T08:00:00+08:00\n", now).expect("valid"),
        instant(7, 1, 0)
    );
    let error = parse_since(" soon ", now).expect_err("not a time");
    assert_eq!(error.message(), "无效的 --since 值: soon");
    let error = parse_since("", now).expect_err("not a time");
    assert_eq!(error.message(), "无效的 --since 值: ");
}

#[test]
fn spans_stay_on_the_calendar() {
    let now = instant(7, 10, 12);
    assert!(parse_since("9000000000000m", now).is_err());
    let first = Timestamp::new(-8_334_601_228_800, 0).expect("the first instant");
    assert!(parse_since("1m", first).is_err());
    assert_eq!(parse_since("0m", first), Ok(first));
    assert!(Timestamp::new(-8_334_601_228_801, 0).is_none());
    assert!(Timestamp::new(8_210_266_876_799, 999_999_999).is_some());
    assert!(Timestamp::new(8_210_266_876_800, 0).is_none());
    assert!(Timestamp::new(59, 1_500_000_000).is_some());
    assert!(Timestamp::new(58, 1_500_000_000).is_none());
    assert!(Timestamp::new(0, 2_000_000_000).is_none());
}

#[test]
fn spans_leave_a_leap_second() {
    let leap = Timestamp::new(1_483_228_799, 1_500_000_000).expect("a leap second");
    assert_eq!(parse_since("0m", leap), Ok(leap));
    assert_eq!(
        parse_since("1m", leap),
        Ok(Timestamp::new(1_483_228_740, 500_000_000).expect("on the calendar"))
    );
}

#[test]
fn an_instant_comes_before_a_day_and_a_day_before_a_span() {
    let now = instant(7, 10, 12);
    let a = instant(1, 1, 0);
    let b = instant(2, 1, 0);
    assert_eq!(resolve_since("1h", Some(a), Some(b), now), Ok(a));
    assert_eq!(resolve_since("1h", None, Some(b), now), Ok(b));
    assert_eq!(resolve_since("1h", None, None, now), Ok(instant(7, 10, 11)));
    assert!(resolve_since("1x", None, None, now).is_err());
}
