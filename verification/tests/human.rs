use gage::human::{format_duration, format_elapsed_ms, format_elapsed_since};

#[test]
fn elapsed_units() {
    let now = 1_000_000_000_000;
    assert_eq!(format_elapsed_since(now, now), "0s ago");
    assert_eq!(format_elapsed_since(now, now - 59_999), "59s ago");
    assert_eq!(format_elapsed_since(now, now - 60_000), "1m ago");
    assert_eq!(format_elapsed_since(now, now - 3_599_999), "59m ago");
    assert_eq!(format_elapsed_since(now, now - 3_600_000), "1h ago");
    assert_eq!(format_elapsed_since(now, now - 86_399_999), "23h ago");
    assert_eq!(format_elapsed_since(now, now - 86_400_000), "1d ago");
    assert_eq!(format_elapsed_since(now, now - 30 * 86_400_000), "30d ago");
}

#[test]
fn elapsed_future() {
    let now = 1_000_000_000_000;
    assert_eq!(format_elapsed_since(now, now + 999), "0s ago");
    assert_eq!(format_elapsed_since(now, now + 1_000), "future");
}

#[test]
fn elapsed_extremes_do_not_overflow() {
    assert_eq!(format_elapsed_since(i64::MAX, i64::MIN), "213503982334d ago");
    assert_eq!(format_elapsed_since(0, i64::MAX), "future");
}

#[test]
fn elapsed_against_clock() {
    assert_eq!(format_elapsed_ms(0).ends_with("d ago"), true);
    assert_eq!(format_elapsed_ms(i64::MAX), "future");
}

#[test]
fn durations() {
    assert_eq!(format_duration(0), "00:00:00");
    assert_eq!(format_duration(59), "00:00:59");
    assert_eq!(format_duration(3_661), "01:01:01");
    assert_eq!(format_duration(86_399), "23:59:59");
    assert_eq!(format_duration(86_400), "01:00:00:00");
    assert_eq!(format_duration(100 * 86_400 + 5), "100:00:00:05");
}
