use gage::datetime::{clock_millis, epoch_days_to_ymd, ms_to_iso8601, now_ms, ymd_to_epoch_days};

#[test]
fn epoch_day_zero_is_1970_01_01() {
    assert_eq!(epoch_days_to_ymd(0), (1970, 1, 1));
    assert_eq!(ymd_to_epoch_days(1970, 1, 1), 0);
}

#[test]
fn epoch_days_known_dates() {
    assert_eq!(epoch_days_to_ymd(11017), (2000, 3, 1));
    assert_eq!(epoch_days_to_ymd(19782), (2024, 2, 29));
    assert_eq!(epoch_days_to_ymd(10956), (1999, 12, 31));
    assert_eq!(epoch_days_to_ymd(2932896), (9999, 12, 31));
    assert_eq!(ymd_to_epoch_days(2000, 3, 1), 11017);
    assert_eq!(ymd_to_epoch_days(2024, 2, 29), 19782);
    assert_eq!(ymd_to_epoch_days(2024, 12, 31), 20088);
}

#[test]
fn month_thirteen_is_next_january() {
    assert_eq!(ymd_to_epoch_days(2024, 13, 1), 20089);
    assert_eq!(ymd_to_epoch_days(2025, 1, 1), 20089);
}

#[test]
fn epoch_days_roundtrip_over_range() {
    for days in 0..200_000u64 {
        let (y, m, d) = epoch_days_to_ymd(days);
        assert!((1..=12).contains(&m));
        assert!(d >= 1 && d <= 31);
        assert_eq!(ymd_to_epoch_days(y, m, d), days);
    }
}

#[test]
fn epoch_days_largest_input() {
    let (y, m, d) = epoch_days_to_ymd(u64::MAX - 719_468);
    assert_eq!(ymd_to_epoch_days(y, m, d), u64::MAX - 719_468);
}

#[test]
fn iso8601_known_instants() {
    assert_eq!(ms_to_iso8601(0), "1970-01-01T00:00:00.000Z");
    assert_eq!(ms_to_iso8601(1725029869123), "2024-08-30T14:57:49.123Z");
    assert_eq!(ms_to_iso8601(951782400000), "2000-02-29T00:00:00.000Z");
    assert_eq!(ms_to_iso8601(253402300799999), "9999-12-31T23:59:59.999Z");
}

#[test]
fn iso8601_negative_millis_wrap() {
    assert_eq!(ms_to_iso8601(-1), "584554051223-11-09T07:00:15.999Z");
}

#[test]
fn now_is_after_2020() {
    assert!(now_ms() > 1_577_836_800_000);
}

#[test]
fn clock_readings_convert_saturating() {
    assert_eq!(clock_millis(None), 0);
    assert_eq!(clock_millis(Some(1_700_000_000_123)), 1_700_000_000_123);
    assert_eq!(clock_millis(Some(i64::MAX as u128)), i64::MAX);
    assert_eq!(clock_millis(Some(u128::MAX)), i64::MAX);
}
