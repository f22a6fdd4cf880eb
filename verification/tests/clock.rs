use rustsentry::clock::{label_or_micros, timestamp_label};

#[test]
fn report_label_is_utc_to_the_microsecond() {
    assert_eq!(timestamp_label(1_662_921_288_000_000), "2022-09-11 18:34:48.000000 UTC");
    assert_eq!(timestamp_label(1_234), "1970-01-01 00:00:00.001234 UTC");
    assert_eq!(timestamp_label(-1), "1969-12-31 23:59:59.999999 UTC");
}

#[test]
fn report_label_falls_back_to_micros_out_of_calendar_range() {
    assert_eq!(timestamp_label(i64::MAX), "9223372036854775807");
    assert_eq!(timestamp_label(i64::MIN), "-9223372036854775808");
}

#[test]
fn label_from_rendering_or_micros() {
    assert_eq!(label_or_micros(Some("x".to_string()), 5), "x");
    assert_eq!(label_or_micros(None, -42), "-42");
    assert_eq!(label_or_micros(None, 0), "0");
}
