use disk_monitor::percent::{parse_interval_secs, parse_threshold, parse_used_percent};

#[test]
fn used_percent_plain() {
    assert_eq!(parse_used_percent("85%"), Some(8500));
    assert_eq!(parse_used_percent("85"), Some(8500));
    assert_eq!(parse_used_percent("0%"), Some(0));
    assert_eq!(parse_used_percent("100%"), Some(10000));
}

#[test]
fn used_percent_fractional() {
    assert_eq!(parse_used_percent("12.5%"), Some(1250));
    assert_eq!(parse_used_percent("12.34%"), Some(1234));
    assert_eq!(parse_used_percent("12.349%"), Some(1234));
    assert_eq!(parse_used_percent(".5%"), Some(50));
    assert_eq!(parse_used_percent("7.%"), Some(700));
}

#[test]
fn used_percent_out_of_range() {
    assert_eq!(parse_used_percent("100.01%"), None);
    assert_eq!(parse_used_percent("101%"), None);
    assert_eq!(parse_used_percent("99999999999999999999%"), None);
}

#[test]
fn used_percent_malformed() {
    assert_eq!(parse_used_percent(""), None);
    assert_eq!(parse_used_percent("%"), None);
    assert_eq!(parse_used_percent("abc"), None);
    assert_eq!(parse_used_percent("8 5%"), None);
    assert_eq!(parse_used_percent("1.2.3%"), None);
    assert_eq!(parse_used_percent("-5%"), None);
    assert_eq!(parse_used_percent("85%%"), None);
}

#[test]
fn threshold_values() {
    assert_eq!(parse_threshold("1.0"), Some(100));
    assert_eq!(parse_threshold("80.5"), Some(8050));
    assert_eq!(parse_threshold("0"), Some(0));
    assert_eq!(parse_threshold("100"), Some(10000));
    assert_eq!(parse_threshold("50.123"), Some(5012));
}

#[test]
fn threshold_saturates_above_every_valid_percentage() {
    assert_eq!(parse_threshold("999999"), Some(10001));
    assert_eq!(parse_threshold("100.02"), Some(10001));
}

#[test]
fn threshold_malformed() {
    assert_eq!(parse_threshold(""), None);
    assert_eq!(parse_threshold("-1"), None);
    assert_eq!(parse_threshold("1e5"), None);
    assert_eq!(parse_threshold("x"), None);
    assert_eq!(parse_threshold("."), None);
}

#[test]
fn interval_values() {
    assert_eq!(parse_interval_secs("60"), Some(60));
    assert_eq!(parse_interval_secs("3600"), Some(3600));
    assert_eq!(parse_interval_secs("0"), Some(0));
    assert_eq!(parse_interval_secs("18446744073709551615"), Some(u64::MAX));
}

#[test]
fn interval_malformed() {
    assert_eq!(parse_interval_secs(""), None);
    assert_eq!(parse_interval_secs("1x"), None);
    assert_eq!(parse_interval_secs("6.0"), None);
    assert_eq!(parse_interval_secs("18446744073709551616"), None);
}
