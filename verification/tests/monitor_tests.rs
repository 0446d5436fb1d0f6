use disk_monitor::monitor::{evaluate_cycle, parse_watch_list, MonitorConfig};
use disk_monitor::percent::parse_threshold;
use disk_monitor::sampler::UsageRecord;

fn record(filesystem: &str, avail: &str, used_percent: &str) -> UsageRecord {
    UsageRecord {
        filesystem: filesystem.to_string(),
        avail: avail.to_string(),
        used_percent: used_percent.to_string(),
    }
}

fn config(watch: &[&str], threshold: &str) -> MonitorConfig {
    MonitorConfig {
        watch_list: watch.iter().map(|s| s.to_string()).collect(),
        threshold_hundredths: parse_threshold(threshold).unwrap(),
        trigger_interval_secs: 60,
        warning_interval_secs: 3600,
    }
}

#[test]
fn over_threshold_record_triggers_exactly_one_notification() {
    let records = vec![record("/dev/sda1", "12G", "85%")];
    let cfg = config(&["/dev/sda1"], "80.0");
    let decision = evaluate_cycle(&records, &cfg).unwrap();
    assert_eq!(decision.notifications.len(), 1);
    assert_eq!(decision.notifications[0].filesystem, "/dev/sda1");
    assert_eq!(decision.notifications[0].used_percent, "85%");
    assert_eq!(decision.notifications[0].message, "WARNING: /dev/sda1: used 85%");
}

#[test]
fn under_threshold_record_triggers_nothing() {
    let records = vec![record("/dev/sda1", "12G", "50%")];
    let cfg = config(&["/dev/sda1"], "80.0");
    let decision = evaluate_cycle(&records, &cfg).unwrap();
    assert_eq!(decision.notifications.len(), 0);
}

#[test]
fn threshold_comparison_is_at_or_over() {
    let records = vec![record("/dev/sda1", "12G", "80%")];
    let cfg = config(&["/dev/sda1"], "80.0");
    let decision = evaluate_cycle(&records, &cfg).unwrap();
    assert_eq!(decision.notifications.len(), 1);
}

#[test]
fn unwatched_filesystem_never_triggers() {
    let records = vec![record("/dev/sdb1", "1G", "99%"), record("/dev/sdc1", "1G", "100%")];
    let cfg = config(&["/dev/sda1"], "1.0");
    let decision = evaluate_cycle(&records, &cfg).unwrap();
    assert_eq!(decision.notifications.len(), 0);
}

#[test]
fn warning_cycle_sleeps_for_the_warning_interval() {
    let records = vec![record("/dev/sda1", "12G", "85%")];
    let cfg = config(&["/dev/sda1"], "80.0");
    let decision = evaluate_cycle(&records, &cfg).unwrap();
    assert_eq!(decision.sleep_secs, 3600);
}

#[test]
fn quiet_cycle_sleeps_for_the_trigger_interval() {
    let records = vec![record("/dev/sda1", "12G", "50%")];
    let cfg = config(&["/dev/sda1"], "80.0");
    let decision = evaluate_cycle(&records, &cfg).unwrap();
    assert_eq!(decision.sleep_secs, 60);
}

#[test]
fn notifications_keep_sample_order() {
    let records = vec![
        record("fs1", "1G", "90%"),
        record("fs2", "1G", "10%"),
        record("fs3", "1G", "95%"),
    ];
    let cfg = config(&["fs1", "fs2", "fs3"], "50");
    let decision = evaluate_cycle(&records, &cfg).unwrap();
    assert_eq!(decision.notifications.len(), 2);
    assert_eq!(decision.notifications[0].filesystem, "fs1");
    assert_eq!(decision.notifications[1].filesystem, "fs3");
}

#[test]
fn malformed_watched_percentage_is_fatal() {
    let records = vec![record("fs1", "1G", "10%"), record("fs2", "1G", "abc")];
    let cfg = config(&["fs1", "fs2"], "50");
    let err = evaluate_cycle(&records, &cfg).unwrap_err();
    assert_eq!(err.filesystem, "fs2");
    assert_eq!(err.used_percent, "abc");
}

#[test]
fn malformed_unwatched_percentage_is_ignored() {
    let records = vec![record("fs1", "1G", "garbage")];
    let cfg = config(&["other"], "50");
    let decision = evaluate_cycle(&records, &cfg).unwrap();
    assert_eq!(decision.notifications.len(), 0);
}

#[test]
fn watch_list_splits_on_commas() {
    let watch = parse_watch_list("/dev/sda1,/dev/sdb2");
    assert_eq!(watch, vec!["/dev/sda1".to_string(), "/dev/sdb2".to_string()]);
    assert_eq!(parse_watch_list(""), vec!["".to_string()]);
    assert_eq!(
        parse_watch_list("a,,b"),
        vec!["a".to_string(), "".to_string(), "b".to_string()]
    );
}
