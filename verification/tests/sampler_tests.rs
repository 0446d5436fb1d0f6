use disk_monitor::sampler::{parse_usage_output, SampleError};

const OUTPUT: &str = "Filesystem      Size  Used Avail Use% Mounted on\n\
/dev/sda1        100G   85G   15G  85% /\n\
tmpfs             16G     0G   16G   0% /tmp\n";

#[test]
fn one_record_per_data_line() {
    let records = parse_usage_output(OUTPUT).unwrap();
    assert_eq!(records.len(), 2);
    assert_eq!(records[0].filesystem, "/dev/sda1");
    assert_eq!(records[0].avail, "15G");
    assert_eq!(records[0].used_percent, "85%");
    assert_eq!(records[1].filesystem, "tmpfs");
    assert_eq!(records[1].avail, "16G");
    assert_eq!(records[1].used_percent, "0%");
}

#[test]
fn columns_found_by_name_not_position() {
    let reordered = "Use% Avail Filesystem\n91% 2G fs1\n";
    let records = parse_usage_output(reordered).unwrap();
    assert_eq!(records.len(), 1);
    assert_eq!(records[0].filesystem, "91%");
    assert_eq!(records[0].avail, "2G");
    assert_eq!(records[0].used_percent, "91%");
}

#[test]
fn short_lines_are_skipped() {
    let output = "Filesystem Avail Use%\nfs1 10G 85%\nfs2 1G\n\nfs3 3G 40%\n";
    let records = parse_usage_output(output).unwrap();
    assert_eq!(records.len(), 2);
    assert_eq!(records[0].filesystem, "fs1");
    assert_eq!(records[1].filesystem, "fs3");
    assert_eq!(records[1].avail, "3G");
    assert_eq!(records[1].used_percent, "40%");
}

#[test]
fn missing_avail_header_is_an_error() {
    let output = "Filesystem Size Use%\nfs1 10G 85%\n";
    assert_eq!(parse_usage_output(output).unwrap_err(), SampleError::MissingAvailColumn);
}

#[test]
fn missing_use_percent_header_is_an_error() {
    let output = "Filesystem Size Avail\nfs1 10G 2G\n";
    assert_eq!(parse_usage_output(output).unwrap_err(), SampleError::MissingUsePercentColumn);
}

#[test]
fn empty_output_is_an_error() {
    assert_eq!(parse_usage_output("").unwrap_err(), SampleError::MissingAvailColumn);
}

#[test]
fn header_only_output_yields_no_records() {
    let records = parse_usage_output("Filesystem Avail Use%\n").unwrap();
    assert!(records.is_empty());
}
