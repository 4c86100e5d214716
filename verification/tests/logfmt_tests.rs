use fuse_access_guard::logfmt::days_to_date;
use fuse_access_guard::logfmt::format_denied_line;
use fuse_access_guard::logfmt::humanize_timestamp;
use fuse_access_guard::logfmt::pad2;
use fuse_access_guard::logfmt::pad4;
use fuse_access_guard::logfmt::u64_to_dec;
use fuse_access_guard::rules::Operation;

#[test]
fn test_timestamp_format() {
    let ts = humanize_timestamp(0);
    assert_eq!(ts, "1970-01-01T00:00:00Z");
}

#[test]
fn test_log_format() {
    let output = format_denied_line(0, 1234, "cat", "/home/user/.env", Operation::Read);
    assert!(output.starts_with("[DENIED] "));
    assert!(output.contains("pid=1234"));
    assert!(output.contains("proc=cat"));
    assert!(output.contains("op=read"));
    assert!(output.contains("path=/home/user/.env"));
}

#[test]
fn test_file_output() {
    let content = format_denied_line(0, 42, "bash", "/etc/shadow", Operation::Read);
    assert!(content.contains("[DENIED]"));
    assert!(content.contains("pid=42"));
}

#[test]
fn test_denial_line_exact() {
    let line = format_denied_line(0, 7, "pid:7", "/w/secret.txt", Operation::Write);
    assert_eq!(line, "[DENIED] 1970-01-01T00:00:00Z pid=7 proc=pid:7 op=write path=/w/secret.txt\n");
}

#[test]
fn test_denial_line_execute() {
    let line = format_denied_line(61, 1, "pid:1", "/x", Operation::Execute);
    assert_eq!(line, "[DENIED] 1970-01-01T00:01:01Z pid=1 proc=pid:1 op=execute path=/x\n");
}

#[test]
fn test_days_to_date_known_dates() {
    assert_eq!(days_to_date(0), (1970, 1, 1));
    assert_eq!(days_to_date(30), (1970, 1, 31));
    assert_eq!(days_to_date(31), (1970, 2, 1));
    assert_eq!(days_to_date(365), (1971, 1, 1));
    // 1972 is the first leap year after the epoch.
    assert_eq!(days_to_date(365 + 365 + 31 + 28), (1972, 2, 29));
    assert_eq!(days_to_date(365 + 365 + 31 + 29), (1972, 3, 1));
    // 2000 is a leap year although it is a century year.
    assert_eq!(days_to_date(11016), (2000, 2, 29));
    // 2100 is not a leap year.
    assert_eq!(days_to_date(47540), (2100, 2, 28));
    assert_eq!(days_to_date(47541), (2100, 3, 1));
}

#[test]
fn test_timestamp_mid_day() {
    // 2024-02-29 is day 19782 after the epoch.
    let secs = 19782u64 * 86400 + 13 * 3600 + 5 * 60 + 59;
    assert_eq!(humanize_timestamp(secs), "2024-02-29T13:05:59Z");
}

#[test]
fn test_decimal_rendering() {
    assert_eq!(u64_to_dec(0), "0");
    assert_eq!(u64_to_dec(9), "9");
    assert_eq!(u64_to_dec(10), "10");
    assert_eq!(u64_to_dec(90217), "90217");
    assert_eq!(pad2(0), "00");
    assert_eq!(pad2(7), "07");
    assert_eq!(pad2(59), "59");
    assert_eq!(pad4(3), "0003");
    assert_eq!(pad4(42), "0042");
    assert_eq!(pad4(999), "0999");
    assert_eq!(pad4(1970), "1970");
    assert_eq!(pad4(10241), "10241");
}
