use rustysync::{parse_byte_count, parse_progress, ProgressRecords};

#[test]
fn parses_progress_and_rejects_diagnostics() {
    assert_eq!(parse_progress(b" 1,234 10% 2.0MB/s"), Some(1234));
    assert_eq!(parse_progress(b" 0 0% 0.0kB/s"), Some(0));
    assert_eq!(parse_progress(b"123 files to consider"), None);
    assert_eq!(parse_progress(b""), None);
}

#[test]
fn progress_edge_cases() {
    assert_eq!(parse_progress(b"5 100%"), Some(5));
    assert_eq!(parse_progress(b"5 101%"), None);
    assert_eq!(parse_progress(b"5 +7%"), Some(5));
    assert_eq!(parse_progress(b"+5 7%"), None);
    assert_eq!(parse_progress(b", 7%"), None);
    assert_eq!(parse_progress(b"1,2,3 7%"), Some(123));
    assert_eq!(parse_progress(b"18446744073709551616 7%"), None);
    assert_eq!(parse_progress(b"\xff 7%"), None);
    assert_eq!(parse_progress("12\u{a0}7%".as_bytes()), Some(12));
    assert_eq!(parse_progress(b"12 7"), None);
}

#[test]
fn records_split_on_carriage_return_and_line_feed() {
    let mut records = ProgressRecords::new();
    let mut counts = Vec::new();
    for &byte in b"  1,000 1%\r  2,000 2%\nhello\r" {
        if let Some(n) = records.push_byte(byte) {
            counts.push(n);
        }
    }
    for &byte in b" 3,000 3%" {
        assert_eq!(records.push_byte(byte), None);
    }
    assert_eq!(counts, vec![1000, 2000]);
    assert_eq!(records.finish(), Some(3000));
}

#[test]
fn byte_count_file_is_trimmed() {
    assert_eq!(parse_byte_count(" 4096\n"), Some(4096));
    assert_eq!(parse_byte_count(""), None);
    assert_eq!(parse_byte_count("4 096"), None);
}
