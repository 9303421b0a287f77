use rustysync::{parse_disk_stats, DiskStatsError, NumberError};

#[test]
fn preserves_write_counter_positions() {
    let contents = "259 0 nvme0n1 10 11 12 13 14 15 16 17 18 19 20 21 22 23 24 25 26\n";

    let stats = parse_disk_stats(contents, "nvme0n1").unwrap();

    assert_eq!(stats.fields[4], 14); // writes completed
    assert_eq!(stats.fields[6], 16); // sectors written
    assert_eq!(stats.fields[7], 17); // write time ms
}

#[test]
fn rejects_incomplete_disk_stats() {
    let contents = "259 0 nvme0n1 1 2 3 4 5 6 7\n";

    let result = parse_disk_stats(contents, "nvme0n1");

    assert!(result.is_err());
}

#[test]
fn parses_matching_device_stats() {
    let contents = "259 0 nvme0n1 1 2 3 4 5 6 7 8 9 10 11 12 13 14 15 16 17\n";

    let stats = parse_disk_stats(contents, "nvme0n1").unwrap();

    assert_eq!(stats.fields[0], 1);
    assert_eq!(stats.fields[4], 5);
    assert_eq!(stats.fields[7], 8);
}

#[test]
fn missing_device_returns_error() {
    let contents = "259 0 nvme0n1 1 2 3 4 5 6 7 8 9 10 11 12 13 14 15 16 17\n";

    let result = parse_disk_stats(contents, "nvme9n9");

    assert!(result.is_err());
}

#[test]
fn incomplete_row_reports_its_column_count() {
    let result = parse_disk_stats("259 0 nvme0n1 1 2 3 4 5 6 7\n", "nvme0n1");
    assert!(matches!(result, Err(DiskStatsError::Incomplete(7))));
}

#[test]
fn missing_device_is_device_not_found() {
    let result = parse_disk_stats("259 0 nvme0n1 1 2 3 4 5 6 7 8\n", "sda");
    assert!(matches!(result, Err(DiskStatsError::DeviceNotFound)));
}

#[test]
fn bad_column_is_reported_with_its_error() {
    let result = parse_disk_stats("259 0 nvme0n1 1 2 x 4 5 6 7 8\n", "nvme0n1");
    assert!(matches!(result, Err(DiskStatsError::BadField(NumberError::InvalidDigit))));
    let result = parse_disk_stats("259 0 nvme0n1 1 2 99999999999999999999 4 5 6 7 8\n", "nvme0n1");
    assert!(matches!(result, Err(DiskStatsError::BadField(NumberError::TooLarge))));
}

#[test]
fn first_matching_row_wins_among_many() {
    let contents = "   8 0 sda 9 9 9 9 9 9 9 9\r\n259 0 nvme0n1 1 2 3 4 5 6 7 8\n259 0 nvme0n1 5 5 5 5 5 5 5 5\n";
    let stats = parse_disk_stats(contents, "nvme0n1").unwrap();
    assert_eq!(stats.fields, vec![1, 2, 3, 4, 5, 6, 7, 8]);
    let stats = parse_disk_stats(contents, "sda").unwrap();
    assert_eq!(stats.fields.len(), 8);
}

#[test]
fn plus_sign_is_accepted_as_integers_allow() {
    let stats = parse_disk_stats("259 0 nvme0n1 +1 2 3 4 5 6 7 8\n", "nvme0n1").unwrap();
    assert_eq!(stats.fields[0], 1);
}
