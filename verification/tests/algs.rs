use rustysync::{
    classify, drive_bytes_written, evaluate, progress_delta, rank, write_deltas, DiskStats, DriveId,
    MissingData, Severity, ThrottleAction,
};

fn stats_with_sectors(sectors_written: u64) -> DiskStats {
    let mut fields = vec![0; 8];
    fields[6] = sectors_written;
    DiskStats { fields }
}

fn stats_with_writes(writes_completed: u64, write_time_ms: u64) -> DiskStats {
    let mut fields = vec![0; 8];
    fields[4] = writes_completed;
    fields[7] = write_time_ms;
    DiskStats { fields }
}

#[test]
fn calculates_bytes_written_from_sector_delta() {
    let old = stats_with_sectors(100);
    let new = stats_with_sectors(108);

    assert_eq!(drive_bytes_written(Some(&old), Some(&new)), Some(4096));
}

#[test]
fn calculates_write_latency_from_deltas() {
    let old = stats_with_writes(100, 500);
    let new = stats_with_writes(104, 520);

    let latency = write_deltas(&old, &new).map(|(writes, ms)| ms as f64 / writes as f64);
    assert_eq!(latency, Some(5.0));
}

#[test]
fn bytes_written_edge_cases() {
    let old = stats_with_sectors(100);
    assert_eq!(drive_bytes_written(None, Some(&old)), None);
    assert_eq!(drive_bytes_written(Some(&stats_with_sectors(101)), Some(&old)), None);
    assert_eq!(drive_bytes_written(Some(&DiskStats { fields: vec![1; 6] }), Some(&old)), None);
    assert_eq!(
        drive_bytes_written(Some(&stats_with_sectors(0)), Some(&stats_with_sectors(u64::MAX / 512 + 1))),
        None
    );
}

#[test]
fn write_deltas_need_a_completed_write() {
    assert_eq!(write_deltas(&stats_with_writes(5, 10), &stats_with_writes(5, 20)), None);
    assert_eq!(write_deltas(&stats_with_writes(5, 10), &stats_with_writes(4, 20)), None);
    assert_eq!(write_deltas(&stats_with_writes(5, 30), &stats_with_writes(6, 20)), None);
    assert_eq!(write_deltas(&stats_with_writes(5, 10), &stats_with_writes(7, 12)), Some((2, 2)));
}

#[test]
fn progress_delta_needs_growth() {
    assert_eq!(progress_delta(Some(10), Some(25)), Some(15));
    assert_eq!(progress_delta(Some(25), Some(10)), None);
    assert_eq!(progress_delta(None, Some(10)), None);
}

fn id(name: &str) -> DriveId {
    DriveId { name: name.to_string() }
}

#[test]
fn classifies_each_missing_measurement() {
    assert_eq!(classify(&MissingData::RsyncProgress), (Severity::Warning, "Missing rsync progress".to_string()));
    assert_eq!(
        classify(&MissingData::NvmeTemperature(id("nvme0n1"))),
        (Severity::Warning, "Missing temperature for nvme0n1".to_string())
    );
    assert_eq!(
        classify(&MissingData::WriteCounters(id("nvme1n1"))),
        (Severity::Pause, "Missing write counters for nvme1n1".to_string())
    );
    assert_eq!(
        classify(&MissingData::WriteLatency(id("nvme2n1"))),
        (Severity::Abort, "Missing write latency for nvme2n1".to_string())
    );
    assert_eq!(rank(&Severity::Ignore), 0);
    assert_eq!(rank(&Severity::Abort), 3);
}

#[test]
fn evaluation_takes_most_serious_and_joins_messages() {
    let flags = vec![
        MissingData::NvmeTemperature(id("nvme0n1")),
        MissingData::WriteCounters(id("nvme1n1")),
        MissingData::RsyncProgress,
    ];
    let decision = evaluate(&flags);
    assert_eq!(decision.severity, Severity::Pause);
    assert_eq!(
        decision.message.as_deref(),
        Some("Missing temperature for nvme0n1; Missing write counters for nvme1n1; Missing rsync progress")
    );
    assert!(matches!(decision.action, ThrottleAction::Hold));
}

#[test]
fn nothing_missing_is_ignored() {
    let decision = evaluate(&Vec::new());
    assert_eq!(decision.severity, Severity::Ignore);
    assert_eq!(decision.message, None);
}

#[test]
fn missing_flags_follow_probe_results() {
    let drives = vec![(id("a"), true, Some(false)), (id("b"), true, None), (id("c"), false, Some(false)), (id("d"), true, Some(true))];
    assert_eq!(
        rustysync::missing_flags(&drives, None),
        vec![MissingData::NvmeTemperature(id("a")), MissingData::WriteCounters(id("b")), MissingData::RsyncProgress]
    );
    assert_eq!(rustysync::missing_flags(&Vec::new(), Some(7)), Vec::<MissingData>::new());
}
