use rustysync::{is_nvme_name, pool_name, pool_paths, PoolError};

#[test]
fn discovers_four_members_and_ignores_cache() {
    let s = "config:\n NAME STATE READ WRITE CKSUM\n tank ONLINE 0 0 0\n raidz2-0 ONLINE 0 0 0\n /dev/nvme0n1p1 ONLINE 0 0 0\n /dev/nvme1n1p1 ONLINE 0 0 0\n /dev/nvme2n1p1 ONLINE 0 0 0\n /dev/nvme3n1p1 ONLINE 0 0 0\n cache\n /dev/nvme4n1 ONLINE 0 0 0\nerrors: No known data errors";
    assert_eq!(pool_paths(s).unwrap().len(), 4);
}

#[test]
fn refuses_missing_or_offline_members() {
    assert!(pool_paths("config:\n /dev/nvme0n1 OFFLINE 0 0 0").is_err());
    assert!(pool_paths("permission denied").is_err());
}

#[test]
fn members_come_in_report_order_with_logs_and_special() {
    let s = "  pool: tank\n state: ONLINE\nconfig:\n\n\tNAME STATE READ WRITE CKSUM\n\ttank ONLINE 0 0 0\n\t  /dev/nvme0n1 ONLINE 0 0 0\n\tspares\n\t  /dev/nvme5n1 AVAIL\n\tlogs\n\t  /dev/nvme6n1 ONLINE 0 0 0\n\tspecial\n\t  /dev/nvme7n1 ONLINE 0 0 0\n\nerrors: No known data errors\n /dev/nvme9n1 FAULTED\n";
    assert_eq!(
        pool_paths(s).unwrap(),
        vec!["/dev/nvme0n1".to_string(), "/dev/nvme6n1".to_string(), "/dev/nvme7n1".to_string()]
    );
}

#[test]
fn offline_member_is_named() {
    let err = pool_paths("config:\n /dev/nvme0n1 ONLINE\n /dev/nvme1n1 DEGRADED\n").unwrap_err();
    assert_eq!(err, PoolError::MemberNotOnline("/dev/nvme1n1".to_string()));
    assert_eq!(pool_paths("config:\n tank ONLINE\n"), Err(PoolError::NoMembers));
}

#[test]
fn lines_before_config_are_ignored() {
    assert_eq!(pool_paths("/dev/nvme0n1 OFFLINE\nconfig:\n"), Err(PoolError::NoMembers));
}

#[test]
fn pool_name_is_first_path_component() {
    assert_eq!(pool_name("tank/backup/daily"), "tank");
    assert_eq!(pool_name("tank"), "tank");
    assert_eq!(pool_name(""), "");
    assert!(is_nvme_name("nvme0n1"));
    assert!(!is_nvme_name("sda"));
}
