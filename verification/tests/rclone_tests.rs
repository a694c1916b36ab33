use minio_drive::listing::bucket_names;
use minio_drive::model::{CacheConfig, MountConfig};
use minio_drive::rclone::{
    list_buckets, list_buckets_args, mount_args, mount_remote, s3_remote, start_mount, test_connection,
    test_connection_args, CommandOutcome, MountWait,
};

#[test]
fn remote_strings_quote_values_with_colons_and_commas() {
    assert_eq!(
        s3_remote("http://127.0.0.1:9000", "minioadmin", "se,cr\"et"),
        ":s3,provider=Minio,endpoint=\"http://127.0.0.1:9000\",access_key_id=minioadmin,secret_access_key=\"se,cr\"\"et\":"
    );
    assert_eq!(
        s3_remote("minio.local", "ak", "sk"),
        ":s3,provider=Minio,endpoint=minio.local,access_key_id=ak,secret_access_key=sk:"
    );
    assert_eq!(
        mount_remote("minio.local", "ak", "it's", "photos"),
        ":s3,provider=Minio,endpoint=minio.local,access_key_id=ak,secret_access_key=\"it's\",bucket_region=:photos"
    );
}

#[test]
fn lsd_arguments() {
    assert_eq!(
        test_connection_args("minio.local", "minioadmin", "minioadmin"),
        vec![
            "lsd",
            ":s3,provider=Minio,endpoint=minio.local,access_key_id=minioadmin,secret_access_key=minioadmin:",
            "--max-depth",
            "0"
        ]
    );
    assert_eq!(
        list_buckets_args("minio.local", "ak", "sk"),
        vec!["lsd", ":s3,provider=Minio,endpoint=minio.local,access_key_id=ak,secret_access_key=sk:"]
    );
}

#[test]
fn mount_arguments() {
    let cfg = MountConfig {
        endpoint: "minio.local".to_string(),
        access_key: "minioadmin".to_string(),
        secret_key: "minioadmin".to_string(),
        bucket: "photos".to_string(),
        drive: "X".to_string(),
    };
    let args = mount_args(&cfg, CacheConfig { max_size_gb: 25, max_age_hours: 12 });
    assert_eq!(
        args,
        vec![
            "mount",
            ":s3,provider=Minio,endpoint=minio.local,access_key_id=minioadmin,secret_access_key=minioadmin,bucket_region=:photos",
            "X:",
            "--vfs-cache-mode",
            "full",
            "--volname",
            "MinIO-photos",
            "--vfs-cache-max-size",
            "25G",
            "--vfs-cache-max-age",
            "12h",
            "--log-level",
            "INFO",
        ]
    );
    let d = mount_args(&cfg, CacheConfig::default());
    assert_eq!(d[8], "10G");
    assert_eq!(d[10], "1h");
}

#[test]
fn connection_test_counts_only_success() {
    let ok = CommandOutcome::Finished { success: true, stdout: vec![], stderr: vec![] };
    let bad = CommandOutcome::Finished { success: false, stdout: vec![], stderr: b"denied".to_vec() };
    assert!(test_connection(&ok));
    assert!(!test_connection(&bad));
    assert!(!test_connection(&CommandOutcome::Failed));
    assert!(!test_connection(&CommandOutcome::TimedOut));
}

#[test]
fn parse_lsd_output() {
    let out = "          -1 2024-01-01 00:00:00        -1 bucket-one\r\n          -1 2024-01-02 00:00:00        -1 photos\n\n   \t \nlast";
    assert_eq!(bucket_names(out), vec!["bucket-one", "photos", "last"]);
    assert_eq!(bucket_names(""), Vec::<String>::new());
    assert_eq!(bucket_names("\n\n"), Vec::<String>::new());
    assert_eq!(bucket_names("a b c  \u{3000}\n"), vec!["c"]);
}

#[test]
fn list_buckets_outcomes() {
    let ok = CommandOutcome::Finished {
        success: true,
        stdout: b"  -1 2024-01-01 00:00:00  -1 alpha\n  -1 2024-01-01 00:00:00  -1 beta\n".to_vec(),
        stderr: vec![],
    };
    assert_eq!(list_buckets(&ok).unwrap(), vec!["alpha", "beta"]);
    let failed = CommandOutcome::Finished { success: false, stdout: vec![], stderr: b"bad key".to_vec() };
    assert_eq!(list_buckets(&failed).unwrap_err(), "Failed to list buckets: bad key");
    assert_eq!(list_buckets(&CommandOutcome::Failed).unwrap_err(), "连接超时或 rclone 执行失败");
    assert_eq!(list_buckets(&CommandOutcome::TimedOut).unwrap_err(), "连接超时或 rclone 执行失败");
}

#[test]
fn invalid_utf8_is_replaced() {
    let ok = CommandOutcome::Finished { success: true, stdout: vec![b'a', 0xff, b'b'], stderr: vec![] };
    assert_eq!(list_buckets(&ok).unwrap(), vec!["a\u{FFFD}b"]);
    let failed = CommandOutcome::Finished { success: false, stdout: vec![], stderr: vec![0xff] };
    assert_eq!(list_buckets(&failed).unwrap_err(), "Failed to list buckets: \u{FFFD}");
}

#[test]
fn waiting_for_mount() {
    assert_eq!(start_mount(&MountWait::Reported(true)), Ok(true));
    assert_eq!(start_mount(&MountWait::TimedOut), Ok(false));
    assert_eq!(start_mount(&MountWait::Reported(false)), Err("rclone mount failed".to_string()));
    assert_eq!(start_mount(&MountWait::Closed), Err("rclone mount channel closed unexpectedly".to_string()));
}
