//! The rclone command lines that the application runs, and what it makes of their results.
use vstd::prelude::*;
use crate::model::{CacheConfig, MountConfig};
use crate::text::{decimal, push_decimal};
use crate::connstr::{quoted_value, push_value};
use crate::listing::{bucket_names, listed_bucket_names, string_views};

verus! {

/// What `String::from_utf8_lossy` makes of `bytes`.
pub uninterp spec fn lossy_utf8(bytes: Seq<u8>) -> Seq<char>;

/// `String::from_utf8_lossy`: decodes `bytes` as UTF-8, putting U+FFFD in place of each
/// invalid sequence. Claimed: the result is `lossy_utf8` of the bytes, and it is the plain
/// decoding when the bytes are valid UTF-8 (as std documents). How invalid sequences are
/// replaced is left unsaid.
#[verifier::external_body]
pub(crate) fn utf8_lossy(bytes: &Vec<u8>) -> (s: String)
    ensures
        s@ == lossy_utf8(bytes@),
        vstd::utf8::valid_utf8(bytes@) ==> s@ == vstd::utf8::decode_utf8(bytes@),
{
    String::from_utf8_lossy(bytes.as_slice()).into_owned()
}

/// The parameters of a MinIO remote after the backend name: provider, endpoint and keys,
/// each value quoted as the connection-string syntax asks.
pub open spec fn credentials_spec(endpoint: Seq<char>, access_key: Seq<char>, secret_key: Seq<char>) -> Seq<char> {
    ",provider=Minio,endpoint="@ + quoted_value(endpoint) + ",access_key_id="@ + quoted_value(access_key)
        + ",secret_access_key="@ + quoted_value(secret_key)
}

/// The on-the-fly rclone remote for a MinIO server, needing no rclone configuration file:
/// the s3 backend with the server's parameters, at the root.
pub open spec fn s3_remote_spec(endpoint: Seq<char>, access_key: Seq<char>, secret_key: Seq<char>) -> Seq<char> {
    ":s3"@ + credentials_spec(endpoint, access_key, secret_key) + ":"@
}

/// The remote of a mounted bucket: the server's parameters, with an empty bucket region,
/// at the bucket's path.
pub open spec fn mount_remote_spec(endpoint: Seq<char>, access_key: Seq<char>, secret_key: Seq<char>, bucket: Seq<char>) -> Seq<char> {
    ":s3"@ + credentials_spec(endpoint, access_key, secret_key) + ",bucket_region=:"@ + bucket
}

/// The arguments of the `rclone lsd` that only checks that the server answers.
pub open spec fn test_connection_args_spec(endpoint: Seq<char>, access_key: Seq<char>, secret_key: Seq<char>) -> Seq<Seq<char>> {
    seq!["lsd"@, s3_remote_spec(endpoint, access_key, secret_key), "--max-depth"@, "0"@]
}

/// The arguments of the `rclone lsd` that lists the buckets.
pub open spec fn list_buckets_args_spec(endpoint: Seq<char>, access_key: Seq<char>, secret_key: Seq<char>) -> Seq<Seq<char>> {
    seq!["lsd"@, s3_remote_spec(endpoint, access_key, secret_key)]
}

/// The arguments of `rclone mount` for `config`, with the cache limits of `cache`.
pub open spec fn mount_args_spec(config: MountConfig, cache: CacheConfig) -> Seq<Seq<char>> {
    seq![
        "mount"@,
        mount_remote_spec(config.endpoint@, config.access_key@, config.secret_key@, config.bucket@),
        config.drive@ + ":"@,
        "--vfs-cache-mode"@,
        "full"@,
        "--volname"@,
        "MinIO-"@ + config.bucket@,
        "--vfs-cache-max-size"@,
        decimal(cache.max_size_gb as nat) + "G"@,
        "--vfs-cache-max-age"@,
        decimal(cache.max_age_hours as nat) + "h"@,
        "--log-level"@,
        "INFO"@,
    ]
}

/// The credentials part shared by every remote, after the backend name.
fn push_credentials(r: &mut String, endpoint: &str, access_key: &str, secret_key: &str)
    ensures
        final(r)@ == old(r)@ + credentials_spec(endpoint@, access_key@, secret_key@),
{
    r.append(",provider=Minio,endpoint=");
    push_value(r, endpoint);
    r.append(",access_key_id=");
    push_value(r, access_key);
    r.append(",secret_access_key=");
    push_value(r, secret_key);
    assert(r@ =~= old(r)@ + credentials_spec(endpoint@, access_key@, secret_key@));
}

/// The remote for a MinIO server at `endpoint`, opened with the given keys.
pub fn s3_remote(endpoint: &str, access_key: &str, secret_key: &str) -> (r: String)
    ensures
        r@ == s3_remote_spec(endpoint@, access_key@, secret_key@),
{
    let mut r = String::from_str(":s3");
    push_credentials(&mut r, endpoint, access_key, secret_key);
    r.append(":");
    assert(r@ =~= s3_remote_spec(endpoint@, access_key@, secret_key@));
    r
}

/// The remote for mounting `bucket` of the MinIO server at `endpoint`.
pub fn mount_remote(endpoint: &str, access_key: &str, secret_key: &str, bucket: &str) -> (r: String)
    ensures
        r@ == mount_remote_spec(endpoint@, access_key@, secret_key@, bucket@),
{
    let mut r = String::from_str(":s3");
    push_credentials(&mut r, endpoint, access_key, secret_key);
    r.append(",bucket_region=:");
    r.append(bucket);
    assert(r@ =~= mount_remote_spec(endpoint@, access_key@, secret_key@, bucket@));
    r
}

/// The command line of the connection test: `rclone lsd <remote> --max-depth 0` for the
/// server at `endpoint` with the given keys.
pub fn test_connection_args(endpoint: &str, access_key: &str, secret_key: &str) -> (r: Vec<String>)
    ensures
        string_views(r@) == test_connection_args_spec(endpoint@, access_key@, secret_key@),
{
    let r = vec![
        String::from_str("lsd"),
        s3_remote(endpoint, access_key, secret_key),
        String::from_str("--max-depth"),
        String::from_str("0"),
    ];
    assert(string_views(r@) =~= test_connection_args_spec(endpoint@, access_key@, secret_key@));
    r
}

/// The command line of the bucket listing: `rclone lsd <remote>`.
pub fn list_buckets_args(endpoint: &str, access_key: &str, secret_key: &str) -> (r: Vec<String>)
    ensures
        string_views(r@) == list_buckets_args_spec(endpoint@, access_key@, secret_key@),
{
    let r = vec![String::from_str("lsd"), s3_remote(endpoint, access_key, secret_key)];
    assert(string_views(r@) =~= list_buckets_args_spec(endpoint@, access_key@, secret_key@));
    r
}

/// `n` in decimal, followed by `unit`.
fn with_unit(n: u64, unit: &str) -> (r: String)
    ensures
        r@ == decimal(n as nat) + unit@,
{
    let mut r = String::new();
    push_decimal(&mut r, n);
    r.append(unit);
    assert(r@ =~= decimal(n as nat) + unit@);
    r
}

/// The arguments of the `rclone mount` that serves the bucket `config.bucket` on `config.drive`,
/// caching fully on disk within the limits of `cache`.
pub fn mount_args(config: &MountConfig, cache: CacheConfig) -> (r: Vec<String>)
    ensures
        string_views(r@) == mount_args_spec(*config, cache),
{
    let remote = mount_remote(
        config.endpoint.as_str(),
        config.access_key.as_str(),
        config.secret_key.as_str(),
        config.bucket.as_str(),
    );
    let mut drive = config.drive.clone();
    drive.append(":");
    let mut volume = String::from_str("MinIO-");
    volume.append(config.bucket.as_str());
    let r = vec![
        String::from_str("mount"),
        remote,
        drive,
        String::from_str("--vfs-cache-mode"),
        String::from_str("full"),
        String::from_str("--volname"),
        volume,
        String::from_str("--vfs-cache-max-size"),
        with_unit(cache.max_size_gb, "G"),
        String::from_str("--vfs-cache-max-age"),
        with_unit(cache.max_age_hours, "h"),
        String::from_str("--log-level"),
        String::from_str("INFO"),
    ];
    assert(string_views(r@) =~= mount_args_spec(*config, cache));
    r
}

/// How a short rclone command that was waited for came out.
#[derive(Debug, PartialEq, Eq)]
pub enum CommandOutcome {
    /// It ran to the end, successfully or not, printing `stdout` and `stderr`.
    Finished { success: bool, stdout: Vec<u8>, stderr: Vec<u8> },
    /// It could not be run.
    Failed,
    /// It did not end within the time allowed.
    TimedOut,
}

/// Whether the server answered the connection test: only a command that ran and
/// succeeded counts.
pub fn test_connection(outcome: &CommandOutcome) -> (r: bool)
    ensures
        r == (*outcome matches CommandOutcome::Finished { success, .. } && success),
{
    match outcome {
        CommandOutcome::Finished { success, .. } => *success,
        _ => false,
    }
}

/// The message for a listing that could not be run or timed out.
pub open spec fn list_unavailable_message() -> Seq<char> {
    "连接超时或 rclone 执行失败"@
}

/// The bucket names that a `rclone lsd` run gave: the names it printed when it
/// succeeded; what it printed on its error stream when it failed; a fixed message
/// when it could not be run or timed out.
pub fn list_buckets(outcome: &CommandOutcome) -> (r: Result<Vec<String>, String>)
    ensures
        match outcome {
            CommandOutcome::Finished { success, stdout, stderr } => if *success {
                r is Ok && string_views(r->Ok_0@) == listed_bucket_names(lossy_utf8(stdout@))
            } else {
                r is Err && r->Err_0@ == "Failed to list buckets: "@ + lossy_utf8(stderr@)
            },
            _ => r is Err && r->Err_0@ == list_unavailable_message(),
        },
{
    match outcome {
        CommandOutcome::Finished { success, stdout, stderr } => {
            if *success {
                let text = utf8_lossy(stdout);
                Ok(bucket_names(text.as_str()))
            } else {
                let mut message = String::from_str("Failed to list buckets: ");
                let err = utf8_lossy(stderr);
                message.append(err.as_str());
                Err(message)
            }
        },
        _ => Err(String::from_str("连接超时或 rclone 执行失败")),
    }
}

/// What came of waiting for a new mount to report.
#[derive(Debug, PartialEq, Eq)]
pub enum MountWait {
    /// The mount reported success (`true`) or failure (`false`).
    Reported(bool),
    /// The mount's output ended without a report.
    Closed,
    /// Nothing was reported within the time allowed.
    TimedOut,
}

/// Whether a new mount is kept, and whether it is known to be up: it is kept when it
/// reported success (`Ok(true)`), and also when it did not report in time (`Ok(false)`:
/// rclone does not always say so); it is stopped and the mount fails when it reported
/// failure or its output ended without a report.
pub fn start_mount(wait: &MountWait) -> (r: Result<bool, String>)
    ensures
        match wait {
            MountWait::Reported(true) => r == Ok::<bool, String>(true),
            MountWait::Reported(false) => r is Err && r->Err_0@ == "rclone mount failed"@,
            MountWait::Closed => r is Err && r->Err_0@ == "rclone mount channel closed unexpectedly"@,
            MountWait::TimedOut => r == Ok::<bool, String>(false),
        },
{
    match wait {
        MountWait::Reported(true) => Ok(true),
        MountWait::Reported(false) => Err(String::from_str("rclone mount failed")),
        MountWait::Closed => Err(String::from_str("rclone mount channel closed unexpectedly")),
        MountWait::TimedOut => Ok(false),
    }
}

} // verus!
