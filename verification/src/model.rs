//! The records that the application keeps and shows: connections, buckets and mounts.
use vstd::prelude::*;

verus! {

/// A saved MinIO connection: where the server is and which keys open it.
#[derive(Debug, PartialEq, Eq)]
pub struct Connection {
    pub id: String,
    pub name: String,
    pub endpoint: String,
    pub access_key: String,
    pub secret_key: String,
}

impl Clone for Connection {
    fn clone(&self) -> (r: Self)
        ensures
            r == *self,
    {
        Connection {
            id: self.id.clone(),
            name: self.name.clone(),
            endpoint: self.endpoint.clone(),
            access_key: self.access_key.clone(),
            secret_key: self.secret_key.clone(),
        }
    }
}

/// A bucket of the selected server, with the drive it is mounted on, if any.
#[derive(Debug, PartialEq, Eq)]
pub struct Bucket {
    pub name: String,
    pub drive: Option<String>,
    pub mounted: bool,
}

/// A bucket mounted on a drive, and the state of that mount.
#[derive(Debug, PartialEq, Eq)]
pub struct MountInfo {
    pub bucket: String,
    pub drive: String,
    pub status: String,
}

impl Clone for MountInfo {
    fn clone(&self) -> (r: Self)
        ensures
            r == *self,
    {
        MountInfo { bucket: self.bucket.clone(), drive: self.drive.clone(), status: self.status.clone() }
    }
}

/// Everything that a mount needs, kept so that it can be started again.
#[derive(Debug, PartialEq, Eq)]
pub struct MountConfig {
    pub endpoint: String,
    pub access_key: String,
    pub secret_key: String,
    pub bucket: String,
    pub drive: String,
}

impl Clone for MountConfig {
    fn clone(&self) -> (r: Self)
        ensures
            r == *self,
    {
        MountConfig {
            endpoint: self.endpoint.clone(),
            access_key: self.access_key.clone(),
            secret_key: self.secret_key.clone(),
            bucket: self.bucket.clone(),
            drive: self.drive.clone(),
        }
    }
}

/// Limits of rclone's local file cache.
#[derive(Debug, Clone, Copy, PartialEq, Eq)]
pub struct CacheConfig {
    pub max_size_gb: u64,
    pub max_age_hours: u64,
}

impl Default for CacheConfig {
    /// 10 GB kept for at most an hour.
    fn default() -> (c: Self)
        ensures
            c.max_size_gb == 10,
            c.max_age_hours == 1,
    {
        CacheConfig { max_size_gb: 10, max_age_hours: 1 }
    }
}

} // verus!
