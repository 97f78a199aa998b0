//! Errors of the encrypted volume that holds the log and the snapshots, and the
//! places of its files.

use crate::text::text2;
use vstd::prelude::*;
use vstd::string::StringExecFns;

verus! {

#[derive(Debug)]
pub enum StoreError {
    CryptSetup(String),
    MountPoint(String),
    Mount(String),
    Unmount(String),
    FileRead(String),
    FileWrite(String),
    Serialization(String),
    Deserialization(String),
    Sync(String),
}

impl StoreError {
    /// The error in words.
    pub fn message(&self) -> (r: String)
        ensures
            r@ == match self {
                StoreError::CryptSetup(s) => "cryptsetup error: "@ + s@,
                StoreError::MountPoint(s) => "Mount point error: "@ + s@,
                StoreError::Mount(s) => "Mount error: "@ + s@,
                StoreError::Unmount(s) => "Unmount error: "@ + s@,
                StoreError::FileRead(s) => "File read error: "@ + s@,
                StoreError::FileWrite(s) => "File write error: "@ + s@,
                StoreError::Serialization(s) => "Serialization error: "@ + s@,
                StoreError::Deserialization(s) => "Deserialization error: "@ + s@,
                StoreError::Sync(s) => "Sync error: "@ + s@,
            },
    {
        match self {
            StoreError::CryptSetup(s) => text2("cryptsetup error: ", s.as_str()),
            StoreError::MountPoint(s) => text2("Mount point error: ", s.as_str()),
            StoreError::Mount(s) => text2("Mount error: ", s.as_str()),
            StoreError::Unmount(s) => text2("Unmount error: ", s.as_str()),
            StoreError::FileRead(s) => text2("File read error: ", s.as_str()),
            StoreError::FileWrite(s) => text2("File write error: ", s.as_str()),
            StoreError::Serialization(s) => text2("Serialization error: ", s.as_str()),
            StoreError::Deserialization(s) => text2("Deserialization error: ", s.as_str()),
            StoreError::Sync(s) => text2("Sync error: ", s.as_str()),
        }
    }
}

/// The directory of a volume's snapshots.
pub fn snapshots_dir(mount_point: &str) -> (r: String)
    ensures
        r@ == mount_point@ + "/snapshots"@,
{
    text2(mount_point, "/snapshots")
}

/// The file of a snapshot.
pub fn snapshot_path(mount_point: &str, snapshot_id: &str) -> (r: String)
    ensures
        r@ == mount_point@ + "/snapshots"@ + "/"@ + snapshot_id@ + ".bin"@,
{
    let mut path = snapshots_dir(mount_point);
    path.append("/");
    path.append(snapshot_id);
    path.append(".bin");
    path
}

/// The file of the write-ahead log.
pub fn wal_path(mount_point: &str) -> (r: String)
    ensures
        r@ == mount_point@ + "/float_wal.bin"@,
{
    text2(mount_point, "/float_wal.bin")
}

} // verus!
