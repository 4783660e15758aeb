//! The values that NFS procedures take and return.
use vstd::prelude::*;

verus! {

/// A file identifier, unique within a namespace.
#[allow(non_camel_case_types)]
pub type fileid3 = u64;

/// Status of a failed NFS procedure.
#[allow(non_camel_case_types)]
#[derive(Clone, Copy, Debug, PartialEq, Eq, Structural)]
pub enum nfsstat3 {
    NFS3ERR_NOENT,
    NFS3ERR_IO,
    NFS3ERR_EXIST,
    NFS3ERR_NOTDIR,
    NFS3ERR_INVAL,
    NFS3ERR_FBIG,
    NFS3ERR_NAMETOOLONG,
    NFS3ERR_NOTEMPTY,
    NFS3ERR_STALE,
    NFS3ERR_SERVERFAULT,
}

/// Seconds and nanoseconds since the Unix epoch.
#[derive(Clone, Copy, Debug, PartialEq, Eq, Structural)]
pub struct Timestamp {
    pub secs: u64,
    pub nsecs: u32,
}

/// The fields stored for every node of the namespace.
#[derive(Clone, Copy, Debug, PartialEq, Eq, Structural)]
pub struct FileMetadata {
    /// 0 for a directory, 1 for a file, 2 for a symbolic link.
    pub ftype: u8,
    pub permissions: u32,
    pub size: u64,
    pub access_time_secs: u64,
    pub access_time_nsecs: u32,
    pub modification_time_secs: u64,
    pub modification_time_nsecs: u32,
    pub change_time_secs: u64,
    pub change_time_nsecs: u32,
    pub birth_time_secs: u64,
    pub birth_time_nsecs: u32,
    pub fileid: fileid3,
}

pub const FTYPE_DIR: u8 = 0;

pub const FTYPE_FILE: u8 = 1;

pub const FTYPE_SYMLINK: u8 = 2;

/// Permissions of a node created without a requested mode.
pub const DEFAULT_PERMISSIONS: u32 = 0o777;

/// A new time for an attribute.
#[allow(non_camel_case_types)]
#[derive(Clone, Copy, Debug, PartialEq, Eq, Structural)]
pub enum set_time {
    DONT_CHANGE,
    SET_TO_SERVER_TIME,
    SET_TO_CLIENT_TIME(Timestamp),
}

/// The attributes a client asks to set.
#[allow(non_camel_case_types)]
#[derive(Clone, Copy, Debug, PartialEq, Eq, Structural)]
pub struct sattr3 {
    pub mode: Option<u32>,
    pub size: Option<u64>,
    pub atime: set_time,
    pub mtime: set_time,
}

/// One entry of a directory listing.
pub struct DirEntry {
    pub fileid: fileid3,
    pub name: String,
    pub attr: FileMetadata,
}

/// A page of a directory listing; `end` when no entry follows it.
pub struct ReadDirResult {
    pub entries: Vec<DirEntry>,
    pub end: bool,
}

/// The class of a user key presented at mount time.
#[derive(Clone, Copy, Debug, PartialEq, Eq, Structural)]
pub enum KeyType {
    Usual,
    Special,
    Unknown,
}

pub open spec fn new_metadata(ftype: u8, permissions: u32, size: u64, fileid: u64, now: Timestamp) -> FileMetadata {
    FileMetadata {
        ftype,
        permissions,
        size,
        access_time_secs: now.secs,
        access_time_nsecs: now.nsecs,
        modification_time_secs: now.secs,
        modification_time_nsecs: now.nsecs,
        change_time_secs: now.secs,
        change_time_nsecs: now.nsecs,
        birth_time_secs: now.secs,
        birth_time_nsecs: now.nsecs,
        fileid,
    }
}

/// Metadata of a node made at `now`: every time set to `now`.
pub fn make_metadata(ftype: u8, permissions: u32, size: u64, fileid: u64, now: Timestamp) -> (r: FileMetadata)
    ensures
        r == new_metadata(ftype, permissions, size, fileid, now),
{
    FileMetadata {
        ftype,
        permissions,
        size,
        access_time_secs: now.secs,
        access_time_nsecs: now.nsecs,
        modification_time_secs: now.secs,
        modification_time_nsecs: now.nsecs,
        change_time_secs: now.secs,
        change_time_nsecs: now.nsecs,
        birth_time_secs: now.secs,
        birth_time_nsecs: now.nsecs,
        fileid,
    }
}

} // verus!
