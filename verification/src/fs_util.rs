//! Help for file systems that keep their files on the host: host metadata
//! as NFS attributes, and what a request to set attributes asks of the
//! host.

use crate::nfs::{
    fattr3, fileid3, ftype3, nfsstat3, nfstime3, sattr3, set_atime, set_mode3, set_mtime,
    set_size3, specdata3,
};
use vstd::prelude::*;

verus! {

/// What the host knows of a file.
#[derive(Copy, Clone, Debug, PartialEq, Eq, Structural)]
pub struct FileMeta {
    /// The number of the file on its device.
    pub ino: u64,
    /// The type bits of the mode.
    pub file_type: u32,
    pub is_file: bool,
    pub is_symlink: bool,
    pub size: u64,
    pub mode: u32,
    pub uid: u32,
    pub gid: u32,
    pub atime: i64,
    pub atime_nsec: i64,
    pub mtime: i64,
    pub mtime_nsec: i64,
    pub ctime: i64,
    pub ctime_nsec: i64,
}

/// Whether the metadata of a file has changed in a way that matters: the
/// file is another, or was modified, or has another size or type.
pub fn metadata_differ(lhs: &FileMeta, rhs: &FileMeta) -> (b: bool)
    ensures
        b == (lhs.ino != rhs.ino || lhs.mtime != rhs.mtime || lhs.size != rhs.size || lhs.file_type
            != rhs.file_type),
{
    lhs.ino != rhs.ino || lhs.mtime != rhs.mtime || lhs.size != rhs.size || lhs.file_type
        != rhs.file_type
}

/// Whether the attributes of a file have changed in a way that matters:
/// the file is another, or was modified, or has another size or type.
pub fn fattr3_differ(lhs: &fattr3, rhs: &fattr3) -> (b: bool)
    ensures
        b == (lhs.fileid != rhs.fileid || lhs.mtime != rhs.mtime || lhs.size != rhs.size
            || lhs.ftype != rhs.ftype),
{
    lhs.fileid != rhs.fileid || lhs.mtime.seconds != rhs.mtime.seconds || lhs.mtime.nseconds
        != rhs.mtime.nseconds || lhs.size != rhs.size || lhs.ftype.to_u32() != rhs.ftype.to_u32()
}

/// The permission bits of a mode, with the owner's write bit set.
pub open spec fn unmasked(mode: u32) -> u32 {
    (mode | 0x80) & 0x1FF
}

/// The permission bits of a mode, with the owner's write bit set: a file
/// must not be made that its owner cannot write.
pub fn mode_unmask(mode: u32) -> (m: u32)
    ensures
        m == unmasked(mode),
        m <= 0x1FF,
        m & 0x80 == 0x80,
{
    assert(((mode | 0x80) & 0x1FF) <= 0x1FF && ((mode | 0x80) & 0x1FF) & 0x80 == 0x80)
        by (bit_vector);
    (mode | 0x80) & 0x1FF
}

/// A host time as an NFS time: the low 32 bits of seconds and nanoseconds.
pub open spec fn host_time(seconds: i64, nseconds: i64) -> nfstime3 {
    nfstime3 { seconds: seconds as u32, nseconds: nseconds as u32 }
}

/// The type of a file as the host tells it: a regular file, a symbolic
/// link, or else a directory.
pub open spec fn host_type(meta: FileMeta) -> ftype3 {
    if meta.is_file {
        ftype3::NF3REG
    } else if meta.is_symlink {
        ftype3::NF3LNK
    } else {
        ftype3::NF3DIR
    }
}

/// The NFS attributes of file `fid` with the host metadata `meta`. A
/// directory has two links, anything else one; the space used is the size.
pub open spec fn host_attributes(fid: fileid3, meta: FileMeta) -> fattr3 {
    fattr3 {
        ftype: host_type(meta),
        mode: unmasked(meta.mode),
        nlink: if host_type(meta) == ftype3::NF3DIR { 2 } else { 1 },
        uid: meta.uid,
        gid: meta.gid,
        size: meta.size,
        used: meta.size,
        rdev: specdata3 { specdata1: 0, specdata2: 0 },
        fsid: 0,
        fileid: fid,
        atime: host_time(meta.atime, meta.atime_nsec),
        mtime: host_time(meta.mtime, meta.mtime_nsec),
        ctime: host_time(meta.ctime, meta.ctime_nsec),
    }
}

/// A host time as an NFS time.
pub fn to_nfstime(seconds: i64, nseconds: i64) -> (t: nfstime3)
    ensures
        t == host_time(seconds, nseconds),
{
    nfstime3 {
        seconds: #[verifier::truncate]
        (seconds as u32),
        nseconds: #[verifier::truncate]
        (nseconds as u32),
    }
}

/// Host metadata as NFS attributes.
pub fn metadata_to_fattr3(fid: fileid3, meta: &FileMeta) -> (attr: fattr3)
    ensures
        attr == host_attributes(fid, *meta),
        attr.mode <= 0x1FF,
        attr.mode & 0x80 == 0x80,
{
    let file_mode = mode_unmask(meta.mode);
    let ftype = if meta.is_file {
        ftype3::NF3REG
    } else if meta.is_symlink {
        ftype3::NF3LNK
    } else {
        ftype3::NF3DIR
    };
    let nlink: u32 = if meta.is_file || meta.is_symlink {
        1
    } else {
        2
    };
    fattr3 {
        ftype,
        mode: file_mode,
        nlink,
        uid: meta.uid,
        gid: meta.gid,
        size: meta.size,
        used: meta.size,
        rdev: specdata3 { specdata1: 0, specdata2: 0 },
        fsid: 0,
        fileid: fid,
        atime: to_nfstime(meta.atime, meta.atime_nsec),
        mtime: to_nfstime(meta.mtime, meta.mtime_nsec),
        ctime: to_nfstime(meta.ctime, meta.ctime_nsec),
    }
}

/// What to do to a time of a file.
#[derive(Copy, Clone, Debug, PartialEq, Eq, Structural)]
pub enum TimeChange {
    Keep,
    /// Set it to what the server's clock says.
    ServerTime,
    /// Set it to this time.
    ClientTime(nfstime3),
}

/// What a request to set attributes asks of the host, in the order in which
/// it is done: access time, modification time, mode, size. Owner and group
/// are not set.
#[derive(Copy, Clone, Debug, PartialEq, Eq, Structural)]
pub struct SetattrPlan {
    pub atime: TimeChange,
    pub mtime: TimeChange,
    /// The permission bits to set, the owner's write bit among them.
    pub mode: Option<u32>,
    pub size: Option<u64>,
}

/// What a request asks to do to the access time.
pub open spec fn atime_change(t: set_atime) -> TimeChange {
    match t {
        set_atime::DONT_CHANGE => TimeChange::Keep,
        set_atime::SET_TO_SERVER_TIME => TimeChange::ServerTime,
        set_atime::SET_TO_CLIENT_TIME(time) => TimeChange::ClientTime(time),
    }
}

/// What a request asks to do to the modification time.
pub open spec fn mtime_change(t: set_mtime) -> TimeChange {
    match t {
        set_mtime::DONT_CHANGE => TimeChange::Keep,
        set_mtime::SET_TO_SERVER_TIME => TimeChange::ServerTime,
        set_mtime::SET_TO_CLIENT_TIME(time) => TimeChange::ClientTime(time),
    }
}

/// What a request asks to do to mode and size.
pub open spec fn mode_and_size(setattr: sattr3) -> (Option<u32>, Option<u64>) {
    (
        match setattr.mode {
            set_mode3::mode(m) => Some(unmasked(m)),
            set_mode3::Void => None,
        },
        match setattr.size {
            set_size3::size(s) => Some(s),
            set_size3::Void => None,
        },
    )
}

fn plan_mode_and_size(setattr: &sattr3) -> (r: (Option<u32>, Option<u64>))
    ensures
        r == mode_and_size(*setattr),
{
    let mode = match setattr.mode {
        set_mode3::mode(m) => Some(mode_unmask(m)),
        set_mode3::Void => None,
    };
    let size = match setattr.size {
        set_size3::size(s) => Some(s),
        set_size3::Void => None,
    };
    (mode, size)
}

/// What a request to set attributes asks to do to a path: times, mode and
/// size.
pub fn path_setattr(setattr: &sattr3) -> (plan: SetattrPlan)
    ensures
        plan.atime == atime_change(setattr.atime),
        plan.mtime == mtime_change(setattr.mtime),
        (plan.mode, plan.size) == mode_and_size(*setattr),
{
    let atime = match setattr.atime {
        set_atime::DONT_CHANGE => TimeChange::Keep,
        set_atime::SET_TO_SERVER_TIME => TimeChange::ServerTime,
        set_atime::SET_TO_CLIENT_TIME(time) => TimeChange::ClientTime(time),
    };
    let mtime = match setattr.mtime {
        set_mtime::DONT_CHANGE => TimeChange::Keep,
        set_mtime::SET_TO_SERVER_TIME => TimeChange::ServerTime,
        set_mtime::SET_TO_CLIENT_TIME(time) => TimeChange::ClientTime(time),
    };
    let (mode, size) = plan_mode_and_size(setattr);
    SetattrPlan { atime, mtime, mode, size }
}

/// What a request to set attributes asks to do to an open file: mode and
/// size. The times are left alone.
pub fn file_setattr(setattr: &sattr3) -> (plan: SetattrPlan)
    ensures
        plan.atime == TimeChange::Keep,
        plan.mtime == TimeChange::Keep,
        (plan.mode, plan.size) == mode_and_size(*setattr),
{
    let (mode, size) = plan_mode_and_size(setattr);
    SetattrPlan { atime: TimeChange::Keep, mtime: TimeChange::Keep, mode, size }
}

/// The outcome of carrying out a plan. Times and mode are set as far as the
/// host allows; only a size that could not be set is an error.
pub fn setattr_outcome(plan: &SetattrPlan, size_was_set: bool) -> (r: Result<(), nfsstat3>)
    ensures
        r == if plan.size is Some && !size_was_set {
            Err::<(), nfsstat3>(nfsstat3::NFS3ERR_IO)
        } else {
            Ok::<(), nfsstat3>(())
        },
{
    match plan.size {
        Some(_) => {
            if size_was_set {
                Ok(())
            } else {
                Err(nfsstat3::NFS3ERR_IO)
            }
        },
        None => Ok(()),
    }
}

} // verus!
