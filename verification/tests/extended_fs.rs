use nfsserve::nfs::{
    fattr3, fileid3, filename3, ftype3, nfs_fh3, nfspath3, nfsstat3, nfsstring, post_op_attr,
    pre_op_attr, sattr3, wcc_attr,
};
use nfsserve::vfs::{DirEntry, NFSFileSystem, ReadDirResult, VFSCapabilities};
use nfsserve::vfsext::{NFSFileSystemExtended, UserContext};
use nfsserve::vfsextimpl::DefaultNFSFileSystemExtended;
use std::sync::{Arc, Mutex};

/// A file system of one directory (1) with one file (2) and one name that
/// is free. It notes the operations that reach it, and counts up the size
/// of the directory with every change.
struct Tiny {
    caps: VFSCapabilities,
    log: Mutex<Vec<&'static str>>,
    dir_size: Mutex<u64>,
}

impl Tiny {
    fn new(caps: VFSCapabilities) -> Tiny {
        Tiny { caps, log: Mutex::new(Vec::new()), dir_size: Mutex::new(0) }
    }

    fn note(&self, what: &'static str) {
        self.log.lock().unwrap().push(what);
    }

    fn attr(&self, id: fileid3) -> fattr3 {
        let mut a = fattr3::default();
        a.fileid = id;
        if id == 1 {
            a.ftype = ftype3::NF3DIR;
            a.size = *self.dir_size.lock().unwrap();
        }
        a
    }

    fn change(&self) {
        *self.dir_size.lock().unwrap() += 1;
    }
}

impl NFSFileSystem for Tiny {
    fn capabilities(&self) -> VFSCapabilities {
        self.caps
    }
    fn root_dir(&self) -> fileid3 {
        1
    }
    fn lookup(&self, dirid: fileid3, filename: &filename3) -> Result<fileid3, nfsstat3> {
        self.note("lookup");
        if dirid == 1 && filename.0 == b"file" {
            Ok(2)
        } else {
            Err(nfsstat3::NFS3ERR_NOENT)
        }
    }
    fn getattr(&self, id: fileid3) -> Result<fattr3, nfsstat3> {
        self.note("getattr");
        if id == 1 || id == 2 {
            Ok(self.attr(id))
        } else {
            Err(nfsstat3::NFS3ERR_STALE)
        }
    }
    fn setattr(&self, id: fileid3, _setattr: sattr3) -> Result<fattr3, nfsstat3> {
        self.note("setattr");
        Ok(self.attr(id))
    }
    fn read(&self, _id: fileid3, _offset: u64, _count: u32) -> Result<(Vec<u8>, bool), nfsstat3> {
        self.note("read");
        Ok((b"data".to_vec(), true))
    }
    fn write(&self, id: fileid3, _offset: u64, _data: &[u8]) -> Result<fattr3, nfsstat3> {
        self.note("write");
        Ok(self.attr(id))
    }
    fn create(&self, _d: fileid3, _f: &filename3, _a: sattr3) -> Result<(fileid3, fattr3), nfsstat3> {
        self.note("create");
        self.change();
        Ok((3, self.attr(3)))
    }
    fn create_exclusive(&self, _d: fileid3, _f: &filename3) -> Result<fileid3, nfsstat3> {
        self.note("create_exclusive");
        self.change();
        Ok(3)
    }
    fn mkdir(&self, _d: fileid3, _f: &filename3) -> Result<(fileid3, fattr3), nfsstat3> {
        self.note("mkdir");
        self.change();
        Ok((3, self.attr(3)))
    }
    fn remove(&self, _d: fileid3, _f: &filename3) -> Result<(), nfsstat3> {
        self.note("remove");
        self.change();
        Ok(())
    }
    fn rename(&self, _a: fileid3, _b: &filename3, _c: fileid3, _d: &filename3) -> Result<(), nfsstat3> {
        self.note("rename");
        self.change();
        Ok(())
    }
    fn readdir(&self, _d: fileid3, start_after: fileid3, _m: usize) -> Result<ReadDirResult, nfsstat3> {
        self.note("readdir");
        let mut entries = Vec::new();
        if start_after == 0 {
            entries.push(DirEntry { fileid: 2, name: nfsstring(b"file".to_vec()), attr: self.attr(2) });
        }
        Ok(ReadDirResult { entries, end: true })
    }
    fn symlink(&self, _d: fileid3, _l: &filename3, _s: &nfspath3, _a: &sattr3) -> Result<(fileid3, fattr3), nfsstat3> {
        self.note("symlink");
        self.change();
        Ok((3, self.attr(3)))
    }
    fn readlink(&self, _id: fileid3) -> Result<nfspath3, nfsstat3> {
        self.note("readlink");
        Ok(nfsstring(b"target".to_vec()))
    }
    fn serverid(&self) -> [u8; 8] {
        [9, 8, 7, 6, 5, 4, 3, 2]
    }
}

fn extended(caps: VFSCapabilities) -> DefaultNFSFileSystemExtended<Tiny> {
    DefaultNFSFileSystemExtended { vfs: Arc::new(Tiny::new(caps)) }
}

fn log(fs: &DefaultNFSFileSystemExtended<Tiny>) -> Vec<&'static str> {
    fs.vfs.log.lock().unwrap().clone()
}

fn name(s: &str) -> nfsstring {
    nfsstring(s.as_bytes().to_vec())
}

fn before(size: u64) -> pre_op_attr {
    let a = fattr3::default();
    pre_op_attr::attributes(wcc_attr { size, mtime: a.mtime, ctime: a.ctime })
}

fn dir_after(size: u64) -> post_op_attr {
    let mut a = fattr3::default();
    a.fileid = 1;
    a.ftype = ftype3::NF3DIR;
    a.size = size;
    post_op_attr::attributes(a)
}

#[test]
fn plain_operations_pass_through() {
    let fs = extended(VFSCapabilities::ReadOnly);
    let user = UserContext::default();
    assert_eq!(fs.capabilities(), VFSCapabilities::ReadOnly);
    assert_eq!(fs.root_dir(), 1);
    assert_eq!(fs.serverid(), [9, 8, 7, 6, 5, 4, 3, 2]);
    let fh = fs.id_to_fh(0x0102);
    assert_eq!(fh, nfs_fh3 { data: vec![9, 8, 7, 6, 5, 4, 3, 2, 2, 1, 0, 0, 0, 0, 0, 0] });
    assert_eq!(fs.fh_to_id(&fh), Ok(0x0102));
    assert_eq!(fs.fh_to_id(&nfs_fh3 { data: vec![0; 16] }), Err(nfsstat3::NFS3ERR_STALE));
    assert_eq!(fs.path_to_id(b"/"), Ok(1));
    assert_eq!(fs.path_to_id(b"/file"), Ok(2));
    assert_eq!(fs.path_to_id(b"/file/x"), Err(nfsstat3::NFS3ERR_NOENT));
    assert_eq!(fs.getattr(2, &user).map(|a| a.fileid), Ok(2));
    let page = fs.readdir(1, 0, 10, &user).unwrap();
    assert_eq!(page.entries.len(), 1);
    let plain = fs.readdir_simple(1, 0, 10, &user).unwrap();
    assert_eq!((plain.entries.len(), plain.entries[0].fileid, plain.end), (1, 2, true));
    // the plain listing resumes behind the cookie as the full one does
    assert!(fs.readdir_simple(1, 2, 10, &user).unwrap().entries.is_empty());
    assert!(fs.vfs.readdir_simple(1, 2, 10).unwrap().entries.is_empty());
    let info = fs.fsinfo(1, &user).unwrap();
    assert_eq!(info.obj_attributes, dir_after(0));
    assert_eq!(info.rtpref, 1 << 20);
    assert_eq!(fs.vfs.fsinfo(7).unwrap().obj_attributes, post_op_attr::Void);
}

#[test]
fn lookup_reads_directory_then_file() {
    let fs = extended(VFSCapabilities::ReadWrite);
    let user = UserContext::new(1, 2, vec![]);
    let mut dir = post_op_attr::Void;
    let mut obj = post_op_attr::Void;
    assert_eq!(fs.lookup(1, &name("file"), &user, &mut dir, &mut obj), Ok(2));
    assert_eq!(dir, dir_after(0));
    assert!(matches!(obj, post_op_attr::attributes(a) if a.fileid == 2));
    assert_eq!(log(&fs), vec!["getattr", "lookup", "getattr"]);
    let mut obj = post_op_attr::Void;
    assert_eq!(fs.lookup(1, &name("none"), &user, &mut dir, &mut obj), Err(nfsstat3::NFS3ERR_NOENT));
    assert_eq!(obj, post_op_attr::Void);
}

#[test]
fn access_is_masked_unless_writable() {
    let user = UserContext::default();
    let mut obj = post_op_attr::Void;
    let fs = extended(VFSCapabilities::ReadOnly);
    assert_eq!(fs.access(2, 0x3f, &user, &mut obj), Ok(0x03));
    assert!(matches!(obj, post_op_attr::attributes(_)));
    assert_eq!(fs.access(2, 0x2c, &user, &mut obj), Ok(0));
    let fs = extended(VFSCapabilities::ReadWrite);
    assert_eq!(fs.access(2, 0x3f, &user, &mut obj), Ok(0x3f));
    // attributes that cannot be read are reported as none
    assert_eq!(fs.access(5, 0x3f, &user, &mut obj), Ok(0x3f));
    assert_eq!(obj, post_op_attr::Void);
}

#[test]
fn changes_are_wrapped_in_attribute_reads() {
    let fs = extended(VFSCapabilities::ReadWrite);
    let user = UserContext::default();
    let mut pre = pre_op_attr::Void;
    let mut post = post_op_attr::Void;
    assert!(fs.create(1, &name("n"), sattr3::default(), &user, &mut pre, &mut post).is_ok());
    assert_eq!((pre, post), (before(0), dir_after(1)));
    assert_eq!(fs.create_exclusive(1, &name("n"), &user, &mut pre, &mut post), Ok(3));
    assert_eq!((pre, post), (before(1), dir_after(2)));
    assert!(fs.mkdir(1, &name("n"), &user, &mut pre, &mut post).is_ok());
    assert_eq!((pre, post), (before(2), dir_after(3)));
    assert_eq!(fs.remove(1, &name("n"), &user, &mut pre, &mut post), Ok(()));
    assert_eq!((pre, post), (before(3), dir_after(4)));
    assert!(fs.symlink(1, &name("n"), &name("t"), &sattr3::default(), &user, &mut pre, &mut post).is_ok());
    assert_eq!((pre, post), (before(4), dir_after(5)));
    let mut pre_to = pre_op_attr::Void;
    let mut post_to = post_op_attr::Void;
    assert_eq!(
        fs.rename(1, &name("a"), 1, &name("b"), &user, &mut pre, &mut pre_to, &mut post, &mut post_to),
        Ok(())
    );
    assert_eq!((pre, pre_to, post, post_to), (before(5), before(5), dir_after(6), dir_after(6)));
    assert_eq!(
        log(&fs),
        vec![
            "getattr", "create", "getattr", "getattr", "create_exclusive", "getattr", "getattr",
            "mkdir", "getattr", "getattr", "remove", "getattr", "getattr", "symlink", "getattr",
            "getattr", "getattr", "rename", "getattr", "getattr"
        ]
    );
}

#[test]
fn changes_go_on_where_the_directory_cannot_be_read() {
    let fs = extended(VFSCapabilities::ReadWrite);
    let user = UserContext::default();
    let some = pre_op_attr::attributes(wcc_attr::default());
    let mut pre = some;
    let mut post = dir_after(9);
    assert_eq!(fs.create_exclusive(7, &name("n"), &user, &mut pre, &mut post), Ok(3));
    assert_eq!((pre, post), (pre_op_attr::Void, post_op_attr::Void));
    let mut pre = some;
    assert!(fs.mkdir(7, &name("n"), &user, &mut pre, &mut post).is_ok());
    assert_eq!(pre, pre_op_attr::Void);
    let mut pre = some;
    assert_eq!(fs.remove(7, &name("n"), &user, &mut pre, &mut post), Ok(()));
    assert_eq!(pre, pre_op_attr::Void);
    let mut pre = some;
    assert!(fs.symlink(7, &name("n"), &name("t"), &sattr3::default(), &user, &mut pre, &mut post).is_ok());
    assert_eq!(pre, pre_op_attr::Void);
    let mut pre = some;
    assert!(fs.create(7, &name("n"), sattr3::default(), &user, &mut pre, &mut post).is_ok());
    assert_eq!(pre, pre_op_attr::Void);
    let mut pre = some;
    let mut pre_to = some;
    let mut post_to = dir_after(9);
    assert_eq!(
        fs.rename(1, &name("a"), 7, &name("b"), &user, &mut pre, &mut pre_to, &mut post, &mut post_to),
        Ok(())
    );
    assert_eq!((pre, pre_to, post, post_to), (before(5), pre_op_attr::Void, dir_after(6), post_op_attr::Void));
    assert_eq!(log(&fs).iter().filter(|c| **c != "getattr").count(), 6);
}

#[test]
fn reads_and_writes_report_attributes() {
    let fs = extended(VFSCapabilities::ReadWrite);
    let user = UserContext::default();
    let mut obj = post_op_attr::Void;
    assert_eq!(fs.read(2, 0, 10, &user, &mut obj), Ok((b"data".to_vec(), true)));
    assert!(matches!(obj, post_op_attr::attributes(a) if a.fileid == 2));
    let mut pre = pre_op_attr::Void;
    assert_eq!(fs.write(2, 0, b"x", &user, &mut pre).map(|a| a.fileid), Ok(2));
    assert_eq!(pre, before(0));
    assert_eq!(fs.setattr(2, sattr3::default(), &user).map(|a| a.fileid), Ok(2));
    let mut link = post_op_attr::Void;
    assert_eq!(fs.readlink(2, &user, &mut link), Ok(name("target")));
    assert!(matches!(link, post_op_attr::attributes(_)));
    assert_eq!(fs.readlink(9, &user, &mut link), Ok(name("target")));
    assert_eq!(link, post_op_attr::Void);
}
