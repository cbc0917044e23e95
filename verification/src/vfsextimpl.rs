//! Every file system as one with the attribute reads built in: each
//! operation reads the attributes before, runs, and reads them after.
//! Attributes that cannot be read are reported as none; the operation runs
//! all the same.
//!
//! What an operation returns is what the file system answered to the same
//! operation with the same arguments, and what it puts into the places for
//! attributes is what the file system answered to `getattr`.

use crate::nfs::{
    cookieverf3, fattr3, fileid3, filename3, fsinfo3, nfs_fh3, nfspath3, nfsstat3, post_op_attr,
    pre_op_attr, sattr3,
};
use crate::nfs_handlers::{grant_access, granted, post_attr, post_op, pre_attr, pre_op_of};
use crate::vfs::{
    derived_fsinfo, lemma_walked_nowhere, plain_answer, walked, NFSFileSystem, ReadDirResult,
    ReadDirSimpleResult, VFSCapabilities,
};
use crate::vfsext::{NFSFileSystemExtended, UserContext};
use std::sync::Arc;
use vstd::prelude::*;

verus! {

/// A file system with the attribute reads around each of its operations.
pub struct DefaultNFSFileSystemExtended<T: NFSFileSystem> {
    pub vfs: Arc<T>,
}

impl<T: NFSFileSystem> DefaultNFSFileSystemExtended<T> {
    /// Whether `pre` reports what the file system answered when asked for
    /// the attributes of `id`: size and times, or nothing where it failed.
    pub open spec fn read_before(&self, id: fileid3, pre: pre_op_attr) -> bool {
        exists|answer: Result<fattr3, nfsstat3>|
            #[trigger] self.vfs.getattr_answers(id, answer) && pre == pre_attr(answer)
    }

    /// Whether `post` reports what the file system answered when asked for
    /// the attributes of `id`: the attributes, or nothing where it failed.
    pub open spec fn read_after(&self, id: fileid3, post: post_op_attr) -> bool {
        exists|answer: Result<fattr3, nfsstat3>|
            #[trigger] self.vfs.getattr_answers(id, answer) && post == post_attr(answer)
    }

    /// The attributes of `id` to report from before an operation.
    fn attributes_before(&self, id: fileid3) -> (pre: pre_op_attr)
        ensures
            self.read_before(id, pre),
    {
        let answer = self.vfs.getattr(id);
        let pre = pre_op_of(&answer);
        assert(self.vfs.getattr_answers(id, answer) && pre == pre_attr(answer));
        pre
    }

    /// The attributes of `id` to report from after an operation.
    fn attributes_after(&self, id: fileid3) -> (post: post_op_attr)
        ensures
            self.read_after(id, post),
    {
        let answer = self.vfs.getattr(id);
        let post = post_op(&answer);
        assert(self.vfs.getattr_answers(id, answer) && post == post_attr(answer));
        post
    }
}

impl<T: NFSFileSystem> NFSFileSystemExtended for DefaultNFSFileSystemExtended<T> {
    open spec fn capabilities_spec(&self) -> VFSCapabilities {
        self.vfs.capabilities_spec()
    }

    open spec fn root_dir_spec(&self) -> fileid3 {
        self.vfs.root_dir_spec()
    }

    open spec fn serverid_spec(&self) -> Seq<u8> {
        self.vfs.serverid_spec()
    }

    fn capabilities(&self) -> (c: VFSCapabilities) {
        self.vfs.capabilities()
    }

    fn root_dir(&self) -> (id: fileid3) {
        self.vfs.root_dir()
    }

    /// Reads the attributes of the directory, looks the name up, and reads
    /// the attributes of the file if there is one.
    fn lookup(
        &self,
        dirid: fileid3,
        filename: &filename3,
        _user_ctx: &UserContext,
        dir_attr: &mut post_op_attr,
        obj_attr: &mut post_op_attr,
    ) -> (r: Result<fileid3, nfsstat3>)
        ensures
            self.vfs.lookup_answers(dirid, filename@, r),
            self.read_after(dirid, *final(dir_attr)),
            match r {
                Ok(fid) => self.read_after(fid, *final(obj_attr)),
                Err(_) => *final(obj_attr) == *old(obj_attr),
            },
    {
        *dir_attr = self.attributes_after(dirid);
        let result = self.vfs.lookup(dirid, filename);
        match result {
            Ok(fid) => {
                *obj_attr = self.attributes_after(fid);
            },
            Err(_) => {},
        }
        result
    }

    fn getattr(&self, id: fileid3, _user_ctx: &UserContext) -> (r: Result<fattr3, nfsstat3>)
        ensures
            self.vfs.getattr_answers(id, r),
    {
        self.vfs.getattr(id)
    }

    fn setattr(&self, id: fileid3, setattr: sattr3, _user_ctx: &UserContext) -> (r: Result<
        fattr3,
        nfsstat3,
    >)
        ensures
            self.vfs.setattr_answers(id, setattr, r),
    {
        self.vfs.setattr(id, setattr)
    }

    /// Grants what is asked about on a file system that takes changes, else
    /// reading and looking up.
    fn access(
        &self,
        id: fileid3,
        access: u32,
        _user_ctx: &UserContext,
        obj_attr: &mut post_op_attr,
    ) -> (r: Result<u32, nfsstat3>)
        ensures
            r == Ok::<u32, nfsstat3>(
                granted(self.vfs.capabilities_spec() == VFSCapabilities::ReadWrite, access),
            ),
            self.read_after(id, *final(obj_attr)),
    {
        *obj_attr = self.attributes_after(id);
        let writable = match self.vfs.capabilities() {
            VFSCapabilities::ReadWrite => true,
            VFSCapabilities::ReadOnly => false,
        };
        Ok(grant_access(writable, access))
    }

    fn read(
        &self,
        id: fileid3,
        offset: u64,
        count: u32,
        _user_ctx: &UserContext,
        obj_attr: &mut post_op_attr,
    ) -> (r: Result<(Vec<u8>, bool), nfsstat3>)
        ensures
            self.vfs.read_answers(id, offset, count, r),
            self.read_after(id, *final(obj_attr)),
    {
        *obj_attr = self.attributes_after(id);
        self.vfs.read(id, offset, count)
    }

    fn write(
        &self,
        id: fileid3,
        offset: u64,
        data: &[u8],
        _user_ctx: &UserContext,
        obj_attr: &mut pre_op_attr,
    ) -> (r: Result<fattr3, nfsstat3>)
        ensures
            self.vfs.write_answers(id, offset, data@, r),
            self.read_before(id, *final(obj_attr)),
    {
        *obj_attr = self.attributes_before(id);
        self.vfs.write(id, offset, data)
    }

    fn create(
        &self,
        dirid: fileid3,
        filename: &filename3,
        attr: sattr3,
        _user_ctx: &UserContext,
        pre_dir_attr: &mut pre_op_attr,
        post_dir_attr: &mut post_op_attr,
    ) -> (r: Result<(fileid3, fattr3), nfsstat3>)
        ensures
            self.vfs.create_answers(dirid, filename@, attr, r),
            self.read_before(dirid, *final(pre_dir_attr)),
            self.read_after(dirid, *final(post_dir_attr)),
    {
        *pre_dir_attr = self.attributes_before(dirid);
        let result = self.vfs.create(dirid, filename, attr);
        *post_dir_attr = self.attributes_after(dirid);
        result
    }

    fn create_exclusive(
        &self,
        dirid: fileid3,
        filename: &filename3,
        _user_ctx: &UserContext,
        pre_dir_attr: &mut pre_op_attr,
        post_dir_attr: &mut post_op_attr,
    ) -> (r: Result<fileid3, nfsstat3>)
        ensures
            self.vfs.create_exclusive_answers(dirid, filename@, r),
            self.read_before(dirid, *final(pre_dir_attr)),
            self.read_after(dirid, *final(post_dir_attr)),
    {
        *pre_dir_attr = self.attributes_before(dirid);
        let result = self.vfs.create_exclusive(dirid, filename);
        *post_dir_attr = self.attributes_after(dirid);
        result
    }

    fn mkdir(
        &self,
        dirid: fileid3,
        dirname: &filename3,
        _user_ctx: &UserContext,
        pre_dir_attr: &mut pre_op_attr,
        post_dir_attr: &mut post_op_attr,
    ) -> (r: Result<(fileid3, fattr3), nfsstat3>)
        ensures
            self.vfs.mkdir_answers(dirid, dirname@, r),
            self.read_before(dirid, *final(pre_dir_attr)),
            self.read_after(dirid, *final(post_dir_attr)),
    {
        *pre_dir_attr = self.attributes_before(dirid);
        let result = self.vfs.mkdir(dirid, dirname);
        *post_dir_attr = self.attributes_after(dirid);
        result
    }

    fn remove(
        &self,
        dirid: fileid3,
        filename: &filename3,
        _user_ctx: &UserContext,
        pre_dir_attr: &mut pre_op_attr,
        post_dir_attr: &mut post_op_attr,
    ) -> (r: Result<(), nfsstat3>)
        ensures
            self.vfs.remove_answers(dirid, filename@, r),
            self.read_before(dirid, *final(pre_dir_attr)),
            self.read_after(dirid, *final(post_dir_attr)),
    {
        *pre_dir_attr = self.attributes_before(dirid);
        let result = self.vfs.remove(dirid, filename);
        *post_dir_attr = self.attributes_after(dirid);
        result
    }

    fn rename(
        &self,
        from_dirid: fileid3,
        from_filename: &filename3,
        to_dirid: fileid3,
        to_filename: &filename3,
        _user_ctx: &UserContext,
        pre_from_dir_attr: &mut pre_op_attr,
        pre_to_dir_attr: &mut pre_op_attr,
        post_from_dir_attr: &mut post_op_attr,
        post_to_dir_attr: &mut post_op_attr,
    ) -> (r: Result<(), nfsstat3>)
        ensures
            self.vfs.rename_answers(from_dirid, from_filename@, to_dirid, to_filename@, r),
            self.read_before(from_dirid, *final(pre_from_dir_attr)),
            self.read_before(to_dirid, *final(pre_to_dir_attr)),
            self.read_after(from_dirid, *final(post_from_dir_attr)),
            self.read_after(to_dirid, *final(post_to_dir_attr)),
    {
        *pre_from_dir_attr = self.attributes_before(from_dirid);
        *pre_to_dir_attr = self.attributes_before(to_dirid);
        let result = self.vfs.rename(from_dirid, from_filename, to_dirid, to_filename);
        *post_from_dir_attr = self.attributes_after(from_dirid);
        *post_to_dir_attr = self.attributes_after(to_dirid);
        result
    }

    open spec fn readdir_answers(
        &self,
        dirid: fileid3,
        start_after: fileid3,
        max_entries: usize,
        user_ctx: UserContext,
        answer: Result<ReadDirResult, nfsstat3>,
    ) -> bool {
        self.vfs.readdir_answers(dirid, start_after, max_entries, answer)
    }

    fn readdir(
        &self,
        dirid: fileid3,
        start_after: fileid3,
        max_entries: usize,
        _user_ctx: &UserContext,
    ) -> (r: Result<ReadDirResult, nfsstat3>)
        ensures
            self.vfs.readdir_answers(dirid, start_after, max_entries, r),
    {
        self.vfs.readdir(dirid, start_after, max_entries)
    }

    fn readdir_simple(
        &self,
        dirid: fileid3,
        start_after: fileid3,
        count: usize,
        user_ctx: &UserContext,
    ) -> (r: Result<ReadDirSimpleResult, nfsstat3>)
        ensures
            exists|answer: Result<ReadDirResult, nfsstat3>|
                #[trigger] self.vfs.readdir_answers(dirid, start_after, count, answer)
                    && plain_answer(answer, r),
    {
        let answer = self.readdir(dirid, start_after, count, user_ctx);
        let r = match &answer {
            Ok(result) => Ok(ReadDirSimpleResult::from_readdir_result(result)),
            Err(stat) => Err(*stat),
        };
        assert(self.vfs.readdir_answers(dirid, start_after, count, answer) && plain_answer(
            answer,
            r,
        ));
        r
    }

    fn symlink(
        &self,
        dirid: fileid3,
        linkname: &filename3,
        symlink: &nfspath3,
        attr: &sattr3,
        _user_ctx: &UserContext,
        pre_obj_attr: &mut pre_op_attr,
        post_obj_attr: &mut post_op_attr,
    ) -> (r: Result<(fileid3, fattr3), nfsstat3>)
        ensures
            self.vfs.symlink_answers(dirid, linkname@, symlink@, *attr, r),
            self.read_before(dirid, *final(pre_obj_attr)),
            self.read_after(dirid, *final(post_obj_attr)),
    {
        *pre_obj_attr = self.attributes_before(dirid);
        let result = self.vfs.symlink(dirid, linkname, symlink, attr);
        *post_obj_attr = self.attributes_after(dirid);
        result
    }

    fn readlink(
        &self,
        id: fileid3,
        _user_ctx: &UserContext,
        symlink_attr: &mut post_op_attr,
    ) -> (r: Result<nfspath3, nfsstat3>)
        ensures
            self.vfs.readlink_answers(id, r),
            self.read_after(id, *final(symlink_attr)),
    {
        *symlink_attr = self.attributes_after(id);
        self.vfs.readlink(id)
    }

    fn fsinfo(&self, root_fileid: fileid3, _user_ctx: &UserContext) -> (r: Result<
        fsinfo3,
        nfsstat3,
    >)
        ensures
            self.vfs.fsinfo_answers(root_fileid, r) || derived_fsinfo(
                &*self.vfs,
                root_fileid,
                r,
            ),
    {
        self.vfs.fsinfo(root_fileid)
    }

    fn id_to_fh(&self, id: fileid3) -> (fh: nfs_fh3) {
        self.vfs.id_to_fh(id)
    }

    fn fh_to_id(&self, id: &nfs_fh3) -> (r: Result<fileid3, nfsstat3>) {
        self.vfs.fh_to_id(id)
    }

    open spec fn path_to_id_answers(
        &self,
        path: Seq<u8>,
        answer: Result<fileid3, nfsstat3>,
    ) -> bool {
        walked(&*self.vfs, path, answer)
    }

    fn path_to_id(&self, path: &[u8]) -> (r: Result<fileid3, nfsstat3>) {
        let r = self.vfs.path_to_id(path);
        proof {
            if crate::vfs::path_components(path@).len() == 0 {
                lemma_walked_nowhere(&*self.vfs, path@, r);
            }
        }
        r
    }

    fn serverid(&self) -> (id: cookieverf3) {
        self.vfs.serverid()
    }
}

} // verus!
