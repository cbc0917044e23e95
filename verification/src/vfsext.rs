//! The file system with the attribute reads built in: every operation
//! hands back, with its result, the attributes that the reply to the client
//! carries from before and after. An implementation can read them under
//! the lock that it holds for the operation.

use crate::nfs::{
    cookieverf3, fattr3, fileid3, filename3, fsinfo3, nfs_fh3, nfspath3, nfsstat3, post_op_attr,
    pre_op_attr, sattr3,
};
use crate::rpc::auth_unix;
use crate::vfs::{
    handle_bytes, handle_id, make_fsinfo, plain_answer, standard_fsinfo, ReadDirResult,
    ReadDirSimpleResult, VFSCapabilities,
};
use vstd::prelude::*;

verus! {

/// Who makes a call: user, group and further groups.
#[derive(Debug)]
pub struct UserContext {
    _uid: u32,
    _gid: u32,
    _gids: Vec<u32>,
}

impl UserContext {
    /// The user.
    pub closed spec fn uid(&self) -> u32 {
        self._uid
    }

    /// The group.
    pub closed spec fn gid(&self) -> u32 {
        self._gid
    }

    /// The further groups.
    pub closed spec fn gids(&self) -> Seq<u32> {
        self._gids@
    }

    pub fn new(uid: u32, gid: u32, gids: Vec<u32>) -> (user: UserContext)
        ensures
            user.uid() == uid,
            user.gid() == gid,
            user.gids() == gids@,
    {
        UserContext { _uid: uid, _gid: gid, _gids: gids }
    }
}

impl Default for UserContext {
    fn default() -> (user: UserContext)
        ensures
            user.uid() == 0,
            user.gid() == 0,
            user.gids().len() == 0,
    {
        UserContext { _uid: 0, _gid: 0, _gids: Vec::new() }
    }
}

impl vstd::std_specs::convert::FromSpecImpl<&auth_unix> for UserContext {
    open spec fn obeys_from_spec() -> bool {
        false
    }

    open spec fn from_spec(auth: &auth_unix) -> UserContext {
        arbitrary()
    }
}

impl From<&auth_unix> for UserContext {
    /// The caller that Unix credentials name.
    fn from(auth: &auth_unix) -> (user: UserContext)
        ensures
            user.uid() == auth.uid,
            user.gid() == auth.gid,
            user.gids() == auth.gids@,
    {
        let mut gids: Vec<u32> = Vec::new();
        let n: usize = auth.gids.len();
        let mut i: usize = 0;
        while i < n
            invariant
                i <= n,
                n == auth.gids@.len(),
                gids@ == auth.gids@.subrange(0, i as int),
            decreases n - i,
        {
            gids.push(auth.gids[i]);
            i = i + 1;
        }
        assert(auth.gids@.subrange(0, n as int) =~= auth.gids@);
        UserContext { _uid: auth.uid, _gid: auth.gid, _gids: gids }
    }
}

/// The file system that the engine serves, with the attribute reads built
/// in.
///
/// The operations are those of [`crate::vfs::NFSFileSystem`]. Each takes
/// the caller, and the operations whose replies carry attributes take the
/// places to put them: the attributes of the directory or object from
/// before the operation, and those from after. An operation leaves a place
/// as it is where it has nothing to put there.
///
/// `capabilities`, `root_dir` and `serverid` answer the same on every call;
/// what they answer is `capabilities_spec`, `root_dir_spec` and
/// `serverid_spec`, which an implementation that is verified defines. The
/// operations that change the file system are called only on a file system
/// that takes changes.
pub trait NFSFileSystemExtended {
    /// What `capabilities` answers. An implementation that is verified
    /// says what; of any other, this is whatever it answers.
    open spec fn capabilities_spec(&self) -> VFSCapabilities {
        arbitrary()
    }

    /// What `root_dir` answers.
    open spec fn root_dir_spec(&self) -> fileid3 {
        arbitrary()
    }

    /// What `serverid` answers.
    open spec fn serverid_spec(&self) -> Seq<u8> {
        arbitrary()
    }

    /// What the file system lets clients do.
    fn capabilities(&self) -> (c: VFSCapabilities)
        ensures
            c == self.capabilities_spec(),
    ;

    /// The identifier of the root directory `/`.
    fn root_dir(&self) -> (id: fileid3)
        ensures
            id == self.root_dir_spec(),
    ;

    /// The identifier of the file `filename` in directory `dirid`, with the
    /// attributes of the directory and of the file.
    fn lookup(
        &self,
        dirid: fileid3,
        filename: &filename3,
        user_ctx: &UserContext,
        dir_attr: &mut post_op_attr,
        obj_attr: &mut post_op_attr,
    ) -> Result<fileid3, nfsstat3>;

    /// The attributes of a file.
    fn getattr(&self, id: fileid3, user_ctx: &UserContext) -> Result<fattr3, nfsstat3>;

    /// Sets attributes of a file and returns what they are afterwards.
    fn setattr(&self, id: fileid3, setattr: sattr3, user_ctx: &UserContext) -> Result<
        fattr3,
        nfsstat3,
    >
        requires
            self.capabilities_spec() == VFSCapabilities::ReadWrite,
    ;

    /// The access rights that the caller has of those asked about, with the
    /// attributes of the object.
    fn access(
        &self,
        id: fileid3,
        access: u32,
        user_ctx: &UserContext,
        obj_attr: &mut post_op_attr,
    ) -> Result<u32, nfsstat3>;

    /// Up to `count` bytes of a file from `offset` on, and whether the read
    /// reached the end of the file, with the attributes of the file.
    fn read(
        &self,
        id: fileid3,
        offset: u64,
        count: u32,
        user_ctx: &UserContext,
        obj_attr: &mut post_op_attr,
    ) -> Result<(Vec<u8>, bool), nfsstat3>;

    /// Writes `data` into a file at `offset` and returns the attributes of
    /// the file afterwards, with those from before.
    fn write(
        &self,
        id: fileid3,
        offset: u64,
        data: &[u8],
        user_ctx: &UserContext,
        obj_attr: &mut pre_op_attr,
    ) -> Result<fattr3, nfsstat3>
        requires
            self.capabilities_spec() == VFSCapabilities::ReadWrite,
    ;

    /// Creates a file with the attributes given.
    fn create(
        &self,
        dirid: fileid3,
        filename: &filename3,
        attr: sattr3,
        user_ctx: &UserContext,
        pre_dir_attr: &mut pre_op_attr,
        post_dir_attr: &mut post_op_attr,
    ) -> Result<(fileid3, fattr3), nfsstat3>
        requires
            self.capabilities_spec() == VFSCapabilities::ReadWrite,
    ;

    /// Creates a file unless one of that name exists.
    fn create_exclusive(
        &self,
        dirid: fileid3,
        filename: &filename3,
        user_ctx: &UserContext,
        pre_dir_attr: &mut pre_op_attr,
        post_dir_attr: &mut post_op_attr,
    ) -> Result<fileid3, nfsstat3>
        requires
            self.capabilities_spec() == VFSCapabilities::ReadWrite,
    ;

    /// Makes a directory.
    fn mkdir(
        &self,
        dirid: fileid3,
        dirname: &filename3,
        user_ctx: &UserContext,
        pre_dir_attr: &mut pre_op_attr,
        post_dir_attr: &mut post_op_attr,
    ) -> Result<(fileid3, fattr3), nfsstat3>
        requires
            self.capabilities_spec() == VFSCapabilities::ReadWrite,
    ;

    /// Removes a file or a directory.
    fn remove(
        &self,
        dirid: fileid3,
        filename: &filename3,
        user_ctx: &UserContext,
        pre_dir_attr: &mut pre_op_attr,
        post_dir_attr: &mut post_op_attr,
    ) -> Result<(), nfsstat3>
        requires
            self.capabilities_spec() == VFSCapabilities::ReadWrite,
    ;

    /// Moves a file from one directory and name to another.
    fn rename(
        &self,
        from_dirid: fileid3,
        from_filename: &filename3,
        to_dirid: fileid3,
        to_filename: &filename3,
        user_ctx: &UserContext,
        pre_from_dir_attr: &mut pre_op_attr,
        pre_to_dir_attr: &mut pre_op_attr,
        post_from_dir_attr: &mut post_op_attr,
        post_to_dir_attr: &mut post_op_attr,
    ) -> Result<(), nfsstat3>
        requires
            self.capabilities_spec() == VFSCapabilities::ReadWrite,
    ;

    /// Whether `answer` is what the file system answers `user_ctx` to
    /// `readdir` of up to `max_entries` entries of `dirid` behind
    /// `start_after`. It is true of every answer unless an implementation
    /// says more.
    open spec fn readdir_answers(
        &self,
        dirid: fileid3,
        start_after: fileid3,
        max_entries: usize,
        user_ctx: UserContext,
        answer: Result<ReadDirResult, nfsstat3>,
    ) -> bool {
        true
    }

    /// Up to `max_entries` entries of a directory, starting behind the
    /// entry `start_after`.
    fn readdir(
        &self,
        dirid: fileid3,
        start_after: fileid3,
        max_entries: usize,
        user_ctx: &UserContext,
    ) -> (r: Result<ReadDirResult, nfsstat3>)
        ensures
            self.readdir_answers(dirid, start_after, max_entries, *user_ctx, r),
    ;

    /// As `readdir`, without the attributes: what `readdir` answers the
    /// same caller to the same directory, cookie and count, as a plain
    /// page.
    fn readdir_simple(
        &self,
        dirid: fileid3,
        start_after: fileid3,
        count: usize,
        user_ctx: &UserContext,
    ) -> (r: Result<ReadDirSimpleResult, nfsstat3>)
        ensures
            exists|answer: Result<ReadDirResult, nfsstat3>|
                #[trigger] self.readdir_answers(dirid, start_after, count, *user_ctx, answer)
                    && plain_answer(answer, r),
    {
        let answer = self.readdir(dirid, start_after, count, user_ctx);
        let r = match &answer {
            Ok(result) => Ok(ReadDirSimpleResult::from_readdir_result(result)),
            Err(stat) => Err(*stat),
        };
        assert(self.readdir_answers(dirid, start_after, count, *user_ctx, answer) && plain_answer(
            answer,
            r,
        ));
        r
    }

    /// Makes a symbolic link.
    fn symlink(
        &self,
        dirid: fileid3,
        linkname: &filename3,
        symlink: &nfspath3,
        attr: &sattr3,
        user_ctx: &UserContext,
        pre_obj_attr: &mut pre_op_attr,
        post_obj_attr: &mut post_op_attr,
    ) -> Result<(fileid3, fattr3), nfsstat3>
        requires
            self.capabilities_spec() == VFSCapabilities::ReadWrite,
    ;

    /// What a symbolic link points to, with the attributes of the link.
    fn readlink(
        &self,
        id: fileid3,
        user_ctx: &UserContext,
        symlink_attr: &mut post_op_attr,
    ) -> Result<nfspath3, nfsstat3>;

    /// Static information on the file system.
    fn fsinfo(&self, root_fileid: fileid3, user_ctx: &UserContext) -> (r: Result<fsinfo3, nfsstat3>)
        default_ensures
            r matches Ok(info) && exists|a: post_op_attr| info == standard_fsinfo(a),
    {
        let dir_attr = match self.getattr(root_fileid, user_ctx) {
            Ok(v) => post_op_attr::attributes(v),
            Err(_) => post_op_attr::Void,
        };
        Ok(make_fsinfo(dir_attr))
    }

    /// The opaque handle of a file.
    fn id_to_fh(&self, id: fileid3) -> (fh: nfs_fh3)
        ensures
            fh@ == handle_bytes(self.serverid_spec(), id),
            fh@.len() == 16,
    ;

    /// The file that an opaque handle names.
    fn fh_to_id(&self, id: &nfs_fh3) -> (r: Result<fileid3, nfsstat3>)
        ensures
            r == handle_id(self.serverid_spec(), id@),
    ;

    /// Whether `answer` is what the file system answers to `path_to_id` of
    /// `path`. It is true of every answer unless an implementation says
    /// more.
    open spec fn path_to_id_answers(
        &self,
        path: Seq<u8>,
        answer: Result<fileid3, nfsstat3>,
    ) -> bool {
        true
    }

    /// The file at the end of a path. A path without components is the
    /// root.
    fn path_to_id(&self, path: &[u8]) -> (r: Result<fileid3, nfsstat3>)
        ensures
            self.path_to_id_answers(path@, r),
            crate::vfs::path_components(path@).len() == 0 ==> r == Ok::<fileid3, nfsstat3>(
                self.root_dir_spec(),
            ),
    ;

    /// The identifier of this server instance.
    fn serverid(&self) -> (id: cookieverf3)
        ensures
            id@ == self.serverid_spec(),
    ;
}

} // verus!
