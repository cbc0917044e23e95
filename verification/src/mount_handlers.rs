//! The procedures of the mount protocol. A mount or an unmount is an event
//! that the caller may want to pass on: the procedures return it.

use crate::context::RPCContext;
use crate::mount::{fhandle3, mountstat3, VERSION};
use crate::nfs::{fileid3, nfsstat3};
use crate::nfs_handlers::{
    appended, extends, lemma_appended, proc_unavail_reply, prog_mismatch_reply, read_to,
    write_garbage,
};
use crate::rpc::{
    accept_body, auth_flavor, call_body, garbage_reply, mismatch_info, success_header,
    write_accepted,
};
use crate::vfs::{handle_bytes, lemma_walked_nowhere, path_components, walked, NFSFileSystem};
use crate::xdr::{
    fail, lemma_aligned_sum, lemma_concat_assoc, lemma_field, next, opaque_encoding, val,
    ByteReader, XdrError, XDR,
};
use vstd::prelude::*;

verus! {

/// The results of a successful MNT: the handle of the directory mounted,
/// and the authentication flavors that the server takes.
#[derive(Clone, Debug, PartialEq, Eq)]
pub struct mountres3_ok {
    pub fhandle: fhandle3,
    pub auth_flavors: Vec<u32>,
}

/// What a [`mountres3_ok`] holds.
pub struct mountres3_ok_view {
    pub fhandle: Seq<u8>,
    pub auth_flavors: Seq<u32>,
}

impl View for mountres3_ok {
    type V = mountres3_ok_view;

    open spec fn view(&self) -> mountres3_ok_view {
        mountres3_ok_view {
            fhandle: self.fhandle@,
            auth_flavors: self.auth_flavors@,
        }
    }
}

impl Default for mountres3_ok {
    fn default() -> (r: mountres3_ok)
        ensures
            r.fhandle@.len() == 0,
            r.auth_flavors@.len() == 0,
    {
        mountres3_ok {
            fhandle: Vec::new(),
            auth_flavors: Vec::new(),
        }
    }
}

impl XDR for mountres3_ok {
    #[verifier::opaque]
    open spec fn encoding(v: mountres3_ok_view) -> Seq<u8> {
        <fhandle3>::encoding(v.fhandle) + (<Vec<u32>>::encoding(v.auth_flavors))
    }

    open spec fn encodable(v: mountres3_ok_view) -> bool {
        &&& <fhandle3>::encodable(v.fhandle)
        &&& <Vec<u32>>::encodable(v.auth_flavors)
    }

    #[verifier::opaque]
    open spec fn decoding(src: Seq<u8>, pos: int) -> Result<(mountres3_ok_view, int), XdrError> {
        let fhandle = <fhandle3>::decoding(src, pos);
        let auth_flavors = <Vec<u32>>::decoding(src, next(fhandle));
        if fhandle is Err {
            fail(fhandle)
        } else if auth_flavors is Err {
            fail(auth_flavors)
        } else {
            Ok(
                (
                    mountres3_ok_view {
                        fhandle: val(fhandle),
                        auth_flavors: val(auth_flavors),
                    },
                    next(auth_flavors),
                ),
            )
        }
    }

    fn serialize(&self, dest: &mut Vec<u8>) {
        self.fhandle.serialize(dest);
        self.auth_flavors.serialize(dest);
        proof {
            reveal(<mountres3_ok as XDR>::encoding);
            let d0 = old(dest)@;
            let t1 = <Vec<u32>>::encoding(self.auth_flavors@);
            lemma_concat_assoc(d0, <fhandle3>::encoding(self.fhandle@), t1);
        }
    }

    fn deserialize(&mut self, src: &mut ByteReader) -> (r: Result<(), XdrError>) {
        proof {
            reveal(<mountres3_ok as XDR>::decoding);
        }
        self.fhandle.deserialize(src)?;
        self.auth_flavors.deserialize(src)?;
        Ok(())
    }

    proof fn lemma_decoding_inverts_encoding(v: mountres3_ok_view, src: Seq<u8>, pos: int) {
        reveal(<mountres3_ok as XDR>::encoding);
        reveal(<mountres3_ok as XDR>::decoding);
        let t1 = <Vec<u32>>::encoding(v.auth_flavors);
        lemma_field::<Vec<u8>>(v.fhandle, t1, src, pos);
        let p1 = pos + <fhandle3>::encoding(v.fhandle).len();
        <Vec<u32>>::lemma_decoding_inverts_encoding(v.auth_flavors, src, p1);
    }

    open spec fn word_aligned() -> bool {
        true
    }

    proof fn lemma_encoding_aligned(v: mountres3_ok_view) {
        reveal(<mountres3_ok as XDR>::encoding);
        <fhandle3>::lemma_encoding_aligned(v.fhandle);
        <Vec<u32>>::lemma_encoding_aligned(v.auth_flavors);
        let n1 = <Vec<u32>>::encoding(v.auth_flavors).len() as int;
        let n0 = <fhandle3>::encoding(v.fhandle).len() + n1;
        lemma_aligned_sum(<fhandle3>::encoding(v.fhandle).len() as int, n1);
        assert(Self::encoding(v).len() == n0);
    }
}

/// NULL: does nothing and says so.
pub fn mountproc3_null(xid: u32, input: &mut ByteReader, output: &mut Vec<u8>)
    ensures
        final(output)@ == old(output)@ + success_header(xid),
        *final(input) == *old(input),
{
    write_accepted(xid, accept_body::SUCCESS, output);
}

/// The authentication flavors that the server takes: none, and Unix.
pub open spec fn accepted_flavors() -> Seq<u32> {
    seq![0u32, 1u32]
}

/// The reply of MNT given where the file system found the path: the handle
/// of the directory, or that there is no such directory.
pub open spec fn mnt_reply(xid: u32, serverid: Seq<u8>, found: Result<fileid3, nfsstat3>) -> Seq<
    u8,
> {
    match found {
        Ok(id) => success_header(xid) + mountstat3::encoding(mountstat3::MNT3_OK)
            + mountres3_ok::encoding(
            mountres3_ok_view {
                fhandle: handle_bytes(serverid, id),
                auth_flavors: accepted_flavors(),
            },
        ),
        Err(_) => success_header(xid) + mountstat3::encoding(mountstat3::MNT3ERR_NOENT),
    }
}

/// The event of a MNT: a mount, if the path was found.
pub open spec fn mnt_event(found: Result<fileid3, nfsstat3>) -> Option<bool> {
    if found is Ok {
        Some(true)
    } else {
        None
    }
}

/// What MNT may reply to the arguments `args`, and the event with it: the
/// reply to where the walk along the path ends in the file system, and a
/// mount if it ends at a file.
pub open spec fn mnt_replies<F: NFSFileSystem>(
    fs: &F,
    xid: u32,
    args: Result<(Seq<u8>, int), XdrError>,
    reply: Seq<u8>,
    event: Option<bool>,
) -> bool {
    match args {
        Err(_) => reply == garbage_reply(xid) && event is None,
        Ok((path, _)) => exists|found: Result<fileid3, nfsstat3>|
            #[trigger] walked(fs, path, found) && reply == mnt_reply(
                xid,
                fs.serverid_spec(),
                found,
            ) && event == mnt_event(found),
    }
}

/// MNT of a path without components mounts the root.
pub proof fn lemma_mnt_root<F: NFSFileSystem>(
    fs: &F,
    xid: u32,
    path: Seq<u8>,
    end: int,
    reply: Seq<u8>,
    event: Option<bool>,
)
    requires
        mnt_replies(fs, xid, Ok((path, end)), reply, event),
        path_components(path).len() == 0,
    ensures
        reply == mnt_reply(xid, fs.serverid_spec(), Ok(fs.root_dir_spec())),
        event == Some(true),
{
    let found = choose|found: Result<fileid3, nfsstat3>|
        #[trigger] walked(fs, path, found) && reply == mnt_reply(xid, fs.serverid_spec(), found)
            && event == mnt_event(found);
    lemma_walked_nowhere(fs, path, found);
}

/// Appends the reply of MNT given where the file system found the path.
pub fn write_mnt_reply<F: NFSFileSystem>(
    xid: u32,
    found: &Result<fileid3, nfsstat3>,
    output: &mut Vec<u8>,
    context: &RPCContext<F>,
) -> (event: Option<bool>)
    ensures
        final(output)@ == old(output)@ + mnt_reply(xid, context.vfs.serverid_spec(), *found),
        event == mnt_event(*found),
{
    match found {
        Ok(fileid) => {
            let mut auth_flavors: Vec<u32> = Vec::new();
            auth_flavors.push(auth_flavor::AUTH_NULL.to_u32());
            auth_flavors.push(auth_flavor::AUTH_UNIX.to_u32());
            assert(auth_flavors@ =~= accepted_flavors());
            let response = mountres3_ok {
                fhandle: context.vfs.id_to_fh(*fileid).data,
                auth_flavors,
            };
            write_accepted(xid, accept_body::SUCCESS, output);
            mountstat3::MNT3_OK.serialize(output);
            response.serialize(output);
            assert(output@ =~= old(output)@ + mnt_reply(
                xid,
                context.vfs.serverid_spec(),
                *found,
            ));
            Some(true)
        },
        Err(_) => {
            write_accepted(xid, accept_body::SUCCESS, output);
            mountstat3::MNT3ERR_NOENT.serialize(output);
            assert(output@ =~= old(output)@ + mnt_reply(
                xid,
                context.vfs.serverid_spec(),
                *found,
            ));
            None
        },
    }
}

/// MNT: the handle of the directory at a path.
pub fn mountproc3_mnt<F: NFSFileSystem>(
    xid: u32,
    input: &mut ByteReader,
    output: &mut Vec<u8>,
    context: &RPCContext<F>,
) -> (event: Option<bool>)
    ensures
        final(input).data@ == old(input).data@,
        extends(old(output)@, final(output)@),
        read_to(
            <Vec<u8>>::decoding(old(input).data@, old(input).pos as int),
            final(input).pos as int,
        ),
        mnt_replies(
            &*context.vfs,
            xid,
            <Vec<u8>>::decoding(old(input).data@, old(input).pos as int),
            appended(old(output)@, final(output)@),
            event,
        ),
{
    let ghost serverid = context.vfs.serverid_spec();
    let mut path: Vec<u8> = Vec::new();
    if path.deserialize(input).is_err() {
        write_garbage(xid, output);
        proof {
            lemma_appended(old(output)@, garbage_reply(xid));
        }
        return None;
    }
    let found = context.vfs.path_to_id(path.as_slice());
    let event = write_mnt_reply(xid, &found, output, context);
    proof {
        lemma_appended(old(output)@, mnt_reply(xid, serverid, found));
        assert(walked(&*context.vfs, path@, found));
    }
    event
}

/// The one export: the path `/`, open to every client.
pub open spec fn export_reply(xid: u32) -> Seq<u8> {
    success_header(xid) + bool::encoding(true) + opaque_encoding(seq![47u8]) + bool::encoding(false)
        + bool::encoding(false)
}

/// EXPORT: the list of exports.
pub fn mountproc3_export(xid: u32, input: &mut ByteReader, output: &mut Vec<u8>)
    ensures
        final(output)@ == old(output)@ + export_reply(xid),
        *final(input) == *old(input),
{
    write_accepted(xid, accept_body::SUCCESS, output);
    true.serialize(output);
    let mut root: Vec<u8> = Vec::new();
    root.push(47u8);
    assert(root@ =~= seq![47u8]);
    root.serialize(output);
    false.serialize(output);
    false.serialize(output);
    assert(output@ =~= old(output)@ + export_reply(xid));
}

/// The reply of UMNT and of UMNTALL.
pub open spec fn umnt_reply(xid: u32) -> Seq<u8> {
    success_header(xid) + mountstat3::encoding(mountstat3::MNT3_OK)
}

/// UMNT: notes that a client unmounts a directory. The event is an
/// unmount.
pub fn mountproc3_umnt<F: NFSFileSystem>(
    xid: u32,
    input: &mut ByteReader,
    output: &mut Vec<u8>,
    context: &RPCContext<F>,
) -> (event: Option<bool>)
    ensures
        final(input).data@ == old(input).data@,
        match <Vec<u8>>::decoding(old(input).data@, old(input).pos as int) {
            Err(_) => final(output)@ == old(output)@ + garbage_reply(xid) && event is None,
            Ok((_, end)) => final(output)@ == old(output)@ + umnt_reply(xid) && event == Some(
                false,
            ) && final(input).pos == end,
        },
{
    let mut path: Vec<u8> = Vec::new();
    if path.deserialize(input).is_err() {
        write_garbage(xid, output);
        return None;
    }
    write_accepted(xid, accept_body::SUCCESS, output);
    mountstat3::MNT3_OK.serialize(output);
    assert(output@ =~= old(output)@ + umnt_reply(xid));
    Some(false)
}

/// UMNTALL: notes that a client unmounts everything. The event is an
/// unmount.
pub fn mountproc3_umnt_all<F: NFSFileSystem>(
    xid: u32,
    input: &mut ByteReader,
    output: &mut Vec<u8>,
    context: &RPCContext<F>,
) -> (event: Option<bool>)
    ensures
        *final(input) == *old(input),
        final(output)@ == old(output)@ + umnt_reply(xid),
        event == Some(false),
{
    write_accepted(xid, accept_body::SUCCESS, output);
    mountstat3::MNT3_OK.serialize(output);
    assert(output@ =~= old(output)@ + umnt_reply(xid));
    Some(false)
}

/// What the mount program may reply to procedure `procedure` of version
/// `vers`, and the event with it. Another version than 3 is a mismatch;
/// DUMP and numbers past EXPORT are unavailable.
pub open spec fn mount_replies<F: NFSFileSystem>(
    fs: &F,
    xid: u32,
    vers: u32,
    procedure: u32,
    src: Seq<u8>,
    pos: int,
    reply: Seq<u8>,
    event: Option<bool>,
) -> bool {
    if vers != 3 {
        reply == prog_mismatch_reply(xid, 3) && event is None
    } else if procedure == 0 {
        reply == success_header(xid) && event is None
    } else if procedure == 1 {
        mnt_replies(fs, xid, <Vec<u8>>::decoding(src, pos), reply, event)
    } else if procedure == 3 {
        match <Vec<u8>>::decoding(src, pos) {
            Err(_) => reply == garbage_reply(xid) && event is None,
            Ok(_) => reply == umnt_reply(xid) && event == Some(false),
        }
    } else if procedure == 4 {
        reply == umnt_reply(xid) && event == Some(false)
    } else if procedure == 5 {
        reply == export_reply(xid) && event is None
    } else {
        reply == proc_unavail_reply(xid) && event is None
    }
}

/// Whether `end` is where the mount program leaves the cursor that stood
/// at `pos`: behind the path of MNT and of UMNT where it decodes, and at
/// `pos` for every other procedure.
pub open spec fn mount_reads(vers: u32, procedure: u32, src: Seq<u8>, pos: int, end: int) -> bool {
    if vers == 3 && (procedure == 1 || procedure == 3) {
        read_to(<Vec<u8>>::decoding(src, pos), end)
    } else {
        end == pos
    }
}

/// Serves a call of the mount program.
pub fn handle_mount<F: NFSFileSystem>(
    xid: u32,
    call: call_body,
    input: &mut ByteReader,
    output: &mut Vec<u8>,
    context: &RPCContext<F>,
) -> (event: Option<bool>)
    ensures
        final(input).data@ == old(input).data@,
        extends(old(output)@, final(output)@),
        mount_reads(
            call.vers,
            call.proc,
            old(input).data@,
            old(input).pos as int,
            final(input).pos as int,
        ),
        mount_replies(
            &*context.vfs,
            xid,
            call.vers,
            call.proc,
            old(input).data@,
            old(input).pos as int,
            appended(old(output)@, final(output)@),
            event,
        ),
{
    if call.vers != VERSION {
        write_accepted(
            xid,
            accept_body::PROG_MISMATCH(mismatch_info { low: VERSION, high: VERSION }),
            output,
        );
        proof {
            lemma_appended(old(output)@, prog_mismatch_reply(xid, 3));
        }
        return None;
    }
    match call.proc {
        0 => {
            mountproc3_null(xid, input, output);
            proof {
                lemma_appended(old(output)@, success_header(xid));
            }
            None
        },
        1 => mountproc3_mnt(xid, input, output, context),
        3 => {
            let event = mountproc3_umnt(xid, input, output, context);
            proof {
                lemma_appended(old(output)@, garbage_reply(xid));
                lemma_appended(old(output)@, umnt_reply(xid));
            }
            event
        },
        4 => {
            let event = mountproc3_umnt_all(xid, input, output, context);
            proof {
                lemma_appended(old(output)@, umnt_reply(xid));
            }
            event
        },
        5 => {
            mountproc3_export(xid, input, output);
            proof {
                lemma_appended(old(output)@, export_reply(xid));
            }
            None
        },
        _ => {
            write_accepted(xid, accept_body::PROC_UNAVAIL, output);
            proof {
                lemma_appended(old(output)@, proc_unavail_reply(xid));
            }
            None
        },
    }
}

} // verus!
