//! Calls and records: the dispatch of a call to its program, and the record
//! marking that carries RPC messages over a byte stream.
//!
//! A record is one or more fragments. A fragment is a header of four bytes
//! and its payload; the highest bit of the header says whether the fragment
//! is the last of its record, the other 31 bits are the length of the
//! payload.

use crate::context::RPCContext;
use crate::mount;
use crate::mount::mountstat3;
use crate::mount_handlers::{
    accepted_flavors, handle_mount, mnt_event, mnt_reply, mount_reads, mount_replies,
    mountres3_ok, mountres3_ok_view,
};
use crate::nfs;
use crate::nfs::{copy_bytes, fileid3, nfsstat3};
use crate::nfs_handlers::{
    accepts, appended, extends, handle_nfs, lemma_accepts_message, lemma_accepts_more,
    lemma_appended, lemma_nfs_reply_answers_call, nfs_reads, nfs_replies, writable,
    write_garbage,
};
use crate::portmap;
use crate::portmap_handlers::{handle_portmap, portmap_reads, portmap_replies};
use crate::rpc::{
    accept_body, accepted_message, auth_flavor, auth_unix, auth_unix_view, call_body_view,
    denied_message, garbage_reply, lemma_messages_encodable, mismatch_info, reply_body,
    rpc_body, rpc_body_view, rpc_msg, rpc_vers_mismatch, success_header, write_accepted,
};
use crate::vfs::{handle_bytes, walked, NFSFileSystem};
use crate::xdr::{append_bytes, be32_bytes, opaque_encoding, word_at, ByteReader, XDR};
use vstd::prelude::*;

verus! {

/// RPC program number of the NFS access control lists.
pub const NFS_ACL_PROGRAM: u32 = 100227;

/// RPC program number of the NFS identifier mapping.
pub const NFS_ID_MAP_PROGRAM: u32 = 100270;

/// RPC program number of the NFS metadata service.
pub const NFS_METADATA_PROGRAM: u32 = 200024;

/// Why a message cannot be answered.
#[derive(Clone, Copy, Debug, PartialEq, Eq, Structural)]
pub enum RpcError {
    /// The message ends before its transaction identifier does.
    Truncated,
    /// The message is a reply, not a call.
    NotACall,
}

/// The bytes that deny call `xid` for its RPC version.
pub open spec fn rpc_mismatch_reply(xid: u32) -> Seq<u8> {
    rpc_msg::encoding(denied_message(xid))
}

/// The bytes that tell the caller of `xid` that the server has no such
/// program.
pub open spec fn prog_unavail_reply(xid: u32) -> Seq<u8> {
    rpc_msg::encoding(accepted_message(xid, accept_body::PROG_UNAVAIL))
}

/// Whether the credentials of a call can be read: those of flavor
/// `AUTH_UNIX` must decode; others are not looked at.
pub open spec fn credentials_readable(call: call_body_view) -> bool {
    call.cred.flavor == auth_flavor::AUTH_UNIX ==> auth_unix::decoding(call.cred.body, 0) is Ok
}

/// What the server may reply to a call whose arguments stand at `pos` in
/// `src`, and the mount event with it. A call in another RPC version than
/// 2 is denied; a call to NFS, the port mapper or mount goes to that
/// program; a call to any other program finds it unavailable.
pub open spec fn call_replies<F: NFSFileSystem>(
    fs: &F,
    xid: u32,
    call: call_body_view,
    port: u16,
    src: Seq<u8>,
    pos: int,
    reply: Seq<u8>,
    event: Option<bool>,
) -> bool {
    if call.rpcvers != 2 {
        reply == rpc_mismatch_reply(xid) && event is None
    } else if call.prog == 100003 {
        nfs_replies(fs, xid, call.vers, call.proc, src, pos, reply) && event is None
    } else if call.prog == 100000 {
        portmap_replies(xid, call.vers, call.proc, port, src, pos, reply) && event is None
    } else if call.prog == 100005 {
        mount_replies(fs, xid, call.vers, call.proc, src, pos, reply, event)
    } else {
        reply == prog_unavail_reply(xid) && event is None
    }
}

/// Whether `end` is where the server leaves the cursor after a call whose
/// arguments stand at `pos`: where the program of the call leaves it, and
/// at `pos` where no program is asked.
pub open spec fn call_reads(
    call: call_body_view,
    takes_changes: bool,
    src: Seq<u8>,
    pos: int,
    end: int,
) -> bool {
    if call.rpcvers != 2 {
        end == pos
    } else if call.prog == 100003 {
        nfs_reads(call.vers, call.proc, takes_changes, src, pos, end)
    } else if call.prog == 100000 {
        portmap_reads(call.vers, call.proc, src, pos, end)
    } else if call.prog == 100005 {
        mount_reads(call.vers, call.proc, src, pos, end)
    } else {
        end == pos
    }
}

/// What the server may do with the message at `pos` in `src`: the reply it
/// appends and what it returns. A message without a whole transaction
/// identifier and a message that is a reply cannot be answered. Whatever
/// else does not decode is answered as garbage.
pub open spec fn rpc_replies<F: NFSFileSystem>(
    fs: &F,
    port: u16,
    src: Seq<u8>,
    pos: int,
    reply: Seq<u8>,
    result: Result<Option<bool>, RpcError>,
) -> bool {
    match u32::decoding(src, pos) {
        Err(_) => result == Err::<Option<bool>, RpcError>(RpcError::Truncated) && reply.len() == 0,
        Ok((xid, body)) => match rpc_body::decoding(src, body) {
            Err(_) => reply == garbage_reply(xid) && result == Ok::<Option<bool>, RpcError>(None),
            Ok((rpc_body_view::REPLY(_), _)) => result == Err::<Option<bool>, RpcError>(
                RpcError::NotACall,
            ) && reply.len() == 0,
            Ok((rpc_body_view::CALL(call), args)) => if !credentials_readable(call) {
                reply == garbage_reply(xid) && result == Ok::<Option<bool>, RpcError>(None)
            } else {
                result matches Ok(event) && call_replies(
                    fs,
                    xid,
                    call,
                    port,
                    src,
                    args,
                    reply,
                    event,
                )
            },
        },
    }
}

/// Whether `end` is where the server leaves the cursor after the message
/// at `pos` in `src`, if the message is a call that it serves: where the
/// program of the call leaves it. What follows the arguments of the call
/// is not consumed.
pub open spec fn rpc_reads(takes_changes: bool, src: Seq<u8>, pos: int, end: int) -> bool {
    match u32::decoding(src, pos) {
        Err(_) => true,
        Ok((_, body)) => match rpc_body::decoding(src, body) {
            Ok((rpc_body_view::CALL(call), args)) => credentials_readable(call) ==> call_reads(
                call,
                takes_changes,
                src,
                args,
                end,
            ),
            _ => true,
        },
    }
}

/// Who the message at `pos` in `src` says its caller is, if it is a call
/// with credentials of flavor `AUTH_UNIX` that can be read.
pub open spec fn caller_of(src: Seq<u8>, pos: int) -> Option<auth_unix_view> {
    match u32::decoding(src, pos) {
        Err(_) => None,
        Ok((_, body)) => match rpc_body::decoding(src, body) {
            Ok((rpc_body_view::CALL(call), _)) => if call.cred.flavor == auth_flavor::AUTH_UNIX {
                match auth_unix::decoding(call.cred.body, 0) {
                    Ok((who, _)) => Some(who),
                    Err(_) => None,
                }
            } else {
                None
            },
            _ => None,
        },
    }
}

/// Serves the message at the cursor of `input`: decodes the call, notes who
/// calls, and has the program of the call append its reply to `output`.
/// Returns the mount event of the call, if it has one.
pub fn handle_rpc<F: NFSFileSystem>(
    input: &mut ByteReader,
    output: &mut Vec<u8>,
    context: &mut RPCContext<F>,
) -> (result: Result<Option<bool>, RpcError>)
    ensures
        final(input).data@ == old(input).data@,
        final(context).vfs == old(context).vfs,
        final(context).local_port == old(context).local_port,
        match caller_of(old(input).data@, old(input).pos as int) {
            Some(who) => final(context).auth@ == who,
            None => final(context).auth == old(context).auth,
        },
        extends(old(output)@, final(output)@),
        rpc_reads(
            writable(&*old(context).vfs),
            old(input).data@,
            old(input).pos as int,
            final(input).pos as int,
        ),
        rpc_replies(
            &*old(context).vfs,
            old(context).local_port,
            old(input).data@,
            old(input).pos as int,
            appended(old(output)@, final(output)@),
            result,
        ),
{
    proof {
        lemma_appended(old(output)@, Seq::empty());
        assert(old(output)@ + Seq::<u8>::empty() =~= old(output)@);
    }
    let mut xid: u32 = 0;
    if xid.deserialize(input).is_err() {
        return Err(RpcError::Truncated);
    }
    let mut body = rpc_body::default();
    if body.deserialize(input).is_err() {
        write_garbage(xid, output);
        proof {
            lemma_appended(old(output)@, garbage_reply(xid));
        }
        return Ok(None);
    }
    let call = match body {
        rpc_body::CALL(call) => call,
        rpc_body::REPLY(_) => {
            return Err(RpcError::NotACall);
        },
    };
    match call.cred.flavor {
        auth_flavor::AUTH_UNIX => {
            let mut auth = auth_unix::default();
            let mut cred = ByteReader::new(copy_bytes(&call.cred.body));
            if auth.deserialize(&mut cred).is_err() {
                write_garbage(xid, output);
                proof {
                    lemma_appended(old(output)@, garbage_reply(xid));
                }
                return Ok(None);
            }
            context.auth = auth;
        },
        _ => {},
    }
    if call.rpcvers != 2 {
        proof {
            lemma_messages_encodable(xid, accept_body::SUCCESS);
        }
        rpc_vers_mismatch(xid).serialize(output);
        proof {
            lemma_appended(old(output)@, rpc_mismatch_reply(xid));
        }
        return Ok(None);
    }
    if call.prog == nfs::PROGRAM {
        handle_nfs(xid, call, input, output, context);
        Ok(None)
    } else if call.prog == portmap::PROGRAM {
        handle_portmap(xid, call, input, output, context);
        Ok(None)
    } else if call.prog == mount::PROGRAM {
        let event = handle_mount(xid, call, input, output, context);
        Ok(event)
    } else {
        // The programs for access control lists, identifier mapping and
        // metadata are probed by clients as a matter of routine; like any
        // other program that is not served, they are unavailable.
        write_accepted(xid, accept_body::PROG_UNAVAIL, output);
        proof {
            lemma_appended(old(output)@, prog_unavail_reply(xid));
        }
        Ok(None)
    }
}

/// `reply` is a reply to call `xid`: it begins with the transaction
/// identifier and the word for "reply".
pub open spec fn answers(xid: u32, reply: Seq<u8>) -> bool {
    reply.len() >= 8 && reply.subrange(0, 8) == be32_bytes(xid) + be32_bytes(1)
}

/// Whatever the server replies to a message that it can answer is a reply
/// to the call in the message: it begins with the transaction identifier
/// of the call. All replies but the one to a call in another RPC version
/// are accepted replies.
pub proof fn lemma_reply_answers_call<F: NFSFileSystem>(
    fs: &F,
    port: u16,
    src: Seq<u8>,
    pos: int,
    reply: Seq<u8>,
    result: Result<Option<bool>, RpcError>,
)
    requires
        rpc_replies(fs, port, src, pos, reply, result),
        result is Ok,
    ensures
        u32::decoding(src, pos) matches Ok((xid, _)) && answers(xid, reply),
{
    let xid = u32::decoding(src, pos)->Ok_0.0;
    let body = rpc_body::decoding(src, u32::decoding(src, pos)->Ok_0.1);
    let serverid = fs.serverid_spec();
    lemma_accepts_message(xid, accept_body::SUCCESS);
    lemma_accepts_message(xid, accept_body::GARBAGE_ARGS);
    lemma_accepts_message(xid, accept_body::PROC_UNAVAIL);
    lemma_accepts_message(xid, accept_body::PROG_UNAVAIL);
    lemma_accepts_message(xid, accept_body::PROG_MISMATCH(mismatch_info { low: 3, high: 3 }));
    lemma_accepts_message(xid, accept_body::PROG_MISMATCH(mismatch_info { low: 2, high: 2 }));
    let head = be32_bytes(xid) + be32_bytes(1) + be32_bytes(0) + be32_bytes(0) + be32_bytes(0);
    assert(head.subrange(0, 8) =~= be32_bytes(xid) + be32_bytes(1));
    if accepts(xid, reply) {
        assert(reply.subrange(0, 8) =~= reply.subrange(0, 20).subrange(0, 8));
    }
    match body {
        Ok((rpc_body_view::CALL(call), args)) => {
            if credentials_readable(call) {
                let event = result->Ok_0;
                if call.rpcvers != 2 {
                    reveal(<rpc_msg as XDR>::encoding);
                    reveal(<rpc_body as XDR>::encoding);
                    reveal(<reply_body as XDR>::encoding);
                    assert(reply.subrange(0, 8) =~= be32_bytes(xid) + be32_bytes(1));
                } else if call.prog == 100003 {
                    lemma_nfs_reply_answers_call(fs, xid, call.vers, call.proc, src, args, reply);
                } else if call.prog == 100000 {
                    lemma_accepts_more(xid, success_header(xid), u32::encoding(port as u32));
                } else if call.prog == 100005 {
                    let ok = success_header(xid);
                    lemma_accepts_more(xid, ok, mountstat3::encoding(mountstat3::MNT3_OK));
                    lemma_accepts_more(xid, ok, mountstat3::encoding(mountstat3::MNT3ERR_NOENT));
                    assert forall|id: fileid3|
                        accepts(xid, #[trigger] mnt_reply(xid, serverid, Ok(id))) by {
                        lemma_accepts_more(
                            xid,
                            ok + mountstat3::encoding(mountstat3::MNT3_OK),
                            mountres3_ok::encoding(
                                mountres3_ok_view {
                                    fhandle: handle_bytes(serverid, id),
                                    auth_flavors: accepted_flavors(),
                                },
                            ),
                        );
                    }
                    if call.vers == 3 && call.proc == 1 {
                        let path = <Vec<u8>>::decoding(src, args);
                        if path is Ok {
                            let found = choose|found: Result<fileid3, nfsstat3>|
                                #[trigger] walked(fs, path->Ok_0.0, found) && reply == mnt_reply(
                                    xid,
                                    serverid,
                                    found,
                                ) && event == mnt_event(found);
                            assert(accepts(xid, mnt_reply(xid, serverid, found)));
                        }
                    }
                    if call.vers == 3 && call.proc == 5 {
                        let a = ok + bool::encoding(true);
                        lemma_accepts_more(xid, ok, bool::encoding(true));
                        lemma_accepts_more(xid, a, opaque_encoding(seq![47u8]));
                        lemma_accepts_more(
                            xid,
                            a + opaque_encoding(seq![47u8]),
                            bool::encoding(false),
                        );
                        lemma_accepts_more(
                            xid,
                            a + opaque_encoding(seq![47u8]) + bool::encoding(false),
                            bool::encoding(false),
                        );
                    }
                }
            }
        },
        _ => {},
    }
}

/// The header of a fragment of `len` bytes.
pub open spec fn fragment_header(len: int, last: bool) -> u32 {
    (len + if last { 0x8000_0000int } else { 0 }) as u32
}

/// A reply framed as a record of one fragment: the header with the bit for
/// the last fragment and the length, then the reply.
pub open spec fn record_of(reply: Seq<u8>) -> Seq<u8> {
    be32_bytes(fragment_header(reply.len() as int, true)) + reply
}

/// The fragment at `pos` in `src`, if all of it is there: whether it is the
/// last of its record, its payload, and the position after it.
pub open spec fn fragment_at(src: Seq<u8>, pos: int) -> Option<(bool, Seq<u8>, int)> {
    match word_at(src, pos) {
        Err(_) => None,
        Ok((header, start)) => {
            let len = header as int % 0x8000_0000;
            if start + len <= src.len() {
                Some((header >= 0x8000_0000, src.subrange(start, start + len), start + len))
            } else {
                None
            }
        },
    }
}

/// The header of a record of `n` bytes has bit 31 set, and its other bits
/// spell `n`.
pub proof fn lemma_record_header(n: u32)
    requires
        n < 0x8000_0000,
    ensures
        fragment_header(n as int, true) & 0x8000_0000 == 0x8000_0000,
        fragment_header(n as int, true) & 0x7fff_ffff == n,
{
    assert(n < 0x8000_0000u32 ==> ((n + 0x8000_0000u32) as u32) & 0x8000_0000u32 == 0x8000_0000u32
        && ((n + 0x8000_0000u32) as u32) & 0x7fff_ffffu32 == n) by (bit_vector);
}

/// A record of `n` bytes takes `4 + n` bytes, and reading it back as a
/// fragment gives the reply, as the last fragment of its record.
pub proof fn lemma_record_roundtrip(reply: Seq<u8>)
    requires
        reply.len() < 0x8000_0000,
    ensures
        record_of(reply).len() == 4 + reply.len(),
        fragment_at(record_of(reply), 0) == Some((true, reply, 4 + reply.len() as int)),
{
    let h = fragment_header(reply.len() as int, true);
    let r = record_of(reply);
    u32::lemma_decoding_inverts_encoding(h, r, 0);
    assert(r.subrange(4, 4 + reply.len() as int) =~= reply);
}

/// Appends `buf` to `output` as a record of one fragment.
pub fn write_fragment(output: &mut Vec<u8>, buf: &Vec<u8>)
    requires
        buf@.len() < 0x8000_0000,
    ensures
        final(output)@ == old(output)@ + record_of(buf@),
{
    let fragment_header: u32 = buf.len() as u32 + 0x8000_0000;
    fragment_header.serialize(output);
    append_bytes(output, buf.as_slice());
    assert(output@ =~= old(output)@ + record_of(buf@));
}

/// Reads the fragment at the cursor, if all of it is there: appends its
/// payload to `append_to`, moves the cursor past it, and tells whether it
/// is the last of its record. Does nothing if the fragment is not all
/// there yet.
pub fn read_fragment(input: &mut ByteReader, append_to: &mut Vec<u8>) -> (r: Option<bool>)
    ensures
        final(input).data@ == old(input).data@,
        match fragment_at(old(input).data@, old(input).pos as int) {
            Some((last, payload, end)) => r == Some(last) && final(append_to)@ == old(append_to)@
                + payload && final(input).pos == end,
            None => r is None && final(input).pos == old(input).pos && final(append_to)@ == old(
                append_to,
            )@,
        },
{
    let start: usize = input.pos;
    let mut fragment_header: u32 = 0;
    if fragment_header.deserialize(input).is_err() {
        input.pos = start;
        return None;
    }
    let is_last: bool = fragment_header >= 0x8000_0000;
    let length: usize = (fragment_header % 0x8000_0000) as usize;
    if input.remaining() < length {
        input.pos = start;
        return None;
    }
    let from: usize = input.pos;
    let mut i: usize = 0;
    while i < length
        invariant
            i <= length,
            from + length <= input.data@.len(),
            input.data@.len() <= usize::MAX,
            input.data@ == old(input).data@,
            input.pos == from,
            append_to@ == old(append_to)@ + input.data@.subrange(from as int, from + i),
        decreases length - i,
    {
        append_to.push(input.data[from + i]);
        i = i + 1;
        assert(append_to@ =~= old(append_to)@ + input.data@.subrange(from as int, from + i));
    }
    input.pos = from + length;
    Some(is_last)
}

/// What became of a look at the bytes received.
#[derive(Debug, PartialEq, Eq)]
pub enum ReadStep {
    /// The next fragment is not all there yet.
    Incomplete,
    /// A fragment was taken; its record goes on.
    Fragment,
    /// A fragment was taken and ends its record: the message.
    Record(Vec<u8>),
}

/// Puts the records of a connection together from the bytes received, in
/// whatever pieces they come.
pub struct SocketMessageHandler {
    cur_fragment: Vec<u8>,
    received: ByteReader,
}

impl SocketMessageHandler {
    /// The payload of the record that is not complete yet.
    pub closed spec fn partial(&self) -> Seq<u8> {
        self.cur_fragment@
    }

    /// The bytes received and not yet taken.
    pub closed spec fn pending(&self) -> Seq<u8> {
        if self.received.pos <= self.received.data@.len() {
            self.received.data@.skip(self.received.pos as int)
        } else {
            Seq::empty()
        }
    }

    /// A handler that has received nothing.
    pub fn new() -> (h: SocketMessageHandler)
        ensures
            h.partial() == Seq::<u8>::empty(),
            h.pending() == Seq::<u8>::empty(),
    {
        let h = SocketMessageHandler {
            cur_fragment: Vec::new(),
            received: ByteReader::new(Vec::new()),
        };
        assert(h.pending() =~= Seq::<u8>::empty());
        h
    }

    /// Takes bytes that the connection received.
    pub fn receive(&mut self, bytes: &[u8])
        ensures
            final(self).partial() == old(self).partial(),
            final(self).pending() == old(self).pending() + bytes@,
    {
        let ghost before = self.pending();
        let mut data: Vec<u8> = Vec::new();
        let n: usize = self.received.data.len();
        let from: usize = if self.received.pos <= n {
            self.received.pos
        } else {
            n
        };
        let mut i: usize = from;
        while i < n
            invariant
                from <= i <= n,
                n == self.received.data@.len(),
                data@ == self.received.data@.subrange(from as int, i as int),
            decreases n - i,
        {
            data.push(self.received.data[i]);
            i = i + 1;
        }
        assert(data@ =~= before);
        append_bytes(&mut data, bytes);
        self.received = ByteReader::new(data);
        assert(self.pending() =~= before + bytes@);
    }

    /// Takes the next fragment from the bytes received, if all of it is
    /// there, and returns the message if the fragment ends a record.
    pub fn read(&mut self) -> (step: ReadStep)
        ensures
            match fragment_at(old(self).pending(), 0) {
                None => step == ReadStep::Incomplete && final(self).partial() == old(
                    self,
                ).partial() && final(self).pending() == old(self).pending(),
                Some((last, payload, end)) => {
                    &&& final(self).pending() == old(self).pending().skip(end)
                    &&& if last {
                        &&& step matches ReadStep::Record(message)
                        &&& message@ == old(self).partial() + payload
                        &&& final(self).partial() == Seq::<u8>::empty()
                    } else {
                        &&& step == ReadStep::Fragment
                        &&& final(self).partial() == old(self).partial() + payload
                    }
                },
            },
    {
        let ghost pending = self.pending();
        let ghost data = self.received.data@;
        let ghost pos = self.received.pos as int;
        proof {
            if pos <= data.len() {
                assert(pos + 4 <= data.len() ==> pending[0] == data[pos] && pending[1] == data[pos
                    + 1] && pending[2] == data[pos + 2] && pending[3] == data[pos + 3]);
                let f = fragment_at(data, pos);
                if f is Some {
                    let len = f->Some_0.2 - pos - 4;
                    assert(pending.subrange(4, 4 + len) =~= data.subrange(pos + 4, pos + 4 + len));
                    assert(pending.skip(4 + len) =~= data.skip(f->Some_0.2));
                }
            }
        }
        match read_fragment(&mut self.received, &mut self.cur_fragment) {
            None => ReadStep::Incomplete,
            Some(is_last) => {
                if is_last {
                    let mut message: Vec<u8> = Vec::new();
                    std::mem::swap(&mut message, &mut self.cur_fragment);
                    ReadStep::Record(message)
                } else {
                    ReadStep::Fragment
                }
            },
        }
    }
}

} // verus!
