//! The procedures of the port mapper. The server answers for every program
//! with its own port: portmap, mount and NFS share one socket.

use crate::context::RPCContext;
use crate::nfs_handlers::{
    appended, extends, lemma_appended, proc_unavail_reply, prog_mismatch_reply, read_to,
    write_garbage,
};
use crate::portmap::{mapping, VERSION};
use crate::rpc::{
    accept_body, call_body, garbage_reply, mismatch_info, success_header, write_accepted,
};
use crate::vfs::NFSFileSystem;
use crate::xdr::{ByteReader, XdrError, XDR};
use vstd::prelude::*;

verus! {

/// NULL: does nothing and says so.
pub fn pmapproc_null(xid: u32, input: &mut ByteReader, output: &mut Vec<u8>)
    ensures
        final(output)@ == old(output)@ + success_header(xid),
        *final(input) == *old(input),
{
    write_accepted(xid, accept_body::SUCCESS, output);
}

/// The reply of GETPORT: the port at which the server listens.
pub open spec fn getport_reply(xid: u32, port: u16) -> Seq<u8> {
    success_header(xid) + u32::encoding(port as u32)
}

/// What GETPORT replies to the arguments `args`: the server's own port,
/// whatever program, version and protocol are asked for.
pub open spec fn getport_replies(
    xid: u32,
    args: Result<(mapping, int), XdrError>,
    port: u16,
    reply: Seq<u8>,
) -> bool {
    match args {
        Err(_) => reply == garbage_reply(xid),
        Ok(_) => reply == getport_reply(xid, port),
    }
}

/// GETPORT: the port of a program.
pub fn pmapproc_getport<F: NFSFileSystem>(
    xid: u32,
    read: &mut ByteReader,
    output: &mut Vec<u8>,
    context: &RPCContext<F>,
)
    ensures
        final(read).data@ == old(read).data@,
        extends(old(output)@, final(output)@),
        read_to(mapping::decoding(old(read).data@, old(read).pos as int), final(read).pos as int),
        getport_replies(
            xid,
            mapping::decoding(old(read).data@, old(read).pos as int),
            context.local_port,
            appended(old(output)@, final(output)@),
        ),
{
    let mut mapping = mapping::default();
    if mapping.deserialize(read).is_err() {
        write_garbage(xid, output);
        proof {
            lemma_appended(old(output)@, garbage_reply(xid));
        }
        return ;
    }
    write_accepted(xid, accept_body::SUCCESS, output);
    let port: u32 = context.local_port as u32;
    port.serialize(output);
    proof {
        let reply = getport_reply(xid, context.local_port);
        assert(output@ =~= old(output)@ + reply);
        lemma_appended(old(output)@, reply);
    }
}

/// What the port mapper replies to procedure `procedure` of version `vers`.
/// Another version than 2 is a mismatch; every procedure but NULL and
/// GETPORT is unavailable.
pub open spec fn portmap_replies(
    xid: u32,
    vers: u32,
    procedure: u32,
    port: u16,
    src: Seq<u8>,
    pos: int,
    reply: Seq<u8>,
) -> bool {
    if vers != 2 {
        reply == prog_mismatch_reply(xid, 2)
    } else if procedure == 0 {
        reply == success_header(xid)
    } else if procedure == 3 {
        getport_replies(xid, mapping::decoding(src, pos), port, reply)
    } else {
        reply == proc_unavail_reply(xid)
    }
}

/// Whether `end` is where the port mapper leaves the cursor that stood at
/// `pos`: behind the mapping of GETPORT where it decodes, and at `pos` for
/// every other procedure.
pub open spec fn portmap_reads(
    vers: u32,
    procedure: u32,
    src: Seq<u8>,
    pos: int,
    end: int,
) -> bool {
    if vers == 2 && procedure == 3 {
        read_to(mapping::decoding(src, pos), end)
    } else {
        end == pos
    }
}

/// Serves a call of the port mapper.
pub fn handle_portmap<F: NFSFileSystem>(
    xid: u32,
    call: call_body,
    input: &mut ByteReader,
    output: &mut Vec<u8>,
    context: &RPCContext<F>,
)
    ensures
        final(input).data@ == old(input).data@,
        extends(old(output)@, final(output)@),
        portmap_reads(
            call.vers,
            call.proc,
            old(input).data@,
            old(input).pos as int,
            final(input).pos as int,
        ),
        portmap_replies(
            xid,
            call.vers,
            call.proc,
            context.local_port,
            old(input).data@,
            old(input).pos as int,
            appended(old(output)@, final(output)@),
        ),
{
    if call.vers != VERSION {
        write_accepted(
            xid,
            accept_body::PROG_MISMATCH(mismatch_info { low: VERSION, high: VERSION }),
            output,
        );
        proof {
            lemma_appended(old(output)@, prog_mismatch_reply(xid, 2));
        }
        return ;
    }
    match call.proc {
        0 => {
            pmapproc_null(xid, input, output);
            proof {
                lemma_appended(old(output)@, success_header(xid));
            }
        },
        3 => pmapproc_getport(xid, input, output, context),
        _ => {
            write_accepted(xid, accept_body::PROC_UNAVAIL, output);
            proof {
                lemma_appended(old(output)@, proc_unavail_reply(xid));
            }
        },
    }
}

} // verus!
