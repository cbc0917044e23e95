//! The protocol engine of an NFS version 3 server: the XDR codec, the RPC
//! messages and their dispatch, the port mapper, the mount protocol, the
//! procedures of NFS version 3, opaque file handles, and record marking.
//!
//! The engine does no input or output of its own. A call is bytes in a
//! [`xdr::ByteReader`]; its reply is appended to a buffer. The file system
//! that is served implements [`vfs::NFSFileSystem`]. Sockets, tasks and
//! clocks belong to the program around the engine.
//!
//! Every wire type states its wire form as a function of its value, and the
//! codec is proved against it: what is encoded decodes to the same value.
//! Every procedure states what it replies: exactly where the reply does not
//! depend on the file system, and else as a function of what the file
//! system answered.

#![allow(non_camel_case_types)]

pub mod context;
pub mod fs_util;
pub mod mount;
pub mod mount_handlers;
pub mod nfs;
pub mod nfs_handlers;
pub mod portmap;
pub mod portmap_handlers;
pub mod rpc;
pub mod rpcwire;
pub mod tcp;
pub mod vfs;
pub mod vfsext;
pub mod vfsextimpl;
pub mod write_counter;
pub mod xdr;
