//! What a connection knows while it serves a call.

use crate::rpc::auth_unix;
use crate::vfs::NFSFileSystem;
use std::sync::Arc;
use vstd::prelude::*;

verus! {

/// The state of one connection.
pub struct RPCContext<F: NFSFileSystem> {
    /// The port at which the server listens.
    pub local_port: u16,
    /// The address of the client.
    pub client_addr: String,
    /// Who the caller of the current call says it is.
    pub auth: auth_unix,
    /// The file system that is served.
    pub vfs: Arc<F>,
}

} // verus!
