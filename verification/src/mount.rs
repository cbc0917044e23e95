//! The data types of the mount protocol, version 3 (RFC 1813, appendix I).

use crate::xdr::{fail, next, val, ByteReader, XdrError, XDR};
use vstd::prelude::*;

verus! {

/// RPC program number of the mount protocol.
pub const PROGRAM: u32 = 100005;

/// RPC version number of the mount protocol.
pub const VERSION: u32 = 3;

/// Maximum bytes in a path name.
pub const MNTPATHLEN: u32 = 1024;

/// Maximum bytes in a name.
pub const MNTNAMLEN: u32 = 255;

/// Maximum bytes in a version 3 file handle.
pub const FHSIZE3: u32 = 64;

pub type fhandle3 = Vec<u8>;

pub type dirpath = Vec<u8>;

pub type name = Vec<u8>;

/// The status of a mount call.
#[derive(Copy, Clone, Debug, PartialEq, Eq, Structural)]
pub enum mountstat3 {
    /// No error.
    MNT3_OK,
    /// Not owner.
    MNT3ERR_PERM,
    /// No such file or directory.
    MNT3ERR_NOENT,
    /// I/O error.
    MNT3ERR_IO,
    /// Permission denied.
    MNT3ERR_ACCES,
    /// Not a directory.
    MNT3ERR_NOTDIR,
    /// Invalid argument.
    MNT3ERR_INVAL,
    /// File name too long.
    MNT3ERR_NAMETOOLONG,
    /// Operation not supported.
    MNT3ERR_NOTSUPP,
    /// A failure on the server.
    MNT3ERR_SERVERFAULT,
}

impl View for mountstat3 {
    type V = mountstat3;

    open spec fn view(&self) -> mountstat3 {
        *self
    }
}

impl mountstat3 {
    /// The number that stands for the value on the wire.
    pub open spec fn wire(self) -> u32 {
        match self {
            mountstat3::MNT3_OK => 0,
            mountstat3::MNT3ERR_PERM => 1,
            mountstat3::MNT3ERR_NOENT => 2,
            mountstat3::MNT3ERR_IO => 5,
            mountstat3::MNT3ERR_ACCES => 13,
            mountstat3::MNT3ERR_NOTDIR => 20,
            mountstat3::MNT3ERR_INVAL => 22,
            mountstat3::MNT3ERR_NAMETOOLONG => 63,
            mountstat3::MNT3ERR_NOTSUPP => 10004,
            mountstat3::MNT3ERR_SERVERFAULT => 10006,
        }
    }

    /// The value that a number on the wire stands for, if any.
    pub open spec fn of_wire(w: u32) -> Option<mountstat3> {
        if w == 0 {
            Some(mountstat3::MNT3_OK)
        } else if w == 1 {
            Some(mountstat3::MNT3ERR_PERM)
        } else if w == 2 {
            Some(mountstat3::MNT3ERR_NOENT)
        } else if w == 5 {
            Some(mountstat3::MNT3ERR_IO)
        } else if w == 13 {
            Some(mountstat3::MNT3ERR_ACCES)
        } else if w == 20 {
            Some(mountstat3::MNT3ERR_NOTDIR)
        } else if w == 22 {
            Some(mountstat3::MNT3ERR_INVAL)
        } else if w == 63 {
            Some(mountstat3::MNT3ERR_NAMETOOLONG)
        } else if w == 10004 {
            Some(mountstat3::MNT3ERR_NOTSUPP)
        } else if w == 10006 {
            Some(mountstat3::MNT3ERR_SERVERFAULT)
        } else {
            None
        }
    }

    pub fn to_u32(&self) -> (w: u32)
        ensures
            w == self.wire(),
    {
        match self {
            mountstat3::MNT3_OK => 0,
            mountstat3::MNT3ERR_PERM => 1,
            mountstat3::MNT3ERR_NOENT => 2,
            mountstat3::MNT3ERR_IO => 5,
            mountstat3::MNT3ERR_ACCES => 13,
            mountstat3::MNT3ERR_NOTDIR => 20,
            mountstat3::MNT3ERR_INVAL => 22,
            mountstat3::MNT3ERR_NAMETOOLONG => 63,
            mountstat3::MNT3ERR_NOTSUPP => 10004,
            mountstat3::MNT3ERR_SERVERFAULT => 10006,
        }
    }

    pub fn from_u32(w: u32) -> (r: Option<mountstat3>)
        ensures
            r == Self::of_wire(w),
    {
        if w == 0 {
            Some(mountstat3::MNT3_OK)
        } else if w == 1 {
            Some(mountstat3::MNT3ERR_PERM)
        } else if w == 2 {
            Some(mountstat3::MNT3ERR_NOENT)
        } else if w == 5 {
            Some(mountstat3::MNT3ERR_IO)
        } else if w == 13 {
            Some(mountstat3::MNT3ERR_ACCES)
        } else if w == 20 {
            Some(mountstat3::MNT3ERR_NOTDIR)
        } else if w == 22 {
            Some(mountstat3::MNT3ERR_INVAL)
        } else if w == 63 {
            Some(mountstat3::MNT3ERR_NAMETOOLONG)
        } else if w == 10004 {
            Some(mountstat3::MNT3ERR_NOTSUPP)
        } else if w == 10006 {
            Some(mountstat3::MNT3ERR_SERVERFAULT)
        } else {
            None
        }
    }
}

impl XDR for mountstat3 {
    #[verifier::opaque]
    open spec fn encoding(v: mountstat3) -> Seq<u8> {
        u32::encoding(v.wire())
    }

    open spec fn encodable(v: mountstat3) -> bool {
        true
    }

    #[verifier::opaque]
    open spec fn decoding(src: Seq<u8>, pos: int) -> Result<(mountstat3, int), XdrError> {
        let w = u32::decoding(src, pos);
        if w is Err {
            fail(w)
        } else {
            match mountstat3::of_wire(val(w)) {
                Some(v) => Ok((v, next(w))),
                None => Err(XdrError::InvalidData),
            }
        }
    }

    fn serialize(&self, dest: &mut Vec<u8>) {
        proof {
            reveal(<mountstat3 as XDR>::encoding);
        }
        self.to_u32().serialize(dest);
    }

    fn deserialize(&mut self, src: &mut ByteReader) -> (r: Result<(), XdrError>) {
        proof {
            reveal(<mountstat3 as XDR>::decoding);
        }
        let mut w: u32 = 0;
        w.deserialize(src)?;
        match mountstat3::from_u32(w) {
            Some(v) => {
                *self = v;
                Ok(())
            },
            None => Err(XdrError::InvalidData),
        }
    }

    proof fn lemma_decoding_inverts_encoding(v: mountstat3, src: Seq<u8>, pos: int) {
        reveal(<mountstat3 as XDR>::encoding);
        reveal(<mountstat3 as XDR>::decoding);
        u32::lemma_decoding_inverts_encoding(v.wire(), src, pos);
    }

    open spec fn word_aligned() -> bool {
        true
    }

    proof fn lemma_encoding_aligned(v: mountstat3) {
        reveal(<mountstat3 as XDR>::encoding);
    }
}

} // verus!
