//! The data types of NFS version 3, as RFC 1813 names them, each with its
//! wire form.

use crate::xdr::{
    append_bytes, fail, lemma_aligned_sum, lemma_concat_assoc, lemma_field, next,
    opaque_decoding, opaque_encoding, val, ByteReader, XdrError, XDR,
};
use vstd::prelude::*;

verus! {

/// RPC program number of NFS.
pub const PROGRAM: u32 = 100003;

/// RPC version number of NFS version 3.
pub const VERSION: u32 = 3;

/// The maximum size in bytes of the opaque file handle.
pub const NFS3_FHSIZE: u32 = 64;

/// The size in bytes of the opaque cookie verifier passed by READDIR and
/// READDIRPLUS.
pub const NFS3_COOKIEVERFSIZE: u32 = 8;

/// The size in bytes of the opaque verifier used for exclusive CREATE.
pub const NFS3_CREATEVERFSIZE: u32 = 8;

/// The size in bytes of the opaque verifier used for asynchronous WRITE.
pub const NFS3_WRITEVERFSIZE: u32 = 8;

pub type opaque = u8;

pub type filename3 = nfsstring;

pub type nfspath3 = nfsstring;

pub type fileid3 = u64;

pub type cookie3 = u64;

pub type cookieverf3 = [u8; 8];

pub type createverf3 = [u8; 8];

pub type writeverf3 = [u8; 8];

pub type uid3 = u32;

pub type gid3 = u32;

pub type size3 = u64;

pub type offset3 = u64;

pub type mode3 = u32;

pub type count3 = u32;

/// A copy of a byte vector.
pub fn copy_bytes(v: &Vec<u8>) -> (r: Vec<u8>)
    ensures
        r@ == v@,
{
    let mut r: Vec<u8> = Vec::new();
    append_bytes(&mut r, v.as_slice());
    assert(r@ =~= v@);
    r
}

/// A byte string: a file name or a path. It need not be UTF-8.
#[derive(Clone, Debug, PartialEq, Eq)]
pub struct nfsstring(pub Vec<u8>);

impl View for nfsstring {
    type V = Seq<u8>;

    open spec fn view(&self) -> Seq<u8> {
        self.0@
    }
}

impl nfsstring {
    pub fn len(&self) -> (n: usize)
        ensures
            n == self@.len(),
    {
        self.0.len()
    }

    pub fn is_empty(&self) -> (b: bool)
        ensures
            b == (self@.len() == 0),
    {
        self.0.len() == 0
    }

    /// The string that holds the bytes of a slice.
    pub fn from_slice(value: &[u8]) -> (s: nfsstring)
        ensures
            s@ == value@,
    {
        let mut v: Vec<u8> = Vec::new();
        append_bytes(&mut v, value);
        assert(v@ =~= value@);
        nfsstring(v)
    }

    /// The bytes of the string.
    pub fn as_bytes(&self) -> (b: &[u8])
        ensures
            b@ == self@,
    {
        self.0.as_slice()
    }

    /// A copy of the string.
    pub fn duplicate(&self) -> (s: nfsstring)
        ensures
            s@ == self@,
    {
        nfsstring(copy_bytes(&self.0))
    }
}

impl vstd::std_specs::convert::FromSpecImpl<Vec<u8>> for nfsstring {
    open spec fn obeys_from_spec() -> bool {
        true
    }

    open spec fn from_spec(value: Vec<u8>) -> nfsstring {
        nfsstring(value)
    }
}

impl From<Vec<u8>> for nfsstring {
    fn from(value: Vec<u8>) -> (s: nfsstring) {
        nfsstring(value)
    }
}

impl Default for nfsstring {
    fn default() -> (s: nfsstring)
        ensures
            s@.len() == 0,
    {
        nfsstring(Vec::new())
    }
}

impl XDR for nfsstring {
    open spec fn encoding(v: Seq<u8>) -> Seq<u8> {
        opaque_encoding(v)
    }

    open spec fn encodable(v: Seq<u8>) -> bool {
        v.len() < u32::MAX
    }

    open spec fn decoding(src: Seq<u8>, pos: int) -> Result<(Seq<u8>, int), XdrError> {
        opaque_decoding(src, pos)
    }

    fn serialize(&self, dest: &mut Vec<u8>) {
        self.0.serialize(dest);
    }

    fn deserialize(&mut self, src: &mut ByteReader) -> (r: Result<(), XdrError>) {
        self.0.deserialize(src)
    }

    proof fn lemma_decoding_inverts_encoding(v: Seq<u8>, src: Seq<u8>, pos: int) {
        <Vec<u8>>::lemma_decoding_inverts_encoding(v, src, pos);
    }

    open spec fn word_aligned() -> bool {
        true
    }

    proof fn lemma_encoding_aligned(v: Seq<u8>) {
    }
}

/// The status of an NFS call.
#[derive(Copy, Clone, Debug, PartialEq, Eq, Structural)]
pub enum nfsstat3 {
    /// The call completed successfully.
    NFS3_OK,
    /// Not owner: the caller is neither privileged nor the owner of the
    /// target.
    NFS3ERR_PERM,
    /// No such file or directory.
    NFS3ERR_NOENT,
    /// A hard error, such as a disk error, occurred.
    NFS3ERR_IO,
    /// No such device or address.
    NFS3ERR_NXIO,
    /// Permission denied.
    NFS3ERR_ACCES,
    /// The file specified already exists.
    NFS3ERR_EXIST,
    /// Attempt to do a cross-device hard link.
    NFS3ERR_XDEV,
    /// No such device.
    NFS3ERR_NODEV,
    /// The caller specified a non-directory in a directory operation.
    NFS3ERR_NOTDIR,
    /// The caller specified a directory in a non-directory operation.
    NFS3ERR_ISDIR,
    /// Invalid or unsupported argument.
    NFS3ERR_INVAL,
    /// The operation would have made a file grow beyond the server's limit.
    NFS3ERR_FBIG,
    /// No space left on device.
    NFS3ERR_NOSPC,
    /// A modifying operation was attempted on a read-only file system.
    NFS3ERR_ROFS,
    /// Too many hard links.
    NFS3ERR_MLINK,
    /// The file name in an operation was too long.
    NFS3ERR_NAMETOOLONG,
    /// An attempt was made to remove a directory that was not empty.
    NFS3ERR_NOTEMPTY,
    /// Resource (quota) hard limit exceeded.
    NFS3ERR_DQUOT,
    /// The file handle no longer refers to a file the server knows.
    NFS3ERR_STALE,
    /// The file handle refers to a file on a non-local file system.
    NFS3ERR_REMOTE,
    /// The file handle failed internal consistency checks.
    NFS3ERR_BADHANDLE,
    /// Update synchronization mismatch during a SETATTR.
    NFS3ERR_NOT_SYNC,
    /// READDIR or READDIRPLUS cookie is stale.
    NFS3ERR_BAD_COOKIE,
    /// Operation is not supported.
    NFS3ERR_NOTSUPP,
    /// Buffer or request is too small.
    NFS3ERR_TOOSMALL,
    /// An error that maps to no other status.
    NFS3ERR_SERVERFAULT,
    /// An attempt was made to create an object of an unsupported type.
    NFS3ERR_BADTYPE,
    /// The server could not complete the request in a timely fashion.
    NFS3ERR_JUKEBOX,
}

impl View for nfsstat3 {
    type V = nfsstat3;

    open spec fn view(&self) -> nfsstat3 {
        *self
    }
}

impl nfsstat3 {
    /// The number that stands for the value on the wire.
    pub open spec fn wire(self) -> u32 {
        match self {
            nfsstat3::NFS3_OK => 0,
            nfsstat3::NFS3ERR_PERM => 1,
            nfsstat3::NFS3ERR_NOENT => 2,
            nfsstat3::NFS3ERR_IO => 5,
            nfsstat3::NFS3ERR_NXIO => 6,
            nfsstat3::NFS3ERR_ACCES => 13,
            nfsstat3::NFS3ERR_EXIST => 17,
            nfsstat3::NFS3ERR_XDEV => 18,
            nfsstat3::NFS3ERR_NODEV => 19,
            nfsstat3::NFS3ERR_NOTDIR => 20,
            nfsstat3::NFS3ERR_ISDIR => 21,
            nfsstat3::NFS3ERR_INVAL => 22,
            nfsstat3::NFS3ERR_FBIG => 27,
            nfsstat3::NFS3ERR_NOSPC => 28,
            nfsstat3::NFS3ERR_ROFS => 30,
            nfsstat3::NFS3ERR_MLINK => 31,
            nfsstat3::NFS3ERR_NAMETOOLONG => 63,
            nfsstat3::NFS3ERR_NOTEMPTY => 66,
            nfsstat3::NFS3ERR_DQUOT => 69,
            nfsstat3::NFS3ERR_STALE => 70,
            nfsstat3::NFS3ERR_REMOTE => 71,
            nfsstat3::NFS3ERR_BADHANDLE => 10001,
            nfsstat3::NFS3ERR_NOT_SYNC => 10002,
            nfsstat3::NFS3ERR_BAD_COOKIE => 10003,
            nfsstat3::NFS3ERR_NOTSUPP => 10004,
            nfsstat3::NFS3ERR_TOOSMALL => 10005,
            nfsstat3::NFS3ERR_SERVERFAULT => 10006,
            nfsstat3::NFS3ERR_BADTYPE => 10007,
            nfsstat3::NFS3ERR_JUKEBOX => 10008,
        }
    }

    /// The value that a number on the wire stands for, if any.
    pub open spec fn of_wire(w: u32) -> Option<nfsstat3> {
        if w == 0 {
            Some(nfsstat3::NFS3_OK)
        } else if w == 1 {
            Some(nfsstat3::NFS3ERR_PERM)
        } else if w == 2 {
            Some(nfsstat3::NFS3ERR_NOENT)
        } else if w == 5 {
            Some(nfsstat3::NFS3ERR_IO)
        } else if w == 6 {
            Some(nfsstat3::NFS3ERR_NXIO)
        } else if w == 13 {
            Some(nfsstat3::NFS3ERR_ACCES)
        } else if w == 17 {
            Some(nfsstat3::NFS3ERR_EXIST)
        } else if w == 18 {
            Some(nfsstat3::NFS3ERR_XDEV)
        } else if w == 19 {
            Some(nfsstat3::NFS3ERR_NODEV)
        } else if w == 20 {
            Some(nfsstat3::NFS3ERR_NOTDIR)
        } else if w == 21 {
            Some(nfsstat3::NFS3ERR_ISDIR)
        } else if w == 22 {
            Some(nfsstat3::NFS3ERR_INVAL)
        } else if w == 27 {
            Some(nfsstat3::NFS3ERR_FBIG)
        } else if w == 28 {
            Some(nfsstat3::NFS3ERR_NOSPC)
        } else if w == 30 {
            Some(nfsstat3::NFS3ERR_ROFS)
        } else if w == 31 {
            Some(nfsstat3::NFS3ERR_MLINK)
        } else if w == 63 {
            Some(nfsstat3::NFS3ERR_NAMETOOLONG)
        } else if w == 66 {
            Some(nfsstat3::NFS3ERR_NOTEMPTY)
        } else if w == 69 {
            Some(nfsstat3::NFS3ERR_DQUOT)
        } else if w == 70 {
            Some(nfsstat3::NFS3ERR_STALE)
        } else if w == 71 {
            Some(nfsstat3::NFS3ERR_REMOTE)
        } else if w == 10001 {
            Some(nfsstat3::NFS3ERR_BADHANDLE)
        } else if w == 10002 {
            Some(nfsstat3::NFS3ERR_NOT_SYNC)
        } else if w == 10003 {
            Some(nfsstat3::NFS3ERR_BAD_COOKIE)
        } else if w == 10004 {
            Some(nfsstat3::NFS3ERR_NOTSUPP)
        } else if w == 10005 {
            Some(nfsstat3::NFS3ERR_TOOSMALL)
        } else if w == 10006 {
            Some(nfsstat3::NFS3ERR_SERVERFAULT)
        } else if w == 10007 {
            Some(nfsstat3::NFS3ERR_BADTYPE)
        } else if w == 10008 {
            Some(nfsstat3::NFS3ERR_JUKEBOX)
        } else {
            None
        }
    }

    pub fn to_u32(&self) -> (w: u32)
        ensures
            w == self.wire(),
    {
        match self {
            nfsstat3::NFS3_OK => 0,
            nfsstat3::NFS3ERR_PERM => 1,
            nfsstat3::NFS3ERR_NOENT => 2,
            nfsstat3::NFS3ERR_IO => 5,
            nfsstat3::NFS3ERR_NXIO => 6,
            nfsstat3::NFS3ERR_ACCES => 13,
            nfsstat3::NFS3ERR_EXIST => 17,
            nfsstat3::NFS3ERR_XDEV => 18,
            nfsstat3::NFS3ERR_NODEV => 19,
            nfsstat3::NFS3ERR_NOTDIR => 20,
            nfsstat3::NFS3ERR_ISDIR => 21,
            nfsstat3::NFS3ERR_INVAL => 22,
            nfsstat3::NFS3ERR_FBIG => 27,
            nfsstat3::NFS3ERR_NOSPC => 28,
            nfsstat3::NFS3ERR_ROFS => 30,
            nfsstat3::NFS3ERR_MLINK => 31,
            nfsstat3::NFS3ERR_NAMETOOLONG => 63,
            nfsstat3::NFS3ERR_NOTEMPTY => 66,
            nfsstat3::NFS3ERR_DQUOT => 69,
            nfsstat3::NFS3ERR_STALE => 70,
            nfsstat3::NFS3ERR_REMOTE => 71,
            nfsstat3::NFS3ERR_BADHANDLE => 10001,
            nfsstat3::NFS3ERR_NOT_SYNC => 10002,
            nfsstat3::NFS3ERR_BAD_COOKIE => 10003,
            nfsstat3::NFS3ERR_NOTSUPP => 10004,
            nfsstat3::NFS3ERR_TOOSMALL => 10005,
            nfsstat3::NFS3ERR_SERVERFAULT => 10006,
            nfsstat3::NFS3ERR_BADTYPE => 10007,
            nfsstat3::NFS3ERR_JUKEBOX => 10008,
        }
    }

    pub fn from_u32(w: u32) -> (r: Option<nfsstat3>)
        ensures
            r == Self::of_wire(w),
    {
        if w == 0 {
            Some(nfsstat3::NFS3_OK)
        } else if w == 1 {
            Some(nfsstat3::NFS3ERR_PERM)
        } else if w == 2 {
            Some(nfsstat3::NFS3ERR_NOENT)
        } else if w == 5 {
            Some(nfsstat3::NFS3ERR_IO)
        } else if w == 6 {
            Some(nfsstat3::NFS3ERR_NXIO)
        } else if w == 13 {
            Some(nfsstat3::NFS3ERR_ACCES)
        } else if w == 17 {
            Some(nfsstat3::NFS3ERR_EXIST)
        } else if w == 18 {
            Some(nfsstat3::NFS3ERR_XDEV)
        } else if w == 19 {
            Some(nfsstat3::NFS3ERR_NODEV)
        } else if w == 20 {
            Some(nfsstat3::NFS3ERR_NOTDIR)
        } else if w == 21 {
            Some(nfsstat3::NFS3ERR_ISDIR)
        } else if w == 22 {
            Some(nfsstat3::NFS3ERR_INVAL)
        } else if w == 27 {
            Some(nfsstat3::NFS3ERR_FBIG)
        } else if w == 28 {
            Some(nfsstat3::NFS3ERR_NOSPC)
        } else if w == 30 {
            Some(nfsstat3::NFS3ERR_ROFS)
        } else if w == 31 {
            Some(nfsstat3::NFS3ERR_MLINK)
        } else if w == 63 {
            Some(nfsstat3::NFS3ERR_NAMETOOLONG)
        } else if w == 66 {
            Some(nfsstat3::NFS3ERR_NOTEMPTY)
        } else if w == 69 {
            Some(nfsstat3::NFS3ERR_DQUOT)
        } else if w == 70 {
            Some(nfsstat3::NFS3ERR_STALE)
        } else if w == 71 {
            Some(nfsstat3::NFS3ERR_REMOTE)
        } else if w == 10001 {
            Some(nfsstat3::NFS3ERR_BADHANDLE)
        } else if w == 10002 {
            Some(nfsstat3::NFS3ERR_NOT_SYNC)
        } else if w == 10003 {
            Some(nfsstat3::NFS3ERR_BAD_COOKIE)
        } else if w == 10004 {
            Some(nfsstat3::NFS3ERR_NOTSUPP)
        } else if w == 10005 {
            Some(nfsstat3::NFS3ERR_TOOSMALL)
        } else if w == 10006 {
            Some(nfsstat3::NFS3ERR_SERVERFAULT)
        } else if w == 10007 {
            Some(nfsstat3::NFS3ERR_BADTYPE)
        } else if w == 10008 {
            Some(nfsstat3::NFS3ERR_JUKEBOX)
        } else {
            None
        }
    }
}

impl XDR for nfsstat3 {
    #[verifier::opaque]
    open spec fn encoding(v: nfsstat3) -> Seq<u8> {
        u32::encoding(v.wire())
    }

    open spec fn encodable(v: nfsstat3) -> bool {
        true
    }

    #[verifier::opaque]
    open spec fn decoding(src: Seq<u8>, pos: int) -> Result<(nfsstat3, int), XdrError> {
        let w = u32::decoding(src, pos);
        if w is Err {
            fail(w)
        } else {
            match nfsstat3::of_wire(val(w)) {
                Some(v) => Ok((v, next(w))),
                None => Err(XdrError::InvalidData),
            }
        }
    }

    fn serialize(&self, dest: &mut Vec<u8>) {
        proof {
            reveal(<nfsstat3 as XDR>::encoding);
        }
        self.to_u32().serialize(dest);
    }

    fn deserialize(&mut self, src: &mut ByteReader) -> (r: Result<(), XdrError>) {
        proof {
            reveal(<nfsstat3 as XDR>::decoding);
        }
        let mut w: u32 = 0;
        w.deserialize(src)?;
        match nfsstat3::from_u32(w) {
            Some(v) => {
                *self = v;
                Ok(())
            },
            None => Err(XdrError::InvalidData),
        }
    }

    proof fn lemma_decoding_inverts_encoding(v: nfsstat3, src: Seq<u8>, pos: int) {
        reveal(<nfsstat3 as XDR>::encoding);
        reveal(<nfsstat3 as XDR>::decoding);
        u32::lemma_decoding_inverts_encoding(v.wire(), src, pos);
    }

    open spec fn word_aligned() -> bool {
        true
    }

    proof fn lemma_encoding_aligned(v: nfsstat3) {
        reveal(<nfsstat3 as XDR>::encoding);
    }
}

/// File type.
#[derive(Copy, Clone, Debug, PartialEq, Eq, Structural)]
pub enum ftype3 {
    /// Regular file.
    NF3REG,
    /// Directory.
    NF3DIR,
    /// Block special device.
    NF3BLK,
    /// Character special device.
    NF3CHR,
    /// Symbolic link.
    NF3LNK,
    /// Socket.
    NF3SOCK,
    /// Named pipe.
    NF3FIFO,
}

impl View for ftype3 {
    type V = ftype3;

    open spec fn view(&self) -> ftype3 {
        *self
    }
}

impl ftype3 {
    /// The number that stands for the value on the wire.
    pub open spec fn wire(self) -> u32 {
        match self {
            ftype3::NF3REG => 1,
            ftype3::NF3DIR => 2,
            ftype3::NF3BLK => 3,
            ftype3::NF3CHR => 4,
            ftype3::NF3LNK => 5,
            ftype3::NF3SOCK => 6,
            ftype3::NF3FIFO => 7,
        }
    }

    /// The value that a number on the wire stands for, if any.
    pub open spec fn of_wire(w: u32) -> Option<ftype3> {
        if w == 1 {
            Some(ftype3::NF3REG)
        } else if w == 2 {
            Some(ftype3::NF3DIR)
        } else if w == 3 {
            Some(ftype3::NF3BLK)
        } else if w == 4 {
            Some(ftype3::NF3CHR)
        } else if w == 5 {
            Some(ftype3::NF3LNK)
        } else if w == 6 {
            Some(ftype3::NF3SOCK)
        } else if w == 7 {
            Some(ftype3::NF3FIFO)
        } else {
            None
        }
    }

    pub fn to_u32(&self) -> (w: u32)
        ensures
            w == self.wire(),
    {
        match self {
            ftype3::NF3REG => 1,
            ftype3::NF3DIR => 2,
            ftype3::NF3BLK => 3,
            ftype3::NF3CHR => 4,
            ftype3::NF3LNK => 5,
            ftype3::NF3SOCK => 6,
            ftype3::NF3FIFO => 7,
        }
    }

    pub fn from_u32(w: u32) -> (r: Option<ftype3>)
        ensures
            r == Self::of_wire(w),
    {
        if w == 1 {
            Some(ftype3::NF3REG)
        } else if w == 2 {
            Some(ftype3::NF3DIR)
        } else if w == 3 {
            Some(ftype3::NF3BLK)
        } else if w == 4 {
            Some(ftype3::NF3CHR)
        } else if w == 5 {
            Some(ftype3::NF3LNK)
        } else if w == 6 {
            Some(ftype3::NF3SOCK)
        } else if w == 7 {
            Some(ftype3::NF3FIFO)
        } else {
            None
        }
    }
}

impl Default for ftype3 {
    fn default() -> (r: ftype3)
        ensures
            r == ftype3::NF3REG,
    {
        ftype3::NF3REG
    }
}

impl XDR for ftype3 {
    #[verifier::opaque]
    open spec fn encoding(v: ftype3) -> Seq<u8> {
        u32::encoding(v.wire())
    }

    open spec fn encodable(v: ftype3) -> bool {
        true
    }

    #[verifier::opaque]
    open spec fn decoding(src: Seq<u8>, pos: int) -> Result<(ftype3, int), XdrError> {
        let w = u32::decoding(src, pos);
        if w is Err {
            fail(w)
        } else {
            match ftype3::of_wire(val(w)) {
                Some(v) => Ok((v, next(w))),
                None => Err(XdrError::InvalidData),
            }
        }
    }

    fn serialize(&self, dest: &mut Vec<u8>) {
        proof {
            reveal(<ftype3 as XDR>::encoding);
        }
        self.to_u32().serialize(dest);
    }

    fn deserialize(&mut self, src: &mut ByteReader) -> (r: Result<(), XdrError>) {
        proof {
            reveal(<ftype3 as XDR>::decoding);
        }
        let mut w: u32 = 0;
        w.deserialize(src)?;
        match ftype3::from_u32(w) {
            Some(v) => {
                *self = v;
                Ok(())
            },
            None => Err(XdrError::InvalidData),
        }
    }

    proof fn lemma_decoding_inverts_encoding(v: ftype3, src: Seq<u8>, pos: int) {
        reveal(<ftype3 as XDR>::encoding);
        reveal(<ftype3 as XDR>::decoding);
        u32::lemma_decoding_inverts_encoding(v.wire(), src, pos);
    }

    open spec fn word_aligned() -> bool {
        true
    }

    proof fn lemma_encoding_aligned(v: ftype3) {
        reveal(<ftype3 as XDR>::encoding);
    }
}

/// Device number: major and minor.
#[derive(Copy, Clone, Debug, PartialEq, Eq, Structural)]
pub struct specdata3 {
    pub specdata1: u32,
    pub specdata2: u32,
}

impl View for specdata3 {
    type V = specdata3;

    open spec fn view(&self) -> specdata3 {
        *self
    }
}

impl Default for specdata3 {
    fn default() -> (r: specdata3)
        ensures
            r.specdata1 == 0,
            r.specdata2 == 0,
    {
        specdata3 {
            specdata1: 0,
            specdata2: 0,
        }
    }
}

impl XDR for specdata3 {
    #[verifier::opaque]
    open spec fn encoding(v: specdata3) -> Seq<u8> {
        u32::encoding(v.specdata1) + (u32::encoding(v.specdata2))
    }

    open spec fn encodable(v: specdata3) -> bool {
        &&& u32::encodable(v.specdata1)
        &&& u32::encodable(v.specdata2)
    }

    #[verifier::opaque]
    open spec fn decoding(src: Seq<u8>, pos: int) -> Result<(specdata3, int), XdrError> {
        let specdata1 = u32::decoding(src, pos);
        let specdata2 = u32::decoding(src, next(specdata1));
        if specdata1 is Err {
            fail(specdata1)
        } else if specdata2 is Err {
            fail(specdata2)
        } else {
            Ok(
                (
                    specdata3 {
                        specdata1: val(specdata1),
                        specdata2: val(specdata2),
                    },
                    next(specdata2),
                ),
            )
        }
    }

    fn serialize(&self, dest: &mut Vec<u8>) {
        self.specdata1.serialize(dest);
        self.specdata2.serialize(dest);
        proof {
            reveal(<specdata3 as XDR>::encoding);
            let d0 = old(dest)@;
            let t1 = u32::encoding(self.specdata2@);
            lemma_concat_assoc(d0, u32::encoding(self.specdata1@), t1);
        }
    }

    fn deserialize(&mut self, src: &mut ByteReader) -> (r: Result<(), XdrError>) {
        proof {
            reveal(<specdata3 as XDR>::decoding);
        }
        self.specdata1.deserialize(src)?;
        self.specdata2.deserialize(src)?;
        Ok(())
    }

    proof fn lemma_decoding_inverts_encoding(v: specdata3, src: Seq<u8>, pos: int) {
        reveal(<specdata3 as XDR>::encoding);
        reveal(<specdata3 as XDR>::decoding);
        let t1 = u32::encoding(v.specdata2);
        lemma_field::<u32>(v.specdata1, t1, src, pos);
        let p1 = pos + u32::encoding(v.specdata1).len();
        u32::lemma_decoding_inverts_encoding(v.specdata2, src, p1);
    }

    open spec fn word_aligned() -> bool {
        true
    }

    proof fn lemma_encoding_aligned(v: specdata3) {
        reveal(<specdata3 as XDR>::encoding);
        u32::lemma_encoding_aligned(v.specdata1);
        u32::lemma_encoding_aligned(v.specdata2);
        let n1 = u32::encoding(v.specdata2).len() as int;
        let n0 = u32::encoding(v.specdata1).len() + n1;
        lemma_aligned_sum(u32::encoding(v.specdata1).len() as int, n1);
        assert(Self::encoding(v).len() == n0);
    }
}

/// An opaque file handle.
#[derive(Clone, Debug, PartialEq, Eq)]
pub struct nfs_fh3 {
    pub data: Vec<u8>,
}

impl View for nfs_fh3 {
    type V = Seq<u8>;

    open spec fn view(&self) -> Seq<u8> {
        self.data@
    }
}

impl Default for nfs_fh3 {
    fn default() -> (fh: nfs_fh3)
        ensures
            fh@.len() == 0,
    {
        nfs_fh3 { data: Vec::new() }
    }
}

impl XDR for nfs_fh3 {
    open spec fn encoding(v: Seq<u8>) -> Seq<u8> {
        opaque_encoding(v)
    }

    open spec fn encodable(v: Seq<u8>) -> bool {
        v.len() < u32::MAX
    }

    open spec fn decoding(src: Seq<u8>, pos: int) -> Result<(Seq<u8>, int), XdrError> {
        opaque_decoding(src, pos)
    }

    fn serialize(&self, dest: &mut Vec<u8>) {
        self.data.serialize(dest);
    }

    fn deserialize(&mut self, src: &mut ByteReader) -> (r: Result<(), XdrError>) {
        self.data.deserialize(src)
    }

    proof fn lemma_decoding_inverts_encoding(v: Seq<u8>, src: Seq<u8>, pos: int) {
        <Vec<u8>>::lemma_decoding_inverts_encoding(v, src, pos);
    }

    open spec fn word_aligned() -> bool {
        true
    }

    proof fn lemma_encoding_aligned(v: Seq<u8>) {
    }
}

/// A time: seconds and nanoseconds since the Unix epoch.
#[derive(Copy, Clone, Debug, PartialEq, Eq, Structural)]
pub struct nfstime3 {
    pub seconds: u32,
    pub nseconds: u32,
}

impl View for nfstime3 {
    type V = nfstime3;

    open spec fn view(&self) -> nfstime3 {
        *self
    }
}

impl Default for nfstime3 {
    fn default() -> (r: nfstime3)
        ensures
            r.seconds == 0,
            r.nseconds == 0,
    {
        nfstime3 {
            seconds: 0,
            nseconds: 0,
        }
    }
}

impl XDR for nfstime3 {
    #[verifier::opaque]
    open spec fn encoding(v: nfstime3) -> Seq<u8> {
        u32::encoding(v.seconds) + (u32::encoding(v.nseconds))
    }

    open spec fn encodable(v: nfstime3) -> bool {
        &&& u32::encodable(v.seconds)
        &&& u32::encodable(v.nseconds)
    }

    #[verifier::opaque]
    open spec fn decoding(src: Seq<u8>, pos: int) -> Result<(nfstime3, int), XdrError> {
        let seconds = u32::decoding(src, pos);
        let nseconds = u32::decoding(src, next(seconds));
        if seconds is Err {
            fail(seconds)
        } else if nseconds is Err {
            fail(nseconds)
        } else {
            Ok((nfstime3 { seconds: val(seconds), nseconds: val(nseconds) }, next(nseconds)))
        }
    }

    fn serialize(&self, dest: &mut Vec<u8>) {
        self.seconds.serialize(dest);
        self.nseconds.serialize(dest);
        proof {
            reveal(<nfstime3 as XDR>::encoding);
            let d0 = old(dest)@;
            let t1 = u32::encoding(self.nseconds@);
            lemma_concat_assoc(d0, u32::encoding(self.seconds@), t1);
        }
    }

    fn deserialize(&mut self, src: &mut ByteReader) -> (r: Result<(), XdrError>) {
        proof {
            reveal(<nfstime3 as XDR>::decoding);
        }
        self.seconds.deserialize(src)?;
        self.nseconds.deserialize(src)?;
        Ok(())
    }

    proof fn lemma_decoding_inverts_encoding(v: nfstime3, src: Seq<u8>, pos: int) {
        reveal(<nfstime3 as XDR>::encoding);
        reveal(<nfstime3 as XDR>::decoding);
        let t1 = u32::encoding(v.nseconds);
        lemma_field::<u32>(v.seconds, t1, src, pos);
        let p1 = pos + u32::encoding(v.seconds).len();
        u32::lemma_decoding_inverts_encoding(v.nseconds, src, p1);
    }

    open spec fn word_aligned() -> bool {
        true
    }

    proof fn lemma_encoding_aligned(v: nfstime3) {
        reveal(<nfstime3 as XDR>::encoding);
        u32::lemma_encoding_aligned(v.seconds);
        u32::lemma_encoding_aligned(v.nseconds);
        let n1 = u32::encoding(v.nseconds).len() as int;
        let n0 = u32::encoding(v.seconds).len() + n1;
        lemma_aligned_sum(u32::encoding(v.seconds).len() as int, n1);
        assert(Self::encoding(v).len() == n0);
    }
}

/// The attributes of a file system object.
#[derive(Copy, Clone, Debug, PartialEq, Eq, Structural)]
pub struct fattr3 {
    pub ftype: ftype3,
    /// Protection mode bits.
    pub mode: mode3,
    /// Number of hard links.
    pub nlink: u32,
    pub uid: uid3,
    pub gid: gid3,
    /// Size of the file in bytes.
    pub size: size3,
    /// Bytes of disk space that the file uses.
    pub used: size3,
    pub rdev: specdata3,
    /// File system identifier.
    pub fsid: u64,
    /// The number that identifies the file within its file system.
    pub fileid: fileid3,
    /// Time of last access.
    pub atime: nfstime3,
    /// Time of last modification.
    pub mtime: nfstime3,
    /// Time of last attribute change.
    pub ctime: nfstime3,
}

impl View for fattr3 {
    type V = fattr3;

    open spec fn view(&self) -> fattr3 {
        *self
    }
}

impl Default for fattr3 {
    fn default() -> (r: fattr3)
        ensures
            r.mode == 0,
            r.nlink == 0,
            r.uid == 0,
            r.gid == 0,
            r.size == 0,
            r.used == 0,
            r.fsid == 0,
            r.fileid == 0,
    {
        fattr3 {
            ftype: ftype3::default(),
            mode: 0,
            nlink: 0,
            uid: 0,
            gid: 0,
            size: 0,
            used: 0,
            rdev: specdata3::default(),
            fsid: 0,
            fileid: 0,
            atime: nfstime3::default(),
            mtime: nfstime3::default(),
            ctime: nfstime3::default(),
        }
    }
}

impl XDR for fattr3 {
    #[verifier::opaque]
    open spec fn encoding(v: fattr3) -> Seq<u8> {
        ftype3::encoding(v.ftype) + (
            mode3::encoding(v.mode) + (
            u32::encoding(v.nlink) + (
            uid3::encoding(v.uid) + (
            gid3::encoding(v.gid) + (
            size3::encoding(v.size) + (
            size3::encoding(v.used) + (
            specdata3::encoding(v.rdev) + (
            u64::encoding(v.fsid) + (
            fileid3::encoding(v.fileid) + (
            nfstime3::encoding(v.atime) + (
            nfstime3::encoding(v.mtime) + (
            nfstime3::encoding(v.ctime)))))))))))))
    }

    open spec fn encodable(v: fattr3) -> bool {
        &&& ftype3::encodable(v.ftype)
        &&& mode3::encodable(v.mode)
        &&& u32::encodable(v.nlink)
        &&& uid3::encodable(v.uid)
        &&& gid3::encodable(v.gid)
        &&& size3::encodable(v.size)
        &&& size3::encodable(v.used)
        &&& specdata3::encodable(v.rdev)
        &&& u64::encodable(v.fsid)
        &&& fileid3::encodable(v.fileid)
        &&& nfstime3::encodable(v.atime)
        &&& nfstime3::encodable(v.mtime)
        &&& nfstime3::encodable(v.ctime)
    }

    #[verifier::opaque]
    open spec fn decoding(src: Seq<u8>, pos: int) -> Result<(fattr3, int), XdrError> {
        let ftype = ftype3::decoding(src, pos);
        let mode = mode3::decoding(src, next(ftype));
        let nlink = u32::decoding(src, next(mode));
        let uid = uid3::decoding(src, next(nlink));
        let gid = gid3::decoding(src, next(uid));
        let size = size3::decoding(src, next(gid));
        let used = size3::decoding(src, next(size));
        let rdev = specdata3::decoding(src, next(used));
        let fsid = u64::decoding(src, next(rdev));
        let fileid = fileid3::decoding(src, next(fsid));
        let atime = nfstime3::decoding(src, next(fileid));
        let mtime = nfstime3::decoding(src, next(atime));
        let ctime = nfstime3::decoding(src, next(mtime));
        if ftype is Err {
            fail(ftype)
        } else if mode is Err {
            fail(mode)
        } else if nlink is Err {
            fail(nlink)
        } else if uid is Err {
            fail(uid)
        } else if gid is Err {
            fail(gid)
        } else if size is Err {
            fail(size)
        } else if used is Err {
            fail(used)
        } else if rdev is Err {
            fail(rdev)
        } else if fsid is Err {
            fail(fsid)
        } else if fileid is Err {
            fail(fileid)
        } else if atime is Err {
            fail(atime)
        } else if mtime is Err {
            fail(mtime)
        } else if ctime is Err {
            fail(ctime)
        } else {
            Ok(
                (
                    fattr3 {
                        ftype: val(ftype),
                        mode: val(mode),
                        nlink: val(nlink),
                        uid: val(uid),
                        gid: val(gid),
                        size: val(size),
                        used: val(used),
                        rdev: val(rdev),
                        fsid: val(fsid),
                        fileid: val(fileid),
                        atime: val(atime),
                        mtime: val(mtime),
                        ctime: val(ctime),
                    },
                    next(ctime),
                ),
            )
        }
    }

    fn serialize(&self, dest: &mut Vec<u8>) {
        self.ftype.serialize(dest);
        self.mode.serialize(dest);
        self.nlink.serialize(dest);
        self.uid.serialize(dest);
        self.gid.serialize(dest);
        self.size.serialize(dest);
        self.used.serialize(dest);
        self.rdev.serialize(dest);
        self.fsid.serialize(dest);
        self.fileid.serialize(dest);
        self.atime.serialize(dest);
        self.mtime.serialize(dest);
        self.ctime.serialize(dest);
        proof {
            reveal(<fattr3 as XDR>::encoding);
            let d0 = old(dest)@;
            let d1 = d0 + ftype3::encoding(self.ftype@);
            let d2 = d1 + mode3::encoding(self.mode@);
            let d3 = d2 + u32::encoding(self.nlink@);
            let d4 = d3 + uid3::encoding(self.uid@);
            let d5 = d4 + gid3::encoding(self.gid@);
            let d6 = d5 + size3::encoding(self.size@);
            let d7 = d6 + size3::encoding(self.used@);
            let d8 = d7 + specdata3::encoding(self.rdev@);
            let d9 = d8 + u64::encoding(self.fsid@);
            let d10 = d9 + fileid3::encoding(self.fileid@);
            let d11 = d10 + nfstime3::encoding(self.atime@);
            let t12 = nfstime3::encoding(self.ctime@);
            let t11 = nfstime3::encoding(self.mtime@) + t12;
            let t10 = nfstime3::encoding(self.atime@) + t11;
            let t9 = fileid3::encoding(self.fileid@) + t10;
            let t8 = u64::encoding(self.fsid@) + t9;
            let t7 = specdata3::encoding(self.rdev@) + t8;
            let t6 = size3::encoding(self.used@) + t7;
            let t5 = size3::encoding(self.size@) + t6;
            let t4 = gid3::encoding(self.gid@) + t5;
            let t3 = uid3::encoding(self.uid@) + t4;
            let t2 = u32::encoding(self.nlink@) + t3;
            let t1 = mode3::encoding(self.mode@) + t2;
            lemma_concat_assoc(d11, nfstime3::encoding(self.mtime@), t12);
            lemma_concat_assoc(d10, nfstime3::encoding(self.atime@), t11);
            lemma_concat_assoc(d9, fileid3::encoding(self.fileid@), t10);
            lemma_concat_assoc(d8, u64::encoding(self.fsid@), t9);
            lemma_concat_assoc(d7, specdata3::encoding(self.rdev@), t8);
            lemma_concat_assoc(d6, size3::encoding(self.used@), t7);
            lemma_concat_assoc(d5, size3::encoding(self.size@), t6);
            lemma_concat_assoc(d4, gid3::encoding(self.gid@), t5);
            lemma_concat_assoc(d3, uid3::encoding(self.uid@), t4);
            lemma_concat_assoc(d2, u32::encoding(self.nlink@), t3);
            lemma_concat_assoc(d1, mode3::encoding(self.mode@), t2);
            lemma_concat_assoc(d0, ftype3::encoding(self.ftype@), t1);
        }
    }

    fn deserialize(&mut self, src: &mut ByteReader) -> (r: Result<(), XdrError>) {
        proof {
            reveal(<fattr3 as XDR>::decoding);
        }
        self.ftype.deserialize(src)?;
        self.mode.deserialize(src)?;
        self.nlink.deserialize(src)?;
        self.uid.deserialize(src)?;
        self.gid.deserialize(src)?;
        self.size.deserialize(src)?;
        self.used.deserialize(src)?;
        self.rdev.deserialize(src)?;
        self.fsid.deserialize(src)?;
        self.fileid.deserialize(src)?;
        self.atime.deserialize(src)?;
        self.mtime.deserialize(src)?;
        self.ctime.deserialize(src)?;
        Ok(())
    }

    proof fn lemma_decoding_inverts_encoding(v: fattr3, src: Seq<u8>, pos: int) {
        reveal(<fattr3 as XDR>::encoding);
        reveal(<fattr3 as XDR>::decoding);
        let t12 = nfstime3::encoding(v.ctime);
        let t11 = nfstime3::encoding(v.mtime) + t12;
        let t10 = nfstime3::encoding(v.atime) + t11;
        let t9 = fileid3::encoding(v.fileid) + t10;
        let t8 = u64::encoding(v.fsid) + t9;
        let t7 = specdata3::encoding(v.rdev) + t8;
        let t6 = size3::encoding(v.used) + t7;
        let t5 = size3::encoding(v.size) + t6;
        let t4 = gid3::encoding(v.gid) + t5;
        let t3 = uid3::encoding(v.uid) + t4;
        let t2 = u32::encoding(v.nlink) + t3;
        let t1 = mode3::encoding(v.mode) + t2;
        lemma_field::<ftype3>(v.ftype, t1, src, pos);
        let p1 = pos + ftype3::encoding(v.ftype).len();
        lemma_field::<mode3>(v.mode, t2, src, p1);
        let p2 = p1 + mode3::encoding(v.mode).len();
        lemma_field::<u32>(v.nlink, t3, src, p2);
        let p3 = p2 + u32::encoding(v.nlink).len();
        lemma_field::<uid3>(v.uid, t4, src, p3);
        let p4 = p3 + uid3::encoding(v.uid).len();
        lemma_field::<gid3>(v.gid, t5, src, p4);
        let p5 = p4 + gid3::encoding(v.gid).len();
        lemma_field::<size3>(v.size, t6, src, p5);
        let p6 = p5 + size3::encoding(v.size).len();
        lemma_field::<size3>(v.used, t7, src, p6);
        let p7 = p6 + size3::encoding(v.used).len();
        lemma_field::<specdata3>(v.rdev, t8, src, p7);
        let p8 = p7 + specdata3::encoding(v.rdev).len();
        lemma_field::<u64>(v.fsid, t9, src, p8);
        let p9 = p8 + u64::encoding(v.fsid).len();
        lemma_field::<fileid3>(v.fileid, t10, src, p9);
        let p10 = p9 + fileid3::encoding(v.fileid).len();
        lemma_field::<nfstime3>(v.atime, t11, src, p10);
        let p11 = p10 + nfstime3::encoding(v.atime).len();
        lemma_field::<nfstime3>(v.mtime, t12, src, p11);
        let p12 = p11 + nfstime3::encoding(v.mtime).len();
        nfstime3::lemma_decoding_inverts_encoding(v.ctime, src, p12);
    }

    open spec fn word_aligned() -> bool {
        true
    }

    proof fn lemma_encoding_aligned(v: fattr3) {
        reveal(<fattr3 as XDR>::encoding);
        ftype3::lemma_encoding_aligned(v.ftype);
        mode3::lemma_encoding_aligned(v.mode);
        u32::lemma_encoding_aligned(v.nlink);
        uid3::lemma_encoding_aligned(v.uid);
        gid3::lemma_encoding_aligned(v.gid);
        size3::lemma_encoding_aligned(v.size);
        size3::lemma_encoding_aligned(v.used);
        specdata3::lemma_encoding_aligned(v.rdev);
        u64::lemma_encoding_aligned(v.fsid);
        fileid3::lemma_encoding_aligned(v.fileid);
        nfstime3::lemma_encoding_aligned(v.atime);
        nfstime3::lemma_encoding_aligned(v.mtime);
        nfstime3::lemma_encoding_aligned(v.ctime);
        let n12 = nfstime3::encoding(v.ctime).len() as int;
        let n11 = nfstime3::encoding(v.mtime).len() + n12;
        lemma_aligned_sum(nfstime3::encoding(v.mtime).len() as int, n12);
        let n10 = nfstime3::encoding(v.atime).len() + n11;
        lemma_aligned_sum(nfstime3::encoding(v.atime).len() as int, n11);
        let n9 = fileid3::encoding(v.fileid).len() + n10;
        lemma_aligned_sum(fileid3::encoding(v.fileid).len() as int, n10);
        let n8 = u64::encoding(v.fsid).len() + n9;
        lemma_aligned_sum(u64::encoding(v.fsid).len() as int, n9);
        let n7 = specdata3::encoding(v.rdev).len() + n8;
        lemma_aligned_sum(specdata3::encoding(v.rdev).len() as int, n8);
        let n6 = size3::encoding(v.used).len() + n7;
        lemma_aligned_sum(size3::encoding(v.used).len() as int, n7);
        let n5 = size3::encoding(v.size).len() + n6;
        lemma_aligned_sum(size3::encoding(v.size).len() as int, n6);
        let n4 = gid3::encoding(v.gid).len() + n5;
        lemma_aligned_sum(gid3::encoding(v.gid).len() as int, n5);
        let n3 = uid3::encoding(v.uid).len() + n4;
        lemma_aligned_sum(uid3::encoding(v.uid).len() as int, n4);
        let n2 = u32::encoding(v.nlink).len() + n3;
        lemma_aligned_sum(u32::encoding(v.nlink).len() as int, n3);
        let n1 = mode3::encoding(v.mode).len() + n2;
        lemma_aligned_sum(mode3::encoding(v.mode).len() as int, n2);
        let n0 = ftype3::encoding(v.ftype).len() + n1;
        lemma_aligned_sum(ftype3::encoding(v.ftype).len() as int, n1);
        assert(Self::encoding(v).len() == n0);
    }
}

/// The file system supports hard links.
pub const FSF_LINK: u32 = 0x0001;

/// The file system supports symbolic links.
pub const FSF_SYMLINK: u32 = 0x0002;

/// What PATHCONF returns is the same for every file and directory of the
/// file system.
pub const FSF_HOMOGENEOUS: u32 = 0x0008;

/// The server sets the times of a file through SETATTR if asked.
pub const FSF_CANSETTIME: u32 = 0x0010;

/// The attributes that a client checks its cache against before an
/// operation.
#[derive(Copy, Clone, Debug, PartialEq, Eq, Structural)]
pub struct wcc_attr {
    pub size: size3,
    pub mtime: nfstime3,
    pub ctime: nfstime3,
}

impl View for wcc_attr {
    type V = wcc_attr;

    open spec fn view(&self) -> wcc_attr {
        *self
    }
}

impl Default for wcc_attr {
    fn default() -> (r: wcc_attr)
        ensures
            r.size == 0,
    {
        wcc_attr {
            size: 0,
            mtime: nfstime3::default(),
            ctime: nfstime3::default(),
        }
    }
}

impl XDR for wcc_attr {
    #[verifier::opaque]
    open spec fn encoding(v: wcc_attr) -> Seq<u8> {
        size3::encoding(v.size) + (
            nfstime3::encoding(v.mtime) + (
            nfstime3::encoding(v.ctime)))
    }

    open spec fn encodable(v: wcc_attr) -> bool {
        &&& size3::encodable(v.size)
        &&& nfstime3::encodable(v.mtime)
        &&& nfstime3::encodable(v.ctime)
    }

    #[verifier::opaque]
    open spec fn decoding(src: Seq<u8>, pos: int) -> Result<(wcc_attr, int), XdrError> {
        let size = size3::decoding(src, pos);
        let mtime = nfstime3::decoding(src, next(size));
        let ctime = nfstime3::decoding(src, next(mtime));
        if size is Err {
            fail(size)
        } else if mtime is Err {
            fail(mtime)
        } else if ctime is Err {
            fail(ctime)
        } else {
            Ok((wcc_attr { size: val(size), mtime: val(mtime), ctime: val(ctime) }, next(ctime)))
        }
    }

    fn serialize(&self, dest: &mut Vec<u8>) {
        self.size.serialize(dest);
        self.mtime.serialize(dest);
        self.ctime.serialize(dest);
        proof {
            reveal(<wcc_attr as XDR>::encoding);
            let d0 = old(dest)@;
            let d1 = d0 + size3::encoding(self.size@);
            let t2 = nfstime3::encoding(self.ctime@);
            let t1 = nfstime3::encoding(self.mtime@) + t2;
            lemma_concat_assoc(d1, nfstime3::encoding(self.mtime@), t2);
            lemma_concat_assoc(d0, size3::encoding(self.size@), t1);
        }
    }

    fn deserialize(&mut self, src: &mut ByteReader) -> (r: Result<(), XdrError>) {
        proof {
            reveal(<wcc_attr as XDR>::decoding);
        }
        self.size.deserialize(src)?;
        self.mtime.deserialize(src)?;
        self.ctime.deserialize(src)?;
        Ok(())
    }

    proof fn lemma_decoding_inverts_encoding(v: wcc_attr, src: Seq<u8>, pos: int) {
        reveal(<wcc_attr as XDR>::encoding);
        reveal(<wcc_attr as XDR>::decoding);
        let t2 = nfstime3::encoding(v.ctime);
        let t1 = nfstime3::encoding(v.mtime) + t2;
        lemma_field::<size3>(v.size, t1, src, pos);
        let p1 = pos + size3::encoding(v.size).len();
        lemma_field::<nfstime3>(v.mtime, t2, src, p1);
        let p2 = p1 + nfstime3::encoding(v.mtime).len();
        nfstime3::lemma_decoding_inverts_encoding(v.ctime, src, p2);
    }

    open spec fn word_aligned() -> bool {
        true
    }

    proof fn lemma_encoding_aligned(v: wcc_attr) {
        reveal(<wcc_attr as XDR>::encoding);
        size3::lemma_encoding_aligned(v.size);
        nfstime3::lemma_encoding_aligned(v.mtime);
        nfstime3::lemma_encoding_aligned(v.ctime);
        let n2 = nfstime3::encoding(v.ctime).len() as int;
        let n1 = nfstime3::encoding(v.mtime).len() + n2;
        lemma_aligned_sum(nfstime3::encoding(v.mtime).len() as int, n2);
        let n0 = size3::encoding(v.size).len() + n1;
        lemma_aligned_sum(size3::encoding(v.size).len() as int, n1);
        assert(Self::encoding(v).len() == n0);
    }
}

/// Attributes from before an operation, if the server has them.
#[derive(Copy, Clone, Debug, PartialEq, Eq, Structural)]
pub enum pre_op_attr {
    Void,
    attributes(wcc_attr),
}

impl View for pre_op_attr {
    type V = pre_op_attr;

    open spec fn view(&self) -> pre_op_attr {
        *self
    }
}

impl Default for pre_op_attr {
    fn default() -> (r: pre_op_attr)
        ensures
            r == pre_op_attr::Void,
    {
        pre_op_attr::Void
    }
}

impl XDR for pre_op_attr {
    #[verifier::opaque]
    open spec fn encoding(v: pre_op_attr) -> Seq<u8> {
        match v {
            pre_op_attr::Void => bool::encoding(false),
            pre_op_attr::attributes(x) => bool::encoding(true) + wcc_attr::encoding(x),
        }
    }

    open spec fn encodable(v: pre_op_attr) -> bool {
        match v {
            pre_op_attr::Void => true,
            pre_op_attr::attributes(x) => wcc_attr::encodable(x),
        }
    }

    #[verifier::opaque]
    open spec fn decoding(src: Seq<u8>, pos: int) -> Result<(pre_op_attr, int), XdrError> {
        let tag = bool::decoding(src, pos);
        if tag is Err {
            fail(tag)
        } else if !val(tag) {
            Ok((pre_op_attr::Void, next(tag)))
        } else {
            let x = wcc_attr::decoding(src, next(tag));
            if x is Err {
                fail(x)
            } else {
                Ok((pre_op_attr::attributes(val(x)), next(x)))
            }
        }
    }

    fn serialize(&self, dest: &mut Vec<u8>) {
        proof {
            reveal(<pre_op_attr as XDR>::encoding);
        }
        match self {
            pre_op_attr::Void => {
                false.serialize(dest);
            },
            pre_op_attr::attributes(x) => {
                true.serialize(dest);
                x.serialize(dest);
                assert(dest@ =~= old(dest)@ + Self::encoding(self@));
            },
        }
    }

    fn deserialize(&mut self, src: &mut ByteReader) -> (r: Result<(), XdrError>) {
        proof {
            reveal(<pre_op_attr as XDR>::decoding);
        }
        let mut tag: bool = false;
        tag.deserialize(src)?;
        if !tag {
            *self = pre_op_attr::Void;
        } else {
            let mut x: wcc_attr = wcc_attr::default();
            x.deserialize(src)?;
            *self = pre_op_attr::attributes(x);
        }
        Ok(())
    }

    proof fn lemma_decoding_inverts_encoding(v: pre_op_attr, src: Seq<u8>, pos: int) {
        reveal(<pre_op_attr as XDR>::encoding);
        reveal(<pre_op_attr as XDR>::decoding);
        match v {
            pre_op_attr::Void => {
                bool::lemma_decoding_inverts_encoding(false, src, pos);
            },
            pre_op_attr::attributes(x) => {
                lemma_field::<bool>(true, wcc_attr::encoding(x), src, pos);
                wcc_attr::lemma_decoding_inverts_encoding(x, src, pos + 4);
            },
        }
    }

    open spec fn word_aligned() -> bool {
        true
    }

    proof fn lemma_encoding_aligned(v: pre_op_attr) {
        reveal(<pre_op_attr as XDR>::encoding);
        match v {
            pre_op_attr::Void => {},
            pre_op_attr::attributes(x) => {
                wcc_attr::lemma_encoding_aligned(x);
            },
        }
    }
}

/// Attributes from after an operation, if the server has them.
#[derive(Copy, Clone, Debug, PartialEq, Eq, Structural)]
pub enum post_op_attr {
    Void,
    attributes(fattr3),
}

impl View for post_op_attr {
    type V = post_op_attr;

    open spec fn view(&self) -> post_op_attr {
        *self
    }
}

impl Default for post_op_attr {
    fn default() -> (r: post_op_attr)
        ensures
            r == post_op_attr::Void,
    {
        post_op_attr::Void
    }
}

impl XDR for post_op_attr {
    #[verifier::opaque]
    open spec fn encoding(v: post_op_attr) -> Seq<u8> {
        match v {
            post_op_attr::Void => bool::encoding(false),
            post_op_attr::attributes(x) => bool::encoding(true) + fattr3::encoding(x),
        }
    }

    open spec fn encodable(v: post_op_attr) -> bool {
        match v {
            post_op_attr::Void => true,
            post_op_attr::attributes(x) => fattr3::encodable(x),
        }
    }

    #[verifier::opaque]
    open spec fn decoding(src: Seq<u8>, pos: int) -> Result<(post_op_attr, int), XdrError> {
        let tag = bool::decoding(src, pos);
        if tag is Err {
            fail(tag)
        } else if !val(tag) {
            Ok((post_op_attr::Void, next(tag)))
        } else {
            let x = fattr3::decoding(src, next(tag));
            if x is Err {
                fail(x)
            } else {
                Ok((post_op_attr::attributes(val(x)), next(x)))
            }
        }
    }

    fn serialize(&self, dest: &mut Vec<u8>) {
        proof {
            reveal(<post_op_attr as XDR>::encoding);
        }
        match self {
            post_op_attr::Void => {
                false.serialize(dest);
            },
            post_op_attr::attributes(x) => {
                true.serialize(dest);
                x.serialize(dest);
                assert(dest@ =~= old(dest)@ + Self::encoding(self@));
            },
        }
    }

    fn deserialize(&mut self, src: &mut ByteReader) -> (r: Result<(), XdrError>) {
        proof {
            reveal(<post_op_attr as XDR>::decoding);
        }
        let mut tag: bool = false;
        tag.deserialize(src)?;
        if !tag {
            *self = post_op_attr::Void;
        } else {
            let mut x: fattr3 = fattr3::default();
            x.deserialize(src)?;
            *self = post_op_attr::attributes(x);
        }
        Ok(())
    }

    proof fn lemma_decoding_inverts_encoding(v: post_op_attr, src: Seq<u8>, pos: int) {
        reveal(<post_op_attr as XDR>::encoding);
        reveal(<post_op_attr as XDR>::decoding);
        match v {
            post_op_attr::Void => {
                bool::lemma_decoding_inverts_encoding(false, src, pos);
            },
            post_op_attr::attributes(x) => {
                lemma_field::<bool>(true, fattr3::encoding(x), src, pos);
                fattr3::lemma_decoding_inverts_encoding(x, src, pos + 4);
            },
        }
    }

    open spec fn word_aligned() -> bool {
        true
    }

    proof fn lemma_encoding_aligned(v: post_op_attr) {
        reveal(<post_op_attr as XDR>::encoding);
        match v {
            post_op_attr::Void => {},
            post_op_attr::attributes(x) => {
                fattr3::lemma_encoding_aligned(x);
            },
        }
    }
}

/// Weak cache consistency data: attributes from before and after an
/// operation.
#[derive(Copy, Clone, Debug, PartialEq, Eq, Structural)]
pub struct wcc_data {
    pub before: pre_op_attr,
    pub after: post_op_attr,
}

impl View for wcc_data {
    type V = wcc_data;

    open spec fn view(&self) -> wcc_data {
        *self
    }
}

impl Default for wcc_data {
    fn default() -> (r: wcc_data)
        ensures
            r == (wcc_data { before: pre_op_attr::Void, after: post_op_attr::Void }),
    {
        wcc_data {
            before: pre_op_attr::default(),
            after: post_op_attr::default(),
        }
    }
}

impl XDR for wcc_data {
    #[verifier::opaque]
    open spec fn encoding(v: wcc_data) -> Seq<u8> {
        pre_op_attr::encoding(v.before) + (post_op_attr::encoding(v.after))
    }

    open spec fn encodable(v: wcc_data) -> bool {
        &&& pre_op_attr::encodable(v.before)
        &&& post_op_attr::encodable(v.after)
    }

    #[verifier::opaque]
    open spec fn decoding(src: Seq<u8>, pos: int) -> Result<(wcc_data, int), XdrError> {
        let before = pre_op_attr::decoding(src, pos);
        let after = post_op_attr::decoding(src, next(before));
        if before is Err {
            fail(before)
        } else if after is Err {
            fail(after)
        } else {
            Ok((wcc_data { before: val(before), after: val(after) }, next(after)))
        }
    }

    fn serialize(&self, dest: &mut Vec<u8>) {
        self.before.serialize(dest);
        self.after.serialize(dest);
        proof {
            reveal(<wcc_data as XDR>::encoding);
            let d0 = old(dest)@;
            let t1 = post_op_attr::encoding(self.after@);
            lemma_concat_assoc(d0, pre_op_attr::encoding(self.before@), t1);
        }
    }

    fn deserialize(&mut self, src: &mut ByteReader) -> (r: Result<(), XdrError>) {
        proof {
            reveal(<wcc_data as XDR>::decoding);
        }
        self.before.deserialize(src)?;
        self.after.deserialize(src)?;
        Ok(())
    }

    proof fn lemma_decoding_inverts_encoding(v: wcc_data, src: Seq<u8>, pos: int) {
        reveal(<wcc_data as XDR>::encoding);
        reveal(<wcc_data as XDR>::decoding);
        let t1 = post_op_attr::encoding(v.after);
        lemma_field::<pre_op_attr>(v.before, t1, src, pos);
        let p1 = pos + pre_op_attr::encoding(v.before).len();
        post_op_attr::lemma_decoding_inverts_encoding(v.after, src, p1);
    }

    open spec fn word_aligned() -> bool {
        true
    }

    proof fn lemma_encoding_aligned(v: wcc_data) {
        reveal(<wcc_data as XDR>::encoding);
        pre_op_attr::lemma_encoding_aligned(v.before);
        post_op_attr::lemma_encoding_aligned(v.after);
        let n1 = post_op_attr::encoding(v.after).len() as int;
        let n0 = pre_op_attr::encoding(v.before).len() + n1;
        lemma_aligned_sum(pre_op_attr::encoding(v.before).len() as int, n1);
        assert(Self::encoding(v).len() == n0);
    }
}

/// Static file system information.
#[derive(Copy, Clone, Debug, PartialEq, Eq, Structural)]
pub struct fsinfo3 {
    pub obj_attributes: post_op_attr,
    /// Largest READ request in bytes.
    pub rtmax: u32,
    /// Preferred size of a READ request.
    pub rtpref: u32,
    /// Suggested multiple for the size of a READ request.
    pub rtmult: u32,
    /// Largest WRITE request in bytes.
    pub wtmax: u32,
    /// Preferred size of a WRITE request.
    pub wtpref: u32,
    /// Suggested multiple for the size of a WRITE request.
    pub wtmult: u32,
    /// Preferred size of a READDIR request.
    pub dtpref: u32,
    /// Largest size of a file.
    pub maxfilesize: size3,
    /// Granularity of the times the server keeps.
    pub time_delta: nfstime3,
    /// Bit mask of the FSF constants.
    pub properties: u32,
}

impl View for fsinfo3 {
    type V = fsinfo3;

    open spec fn view(&self) -> fsinfo3 {
        *self
    }
}

impl Default for fsinfo3 {
    fn default() -> (r: fsinfo3)
        ensures
            r.rtmax == 0,
            r.rtpref == 0,
            r.rtmult == 0,
            r.wtmax == 0,
            r.wtpref == 0,
            r.wtmult == 0,
            r.dtpref == 0,
            r.maxfilesize == 0,
            r.properties == 0,
    {
        fsinfo3 {
            obj_attributes: post_op_attr::default(),
            rtmax: 0,
            rtpref: 0,
            rtmult: 0,
            wtmax: 0,
            wtpref: 0,
            wtmult: 0,
            dtpref: 0,
            maxfilesize: 0,
            time_delta: nfstime3::default(),
            properties: 0,
        }
    }
}

impl XDR for fsinfo3 {
    #[verifier::opaque]
    open spec fn encoding(v: fsinfo3) -> Seq<u8> {
        post_op_attr::encoding(v.obj_attributes) + (
            u32::encoding(v.rtmax) + (
            u32::encoding(v.rtpref) + (
            u32::encoding(v.rtmult) + (
            u32::encoding(v.wtmax) + (
            u32::encoding(v.wtpref) + (
            u32::encoding(v.wtmult) + (
            u32::encoding(v.dtpref) + (
            size3::encoding(v.maxfilesize) + (
            nfstime3::encoding(v.time_delta) + (
            u32::encoding(v.properties)))))))))))
    }

    open spec fn encodable(v: fsinfo3) -> bool {
        &&& post_op_attr::encodable(v.obj_attributes)
        &&& u32::encodable(v.rtmax)
        &&& u32::encodable(v.rtpref)
        &&& u32::encodable(v.rtmult)
        &&& u32::encodable(v.wtmax)
        &&& u32::encodable(v.wtpref)
        &&& u32::encodable(v.wtmult)
        &&& u32::encodable(v.dtpref)
        &&& size3::encodable(v.maxfilesize)
        &&& nfstime3::encodable(v.time_delta)
        &&& u32::encodable(v.properties)
    }

    #[verifier::opaque]
    open spec fn decoding(src: Seq<u8>, pos: int) -> Result<(fsinfo3, int), XdrError> {
        let obj_attributes = post_op_attr::decoding(src, pos);
        let rtmax = u32::decoding(src, next(obj_attributes));
        let rtpref = u32::decoding(src, next(rtmax));
        let rtmult = u32::decoding(src, next(rtpref));
        let wtmax = u32::decoding(src, next(rtmult));
        let wtpref = u32::decoding(src, next(wtmax));
        let wtmult = u32::decoding(src, next(wtpref));
        let dtpref = u32::decoding(src, next(wtmult));
        let maxfilesize = size3::decoding(src, next(dtpref));
        let time_delta = nfstime3::decoding(src, next(maxfilesize));
        let properties = u32::decoding(src, next(time_delta));
        if obj_attributes is Err {
            fail(obj_attributes)
        } else if rtmax is Err {
            fail(rtmax)
        } else if rtpref is Err {
            fail(rtpref)
        } else if rtmult is Err {
            fail(rtmult)
        } else if wtmax is Err {
            fail(wtmax)
        } else if wtpref is Err {
            fail(wtpref)
        } else if wtmult is Err {
            fail(wtmult)
        } else if dtpref is Err {
            fail(dtpref)
        } else if maxfilesize is Err {
            fail(maxfilesize)
        } else if time_delta is Err {
            fail(time_delta)
        } else if properties is Err {
            fail(properties)
        } else {
            Ok(
                (
                    fsinfo3 {
                        obj_attributes: val(obj_attributes),
                        rtmax: val(rtmax),
                        rtpref: val(rtpref),
                        rtmult: val(rtmult),
                        wtmax: val(wtmax),
                        wtpref: val(wtpref),
                        wtmult: val(wtmult),
                        dtpref: val(dtpref),
                        maxfilesize: val(maxfilesize),
                        time_delta: val(time_delta),
                        properties: val(properties),
                    },
                    next(properties),
                ),
            )
        }
    }

    fn serialize(&self, dest: &mut Vec<u8>) {
        self.obj_attributes.serialize(dest);
        self.rtmax.serialize(dest);
        self.rtpref.serialize(dest);
        self.rtmult.serialize(dest);
        self.wtmax.serialize(dest);
        self.wtpref.serialize(dest);
        self.wtmult.serialize(dest);
        self.dtpref.serialize(dest);
        self.maxfilesize.serialize(dest);
        self.time_delta.serialize(dest);
        self.properties.serialize(dest);
        proof {
            reveal(<fsinfo3 as XDR>::encoding);
            let d0 = old(dest)@;
            let d1 = d0 + post_op_attr::encoding(self.obj_attributes@);
            let d2 = d1 + u32::encoding(self.rtmax@);
            let d3 = d2 + u32::encoding(self.rtpref@);
            let d4 = d3 + u32::encoding(self.rtmult@);
            let d5 = d4 + u32::encoding(self.wtmax@);
            let d6 = d5 + u32::encoding(self.wtpref@);
            let d7 = d6 + u32::encoding(self.wtmult@);
            let d8 = d7 + u32::encoding(self.dtpref@);
            let d9 = d8 + size3::encoding(self.maxfilesize@);
            let t10 = u32::encoding(self.properties@);
            let t9 = nfstime3::encoding(self.time_delta@) + t10;
            let t8 = size3::encoding(self.maxfilesize@) + t9;
            let t7 = u32::encoding(self.dtpref@) + t8;
            let t6 = u32::encoding(self.wtmult@) + t7;
            let t5 = u32::encoding(self.wtpref@) + t6;
            let t4 = u32::encoding(self.wtmax@) + t5;
            let t3 = u32::encoding(self.rtmult@) + t4;
            let t2 = u32::encoding(self.rtpref@) + t3;
            let t1 = u32::encoding(self.rtmax@) + t2;
            lemma_concat_assoc(d9, nfstime3::encoding(self.time_delta@), t10);
            lemma_concat_assoc(d8, size3::encoding(self.maxfilesize@), t9);
            lemma_concat_assoc(d7, u32::encoding(self.dtpref@), t8);
            lemma_concat_assoc(d6, u32::encoding(self.wtmult@), t7);
            lemma_concat_assoc(d5, u32::encoding(self.wtpref@), t6);
            lemma_concat_assoc(d4, u32::encoding(self.wtmax@), t5);
            lemma_concat_assoc(d3, u32::encoding(self.rtmult@), t4);
            lemma_concat_assoc(d2, u32::encoding(self.rtpref@), t3);
            lemma_concat_assoc(d1, u32::encoding(self.rtmax@), t2);
            lemma_concat_assoc(d0, post_op_attr::encoding(self.obj_attributes@), t1);
        }
    }

    fn deserialize(&mut self, src: &mut ByteReader) -> (r: Result<(), XdrError>) {
        proof {
            reveal(<fsinfo3 as XDR>::decoding);
        }
        self.obj_attributes.deserialize(src)?;
        self.rtmax.deserialize(src)?;
        self.rtpref.deserialize(src)?;
        self.rtmult.deserialize(src)?;
        self.wtmax.deserialize(src)?;
        self.wtpref.deserialize(src)?;
        self.wtmult.deserialize(src)?;
        self.dtpref.deserialize(src)?;
        self.maxfilesize.deserialize(src)?;
        self.time_delta.deserialize(src)?;
        self.properties.deserialize(src)?;
        Ok(())
    }

    proof fn lemma_decoding_inverts_encoding(v: fsinfo3, src: Seq<u8>, pos: int) {
        reveal(<fsinfo3 as XDR>::encoding);
        reveal(<fsinfo3 as XDR>::decoding);
        let t10 = u32::encoding(v.properties);
        let t9 = nfstime3::encoding(v.time_delta) + t10;
        let t8 = size3::encoding(v.maxfilesize) + t9;
        let t7 = u32::encoding(v.dtpref) + t8;
        let t6 = u32::encoding(v.wtmult) + t7;
        let t5 = u32::encoding(v.wtpref) + t6;
        let t4 = u32::encoding(v.wtmax) + t5;
        let t3 = u32::encoding(v.rtmult) + t4;
        let t2 = u32::encoding(v.rtpref) + t3;
        let t1 = u32::encoding(v.rtmax) + t2;
        lemma_field::<post_op_attr>(v.obj_attributes, t1, src, pos);
        let p1 = pos + post_op_attr::encoding(v.obj_attributes).len();
        lemma_field::<u32>(v.rtmax, t2, src, p1);
        let p2 = p1 + u32::encoding(v.rtmax).len();
        lemma_field::<u32>(v.rtpref, t3, src, p2);
        let p3 = p2 + u32::encoding(v.rtpref).len();
        lemma_field::<u32>(v.rtmult, t4, src, p3);
        let p4 = p3 + u32::encoding(v.rtmult).len();
        lemma_field::<u32>(v.wtmax, t5, src, p4);
        let p5 = p4 + u32::encoding(v.wtmax).len();
        lemma_field::<u32>(v.wtpref, t6, src, p5);
        let p6 = p5 + u32::encoding(v.wtpref).len();
        lemma_field::<u32>(v.wtmult, t7, src, p6);
        let p7 = p6 + u32::encoding(v.wtmult).len();
        lemma_field::<u32>(v.dtpref, t8, src, p7);
        let p8 = p7 + u32::encoding(v.dtpref).len();
        lemma_field::<size3>(v.maxfilesize, t9, src, p8);
        let p9 = p8 + size3::encoding(v.maxfilesize).len();
        lemma_field::<nfstime3>(v.time_delta, t10, src, p9);
        let p10 = p9 + nfstime3::encoding(v.time_delta).len();
        u32::lemma_decoding_inverts_encoding(v.properties, src, p10);
    }

    open spec fn word_aligned() -> bool {
        true
    }

    proof fn lemma_encoding_aligned(v: fsinfo3) {
        reveal(<fsinfo3 as XDR>::encoding);
        post_op_attr::lemma_encoding_aligned(v.obj_attributes);
        u32::lemma_encoding_aligned(v.rtmax);
        u32::lemma_encoding_aligned(v.rtpref);
        u32::lemma_encoding_aligned(v.rtmult);
        u32::lemma_encoding_aligned(v.wtmax);
        u32::lemma_encoding_aligned(v.wtpref);
        u32::lemma_encoding_aligned(v.wtmult);
        u32::lemma_encoding_aligned(v.dtpref);
        size3::lemma_encoding_aligned(v.maxfilesize);
        nfstime3::lemma_encoding_aligned(v.time_delta);
        u32::lemma_encoding_aligned(v.properties);
        let n10 = u32::encoding(v.properties).len() as int;
        let n9 = nfstime3::encoding(v.time_delta).len() + n10;
        lemma_aligned_sum(nfstime3::encoding(v.time_delta).len() as int, n10);
        let n8 = size3::encoding(v.maxfilesize).len() + n9;
        lemma_aligned_sum(size3::encoding(v.maxfilesize).len() as int, n9);
        let n7 = u32::encoding(v.dtpref).len() + n8;
        lemma_aligned_sum(u32::encoding(v.dtpref).len() as int, n8);
        let n6 = u32::encoding(v.wtmult).len() + n7;
        lemma_aligned_sum(u32::encoding(v.wtmult).len() as int, n7);
        let n5 = u32::encoding(v.wtpref).len() + n6;
        lemma_aligned_sum(u32::encoding(v.wtpref).len() as int, n6);
        let n4 = u32::encoding(v.wtmax).len() + n5;
        lemma_aligned_sum(u32::encoding(v.wtmax).len() as int, n5);
        let n3 = u32::encoding(v.rtmult).len() + n4;
        lemma_aligned_sum(u32::encoding(v.rtmult).len() as int, n4);
        let n2 = u32::encoding(v.rtpref).len() + n3;
        lemma_aligned_sum(u32::encoding(v.rtpref).len() as int, n3);
        let n1 = u32::encoding(v.rtmax).len() + n2;
        lemma_aligned_sum(u32::encoding(v.rtmax).len() as int, n2);
        let n0 = post_op_attr::encoding(v.obj_attributes).len() + n1;
        lemma_aligned_sum(post_op_attr::encoding(v.obj_attributes).len() as int, n1);
        assert(Self::encoding(v).len() == n0);
    }
}

/// A file handle, if the server has one to give.
#[derive(Clone, Debug, PartialEq, Eq)]
pub enum post_op_fh3 {
    Void,
    handle(nfs_fh3),
}

/// What a [`post_op_fh3`] holds.
pub enum post_op_fh3_view {
    Void,
    handle(Seq<u8>),
}

impl View for post_op_fh3 {
    type V = post_op_fh3_view;

    open spec fn view(&self) -> post_op_fh3_view {
        match self {
            post_op_fh3::Void => post_op_fh3_view::Void,
            post_op_fh3::handle(x) => post_op_fh3_view::handle(x@),
        }
    }
}

impl Default for post_op_fh3 {
    fn default() -> (r: post_op_fh3)
        ensures
            r@ == post_op_fh3_view::Void,
    {
        post_op_fh3::Void
    }
}

impl XDR for post_op_fh3 {
    #[verifier::opaque]
    open spec fn encoding(v: post_op_fh3_view) -> Seq<u8> {
        match v {
            post_op_fh3_view::Void => bool::encoding(false),
            post_op_fh3_view::handle(x) => bool::encoding(true) + nfs_fh3::encoding(x),
        }
    }

    open spec fn encodable(v: post_op_fh3_view) -> bool {
        match v {
            post_op_fh3_view::Void => true,
            post_op_fh3_view::handle(x) => nfs_fh3::encodable(x),
        }
    }

    #[verifier::opaque]
    open spec fn decoding(src: Seq<u8>, pos: int) -> Result<(post_op_fh3_view, int), XdrError> {
        let tag = bool::decoding(src, pos);
        if tag is Err {
            fail(tag)
        } else if !val(tag) {
            Ok((post_op_fh3_view::Void, next(tag)))
        } else {
            let x = nfs_fh3::decoding(src, next(tag));
            if x is Err {
                fail(x)
            } else {
                Ok((post_op_fh3_view::handle(val(x)), next(x)))
            }
        }
    }

    fn serialize(&self, dest: &mut Vec<u8>) {
        proof {
            reveal(<post_op_fh3 as XDR>::encoding);
        }
        match self {
            post_op_fh3::Void => {
                false.serialize(dest);
            },
            post_op_fh3::handle(x) => {
                true.serialize(dest);
                x.serialize(dest);
                assert(dest@ =~= old(dest)@ + Self::encoding(self@));
            },
        }
    }

    fn deserialize(&mut self, src: &mut ByteReader) -> (r: Result<(), XdrError>) {
        proof {
            reveal(<post_op_fh3 as XDR>::decoding);
        }
        let mut tag: bool = false;
        tag.deserialize(src)?;
        if !tag {
            *self = post_op_fh3::Void;
        } else {
            let mut x: nfs_fh3 = nfs_fh3::default();
            x.deserialize(src)?;
            *self = post_op_fh3::handle(x);
        }
        Ok(())
    }

    proof fn lemma_decoding_inverts_encoding(v: post_op_fh3_view, src: Seq<u8>, pos: int) {
        reveal(<post_op_fh3 as XDR>::encoding);
        reveal(<post_op_fh3 as XDR>::decoding);
        match v {
            post_op_fh3_view::Void => {
                bool::lemma_decoding_inverts_encoding(false, src, pos);
            },
            post_op_fh3_view::handle(x) => {
                lemma_field::<bool>(true, nfs_fh3::encoding(x), src, pos);
                nfs_fh3::lemma_decoding_inverts_encoding(x, src, pos + 4);
            },
        }
    }

    open spec fn word_aligned() -> bool {
        true
    }

    proof fn lemma_encoding_aligned(v: post_op_fh3_view) {
        reveal(<post_op_fh3 as XDR>::encoding);
        match v {
            post_op_fh3_view::Void => {},
            post_op_fh3_view::handle(x) => {
                nfs_fh3::lemma_encoding_aligned(x);
            },
        }
    }
}

/// Whether to set the mode of a file, and to what.
#[derive(Copy, Clone, Debug, PartialEq, Eq, Structural)]
pub enum set_mode3 {
    Void,
    mode(mode3),
}

impl View for set_mode3 {
    type V = set_mode3;

    open spec fn view(&self) -> set_mode3 {
        *self
    }
}

impl XDR for set_mode3 {
    #[verifier::opaque]
    open spec fn encoding(v: set_mode3) -> Seq<u8> {
        match v {
            set_mode3::Void => bool::encoding(false),
            set_mode3::mode(x) => bool::encoding(true) + mode3::encoding(x),
        }
    }

    open spec fn encodable(v: set_mode3) -> bool {
        match v {
            set_mode3::Void => true,
            set_mode3::mode(x) => mode3::encodable(x),
        }
    }

    #[verifier::opaque]
    open spec fn decoding(src: Seq<u8>, pos: int) -> Result<(set_mode3, int), XdrError> {
        let tag = bool::decoding(src, pos);
        if tag is Err {
            fail(tag)
        } else if !val(tag) {
            Ok((set_mode3::Void, next(tag)))
        } else {
            let x = mode3::decoding(src, next(tag));
            if x is Err {
                fail(x)
            } else {
                Ok((set_mode3::mode(val(x)), next(x)))
            }
        }
    }

    fn serialize(&self, dest: &mut Vec<u8>) {
        proof {
            reveal(<set_mode3 as XDR>::encoding);
        }
        match self {
            set_mode3::Void => {
                false.serialize(dest);
            },
            set_mode3::mode(x) => {
                true.serialize(dest);
                x.serialize(dest);
                assert(dest@ =~= old(dest)@ + Self::encoding(self@));
            },
        }
    }

    fn deserialize(&mut self, src: &mut ByteReader) -> (r: Result<(), XdrError>) {
        proof {
            reveal(<set_mode3 as XDR>::decoding);
        }
        let mut tag: bool = false;
        tag.deserialize(src)?;
        if !tag {
            *self = set_mode3::Void;
        } else {
            let mut x: mode3 = 0;
            x.deserialize(src)?;
            *self = set_mode3::mode(x);
        }
        Ok(())
    }

    proof fn lemma_decoding_inverts_encoding(v: set_mode3, src: Seq<u8>, pos: int) {
        reveal(<set_mode3 as XDR>::encoding);
        reveal(<set_mode3 as XDR>::decoding);
        match v {
            set_mode3::Void => {
                bool::lemma_decoding_inverts_encoding(false, src, pos);
            },
            set_mode3::mode(x) => {
                lemma_field::<bool>(true, mode3::encoding(x), src, pos);
                mode3::lemma_decoding_inverts_encoding(x, src, pos + 4);
            },
        }
    }

    open spec fn word_aligned() -> bool {
        true
    }

    proof fn lemma_encoding_aligned(v: set_mode3) {
        reveal(<set_mode3 as XDR>::encoding);
        match v {
            set_mode3::Void => {},
            set_mode3::mode(x) => {
                mode3::lemma_encoding_aligned(x);
            },
        }
    }
}

/// Whether to set the uid of a file, and to what.
#[derive(Copy, Clone, Debug, PartialEq, Eq, Structural)]
pub enum set_uid3 {
    Void,
    uid(uid3),
}

impl View for set_uid3 {
    type V = set_uid3;

    open spec fn view(&self) -> set_uid3 {
        *self
    }
}

impl XDR for set_uid3 {
    #[verifier::opaque]
    open spec fn encoding(v: set_uid3) -> Seq<u8> {
        match v {
            set_uid3::Void => bool::encoding(false),
            set_uid3::uid(x) => bool::encoding(true) + uid3::encoding(x),
        }
    }

    open spec fn encodable(v: set_uid3) -> bool {
        match v {
            set_uid3::Void => true,
            set_uid3::uid(x) => uid3::encodable(x),
        }
    }

    #[verifier::opaque]
    open spec fn decoding(src: Seq<u8>, pos: int) -> Result<(set_uid3, int), XdrError> {
        let tag = bool::decoding(src, pos);
        if tag is Err {
            fail(tag)
        } else if !val(tag) {
            Ok((set_uid3::Void, next(tag)))
        } else {
            let x = uid3::decoding(src, next(tag));
            if x is Err {
                fail(x)
            } else {
                Ok((set_uid3::uid(val(x)), next(x)))
            }
        }
    }

    fn serialize(&self, dest: &mut Vec<u8>) {
        proof {
            reveal(<set_uid3 as XDR>::encoding);
        }
        match self {
            set_uid3::Void => {
                false.serialize(dest);
            },
            set_uid3::uid(x) => {
                true.serialize(dest);
                x.serialize(dest);
                assert(dest@ =~= old(dest)@ + Self::encoding(self@));
            },
        }
    }

    fn deserialize(&mut self, src: &mut ByteReader) -> (r: Result<(), XdrError>) {
        proof {
            reveal(<set_uid3 as XDR>::decoding);
        }
        let mut tag: bool = false;
        tag.deserialize(src)?;
        if !tag {
            *self = set_uid3::Void;
        } else {
            let mut x: uid3 = 0;
            x.deserialize(src)?;
            *self = set_uid3::uid(x);
        }
        Ok(())
    }

    proof fn lemma_decoding_inverts_encoding(v: set_uid3, src: Seq<u8>, pos: int) {
        reveal(<set_uid3 as XDR>::encoding);
        reveal(<set_uid3 as XDR>::decoding);
        match v {
            set_uid3::Void => {
                bool::lemma_decoding_inverts_encoding(false, src, pos);
            },
            set_uid3::uid(x) => {
                lemma_field::<bool>(true, uid3::encoding(x), src, pos);
                uid3::lemma_decoding_inverts_encoding(x, src, pos + 4);
            },
        }
    }

    open spec fn word_aligned() -> bool {
        true
    }

    proof fn lemma_encoding_aligned(v: set_uid3) {
        reveal(<set_uid3 as XDR>::encoding);
        match v {
            set_uid3::Void => {},
            set_uid3::uid(x) => {
                uid3::lemma_encoding_aligned(x);
            },
        }
    }
}

/// Whether to set the gid of a file, and to what.
#[derive(Copy, Clone, Debug, PartialEq, Eq, Structural)]
pub enum set_gid3 {
    Void,
    gid(gid3),
}

impl View for set_gid3 {
    type V = set_gid3;

    open spec fn view(&self) -> set_gid3 {
        *self
    }
}

impl XDR for set_gid3 {
    #[verifier::opaque]
    open spec fn encoding(v: set_gid3) -> Seq<u8> {
        match v {
            set_gid3::Void => bool::encoding(false),
            set_gid3::gid(x) => bool::encoding(true) + gid3::encoding(x),
        }
    }

    open spec fn encodable(v: set_gid3) -> bool {
        match v {
            set_gid3::Void => true,
            set_gid3::gid(x) => gid3::encodable(x),
        }
    }

    #[verifier::opaque]
    open spec fn decoding(src: Seq<u8>, pos: int) -> Result<(set_gid3, int), XdrError> {
        let tag = bool::decoding(src, pos);
        if tag is Err {
            fail(tag)
        } else if !val(tag) {
            Ok((set_gid3::Void, next(tag)))
        } else {
            let x = gid3::decoding(src, next(tag));
            if x is Err {
                fail(x)
            } else {
                Ok((set_gid3::gid(val(x)), next(x)))
            }
        }
    }

    fn serialize(&self, dest: &mut Vec<u8>) {
        proof {
            reveal(<set_gid3 as XDR>::encoding);
        }
        match self {
            set_gid3::Void => {
                false.serialize(dest);
            },
            set_gid3::gid(x) => {
                true.serialize(dest);
                x.serialize(dest);
                assert(dest@ =~= old(dest)@ + Self::encoding(self@));
            },
        }
    }

    fn deserialize(&mut self, src: &mut ByteReader) -> (r: Result<(), XdrError>) {
        proof {
            reveal(<set_gid3 as XDR>::decoding);
        }
        let mut tag: bool = false;
        tag.deserialize(src)?;
        if !tag {
            *self = set_gid3::Void;
        } else {
            let mut x: gid3 = 0;
            x.deserialize(src)?;
            *self = set_gid3::gid(x);
        }
        Ok(())
    }

    proof fn lemma_decoding_inverts_encoding(v: set_gid3, src: Seq<u8>, pos: int) {
        reveal(<set_gid3 as XDR>::encoding);
        reveal(<set_gid3 as XDR>::decoding);
        match v {
            set_gid3::Void => {
                bool::lemma_decoding_inverts_encoding(false, src, pos);
            },
            set_gid3::gid(x) => {
                lemma_field::<bool>(true, gid3::encoding(x), src, pos);
                gid3::lemma_decoding_inverts_encoding(x, src, pos + 4);
            },
        }
    }

    open spec fn word_aligned() -> bool {
        true
    }

    proof fn lemma_encoding_aligned(v: set_gid3) {
        reveal(<set_gid3 as XDR>::encoding);
        match v {
            set_gid3::Void => {},
            set_gid3::gid(x) => {
                gid3::lemma_encoding_aligned(x);
            },
        }
    }
}

/// Whether to set the size of a file, and to what.
#[derive(Copy, Clone, Debug, PartialEq, Eq, Structural)]
pub enum set_size3 {
    Void,
    size(size3),
}

impl View for set_size3 {
    type V = set_size3;

    open spec fn view(&self) -> set_size3 {
        *self
    }
}

impl XDR for set_size3 {
    #[verifier::opaque]
    open spec fn encoding(v: set_size3) -> Seq<u8> {
        match v {
            set_size3::Void => bool::encoding(false),
            set_size3::size(x) => bool::encoding(true) + size3::encoding(x),
        }
    }

    open spec fn encodable(v: set_size3) -> bool {
        match v {
            set_size3::Void => true,
            set_size3::size(x) => size3::encodable(x),
        }
    }

    #[verifier::opaque]
    open spec fn decoding(src: Seq<u8>, pos: int) -> Result<(set_size3, int), XdrError> {
        let tag = bool::decoding(src, pos);
        if tag is Err {
            fail(tag)
        } else if !val(tag) {
            Ok((set_size3::Void, next(tag)))
        } else {
            let x = size3::decoding(src, next(tag));
            if x is Err {
                fail(x)
            } else {
                Ok((set_size3::size(val(x)), next(x)))
            }
        }
    }

    fn serialize(&self, dest: &mut Vec<u8>) {
        proof {
            reveal(<set_size3 as XDR>::encoding);
        }
        match self {
            set_size3::Void => {
                false.serialize(dest);
            },
            set_size3::size(x) => {
                true.serialize(dest);
                x.serialize(dest);
                assert(dest@ =~= old(dest)@ + Self::encoding(self@));
            },
        }
    }

    fn deserialize(&mut self, src: &mut ByteReader) -> (r: Result<(), XdrError>) {
        proof {
            reveal(<set_size3 as XDR>::decoding);
        }
        let mut tag: bool = false;
        tag.deserialize(src)?;
        if !tag {
            *self = set_size3::Void;
        } else {
            let mut x: size3 = 0;
            x.deserialize(src)?;
            *self = set_size3::size(x);
        }
        Ok(())
    }

    proof fn lemma_decoding_inverts_encoding(v: set_size3, src: Seq<u8>, pos: int) {
        reveal(<set_size3 as XDR>::encoding);
        reveal(<set_size3 as XDR>::decoding);
        match v {
            set_size3::Void => {
                bool::lemma_decoding_inverts_encoding(false, src, pos);
            },
            set_size3::size(x) => {
                lemma_field::<bool>(true, size3::encoding(x), src, pos);
                size3::lemma_decoding_inverts_encoding(x, src, pos + 4);
            },
        }
    }

    open spec fn word_aligned() -> bool {
        true
    }

    proof fn lemma_encoding_aligned(v: set_size3) {
        reveal(<set_size3 as XDR>::encoding);
        match v {
            set_size3::Void => {},
            set_size3::size(x) => {
                size3::lemma_encoding_aligned(x);
            },
        }
    }
}

/// Whether to set the access time of a file, and to what.
#[derive(Copy, Clone, Debug, PartialEq, Eq, Structural)]
pub enum set_atime {
    DONT_CHANGE,
    /// Set it to the time on the server's clock.
    SET_TO_SERVER_TIME,
    /// Set it to the time that the client supplies.
    SET_TO_CLIENT_TIME(nfstime3),
}

impl View for set_atime {
    type V = set_atime;

    open spec fn view(&self) -> set_atime {
        *self
    }
}

impl XDR for set_atime {
    #[verifier::opaque]
    open spec fn encoding(v: set_atime) -> Seq<u8> {
        match v {
            set_atime::DONT_CHANGE => u32::encoding(0),
            set_atime::SET_TO_SERVER_TIME => u32::encoding(1),
            set_atime::SET_TO_CLIENT_TIME(x) => u32::encoding(2) + nfstime3::encoding(x),
        }
    }

    open spec fn encodable(v: set_atime) -> bool {
        match v {
            set_atime::DONT_CHANGE => true,
            set_atime::SET_TO_SERVER_TIME => true,
            set_atime::SET_TO_CLIENT_TIME(x) => nfstime3::encodable(x),
        }
    }

    #[verifier::opaque]
    open spec fn decoding(src: Seq<u8>, pos: int) -> Result<(set_atime, int), XdrError> {
        let tag = u32::decoding(src, pos);
        if tag is Err {
            fail(tag)
        } else if val(tag) == 0 {
            Ok((set_atime::DONT_CHANGE, next(tag)))
        } else if val(tag) == 1 {
            Ok((set_atime::SET_TO_SERVER_TIME, next(tag)))
        } else if val(tag) == 2 {
            let x = nfstime3::decoding(src, next(tag));
            if x is Err {
                fail(x)
            } else {
                Ok((set_atime::SET_TO_CLIENT_TIME(val(x)), next(x)))
            }
        } else {
            Err(XdrError::InvalidData)
        }
    }

    fn serialize(&self, dest: &mut Vec<u8>) {
        proof {
            reveal(<set_atime as XDR>::encoding);
        }
        match self {
            set_atime::DONT_CHANGE => {
                0_u32.serialize(dest);
            },
            set_atime::SET_TO_SERVER_TIME => {
                1_u32.serialize(dest);
            },
            set_atime::SET_TO_CLIENT_TIME(x) => {
                2_u32.serialize(dest);
                x.serialize(dest);
                assert(dest@ =~= old(dest)@ + Self::encoding(self@));
            },
        }
    }

    fn deserialize(&mut self, src: &mut ByteReader) -> (r: Result<(), XdrError>) {
        proof {
            reveal(<set_atime as XDR>::decoding);
        }
        let mut tag: u32 = 0;
        tag.deserialize(src)?;
        if tag == 0 {
            *self = set_atime::DONT_CHANGE;
        } else if tag == 1 {
            *self = set_atime::SET_TO_SERVER_TIME;
        } else if tag == 2 {
            let mut x: nfstime3 = nfstime3::default();
            x.deserialize(src)?;
            *self = set_atime::SET_TO_CLIENT_TIME(x);
        } else {
            return Err(XdrError::InvalidData);
        }
        Ok(())
    }

    proof fn lemma_decoding_inverts_encoding(v: set_atime, src: Seq<u8>, pos: int) {
        reveal(<set_atime as XDR>::encoding);
        reveal(<set_atime as XDR>::decoding);
        match v {
            set_atime::DONT_CHANGE => {
                u32::lemma_decoding_inverts_encoding(0, src, pos);
            },
            set_atime::SET_TO_SERVER_TIME => {
                u32::lemma_decoding_inverts_encoding(1, src, pos);
            },
            set_atime::SET_TO_CLIENT_TIME(x) => {
                lemma_field::<u32>(2, nfstime3::encoding(x), src, pos);
                nfstime3::lemma_decoding_inverts_encoding(x, src, pos + 4);
            },
        }
    }

    open spec fn word_aligned() -> bool {
        true
    }

    proof fn lemma_encoding_aligned(v: set_atime) {
        reveal(<set_atime as XDR>::encoding);
        match v {
            set_atime::DONT_CHANGE => {},
            set_atime::SET_TO_SERVER_TIME => {},
            set_atime::SET_TO_CLIENT_TIME(x) => {
                nfstime3::lemma_encoding_aligned(x);
            },
        }
    }
}

/// Whether to set the modification time of a file, and to what.
#[derive(Copy, Clone, Debug, PartialEq, Eq, Structural)]
pub enum set_mtime {
    DONT_CHANGE,
    /// Set it to the time on the server's clock.
    SET_TO_SERVER_TIME,
    /// Set it to the time that the client supplies.
    SET_TO_CLIENT_TIME(nfstime3),
}

impl View for set_mtime {
    type V = set_mtime;

    open spec fn view(&self) -> set_mtime {
        *self
    }
}

impl XDR for set_mtime {
    #[verifier::opaque]
    open spec fn encoding(v: set_mtime) -> Seq<u8> {
        match v {
            set_mtime::DONT_CHANGE => u32::encoding(0),
            set_mtime::SET_TO_SERVER_TIME => u32::encoding(1),
            set_mtime::SET_TO_CLIENT_TIME(x) => u32::encoding(2) + nfstime3::encoding(x),
        }
    }

    open spec fn encodable(v: set_mtime) -> bool {
        match v {
            set_mtime::DONT_CHANGE => true,
            set_mtime::SET_TO_SERVER_TIME => true,
            set_mtime::SET_TO_CLIENT_TIME(x) => nfstime3::encodable(x),
        }
    }

    #[verifier::opaque]
    open spec fn decoding(src: Seq<u8>, pos: int) -> Result<(set_mtime, int), XdrError> {
        let tag = u32::decoding(src, pos);
        if tag is Err {
            fail(tag)
        } else if val(tag) == 0 {
            Ok((set_mtime::DONT_CHANGE, next(tag)))
        } else if val(tag) == 1 {
            Ok((set_mtime::SET_TO_SERVER_TIME, next(tag)))
        } else if val(tag) == 2 {
            let x = nfstime3::decoding(src, next(tag));
            if x is Err {
                fail(x)
            } else {
                Ok((set_mtime::SET_TO_CLIENT_TIME(val(x)), next(x)))
            }
        } else {
            Err(XdrError::InvalidData)
        }
    }

    fn serialize(&self, dest: &mut Vec<u8>) {
        proof {
            reveal(<set_mtime as XDR>::encoding);
        }
        match self {
            set_mtime::DONT_CHANGE => {
                0_u32.serialize(dest);
            },
            set_mtime::SET_TO_SERVER_TIME => {
                1_u32.serialize(dest);
            },
            set_mtime::SET_TO_CLIENT_TIME(x) => {
                2_u32.serialize(dest);
                x.serialize(dest);
                assert(dest@ =~= old(dest)@ + Self::encoding(self@));
            },
        }
    }

    fn deserialize(&mut self, src: &mut ByteReader) -> (r: Result<(), XdrError>) {
        proof {
            reveal(<set_mtime as XDR>::decoding);
        }
        let mut tag: u32 = 0;
        tag.deserialize(src)?;
        if tag == 0 {
            *self = set_mtime::DONT_CHANGE;
        } else if tag == 1 {
            *self = set_mtime::SET_TO_SERVER_TIME;
        } else if tag == 2 {
            let mut x: nfstime3 = nfstime3::default();
            x.deserialize(src)?;
            *self = set_mtime::SET_TO_CLIENT_TIME(x);
        } else {
            return Err(XdrError::InvalidData);
        }
        Ok(())
    }

    proof fn lemma_decoding_inverts_encoding(v: set_mtime, src: Seq<u8>, pos: int) {
        reveal(<set_mtime as XDR>::encoding);
        reveal(<set_mtime as XDR>::decoding);
        match v {
            set_mtime::DONT_CHANGE => {
                u32::lemma_decoding_inverts_encoding(0, src, pos);
            },
            set_mtime::SET_TO_SERVER_TIME => {
                u32::lemma_decoding_inverts_encoding(1, src, pos);
            },
            set_mtime::SET_TO_CLIENT_TIME(x) => {
                lemma_field::<u32>(2, nfstime3::encoding(x), src, pos);
                nfstime3::lemma_decoding_inverts_encoding(x, src, pos + 4);
            },
        }
    }

    open spec fn word_aligned() -> bool {
        true
    }

    proof fn lemma_encoding_aligned(v: set_mtime) {
        reveal(<set_mtime as XDR>::encoding);
        match v {
            set_mtime::DONT_CHANGE => {},
            set_mtime::SET_TO_SERVER_TIME => {},
            set_mtime::SET_TO_CLIENT_TIME(x) => {
                nfstime3::lemma_encoding_aligned(x);
            },
        }
    }
}

/// The attributes that a client asks to set.
#[derive(Copy, Clone, Debug, PartialEq, Eq, Structural)]
pub struct sattr3 {
    pub mode: set_mode3,
    pub uid: set_uid3,
    pub gid: set_gid3,
    pub size: set_size3,
    pub atime: set_atime,
    pub mtime: set_mtime,
}

impl View for sattr3 {
    type V = sattr3;

    open spec fn view(&self) -> sattr3 {
        *self
    }
}

impl XDR for sattr3 {
    #[verifier::opaque]
    open spec fn encoding(v: sattr3) -> Seq<u8> {
        set_mode3::encoding(v.mode) + (
            set_uid3::encoding(v.uid) + (
            set_gid3::encoding(v.gid) + (
            set_size3::encoding(v.size) + (
            set_atime::encoding(v.atime) + (
            set_mtime::encoding(v.mtime))))))
    }

    open spec fn encodable(v: sattr3) -> bool {
        &&& set_mode3::encodable(v.mode)
        &&& set_uid3::encodable(v.uid)
        &&& set_gid3::encodable(v.gid)
        &&& set_size3::encodable(v.size)
        &&& set_atime::encodable(v.atime)
        &&& set_mtime::encodable(v.mtime)
    }

    #[verifier::opaque]
    open spec fn decoding(src: Seq<u8>, pos: int) -> Result<(sattr3, int), XdrError> {
        let mode = set_mode3::decoding(src, pos);
        let uid = set_uid3::decoding(src, next(mode));
        let gid = set_gid3::decoding(src, next(uid));
        let size = set_size3::decoding(src, next(gid));
        let atime = set_atime::decoding(src, next(size));
        let mtime = set_mtime::decoding(src, next(atime));
        if mode is Err {
            fail(mode)
        } else if uid is Err {
            fail(uid)
        } else if gid is Err {
            fail(gid)
        } else if size is Err {
            fail(size)
        } else if atime is Err {
            fail(atime)
        } else if mtime is Err {
            fail(mtime)
        } else {
            Ok(
                (
                    sattr3 {
                        mode: val(mode),
                        uid: val(uid),
                        gid: val(gid),
                        size: val(size),
                        atime: val(atime),
                        mtime: val(mtime),
                    },
                    next(mtime),
                ),
            )
        }
    }

    fn serialize(&self, dest: &mut Vec<u8>) {
        self.mode.serialize(dest);
        self.uid.serialize(dest);
        self.gid.serialize(dest);
        self.size.serialize(dest);
        self.atime.serialize(dest);
        self.mtime.serialize(dest);
        proof {
            reveal(<sattr3 as XDR>::encoding);
            let d0 = old(dest)@;
            let d1 = d0 + set_mode3::encoding(self.mode@);
            let d2 = d1 + set_uid3::encoding(self.uid@);
            let d3 = d2 + set_gid3::encoding(self.gid@);
            let d4 = d3 + set_size3::encoding(self.size@);
            let t5 = set_mtime::encoding(self.mtime@);
            let t4 = set_atime::encoding(self.atime@) + t5;
            let t3 = set_size3::encoding(self.size@) + t4;
            let t2 = set_gid3::encoding(self.gid@) + t3;
            let t1 = set_uid3::encoding(self.uid@) + t2;
            lemma_concat_assoc(d4, set_atime::encoding(self.atime@), t5);
            lemma_concat_assoc(d3, set_size3::encoding(self.size@), t4);
            lemma_concat_assoc(d2, set_gid3::encoding(self.gid@), t3);
            lemma_concat_assoc(d1, set_uid3::encoding(self.uid@), t2);
            lemma_concat_assoc(d0, set_mode3::encoding(self.mode@), t1);
        }
    }

    fn deserialize(&mut self, src: &mut ByteReader) -> (r: Result<(), XdrError>) {
        proof {
            reveal(<sattr3 as XDR>::decoding);
        }
        self.mode.deserialize(src)?;
        self.uid.deserialize(src)?;
        self.gid.deserialize(src)?;
        self.size.deserialize(src)?;
        self.atime.deserialize(src)?;
        self.mtime.deserialize(src)?;
        Ok(())
    }

    proof fn lemma_decoding_inverts_encoding(v: sattr3, src: Seq<u8>, pos: int) {
        reveal(<sattr3 as XDR>::encoding);
        reveal(<sattr3 as XDR>::decoding);
        let t5 = set_mtime::encoding(v.mtime);
        let t4 = set_atime::encoding(v.atime) + t5;
        let t3 = set_size3::encoding(v.size) + t4;
        let t2 = set_gid3::encoding(v.gid) + t3;
        let t1 = set_uid3::encoding(v.uid) + t2;
        lemma_field::<set_mode3>(v.mode, t1, src, pos);
        let p1 = pos + set_mode3::encoding(v.mode).len();
        lemma_field::<set_uid3>(v.uid, t2, src, p1);
        let p2 = p1 + set_uid3::encoding(v.uid).len();
        lemma_field::<set_gid3>(v.gid, t3, src, p2);
        let p3 = p2 + set_gid3::encoding(v.gid).len();
        lemma_field::<set_size3>(v.size, t4, src, p3);
        let p4 = p3 + set_size3::encoding(v.size).len();
        lemma_field::<set_atime>(v.atime, t5, src, p4);
        let p5 = p4 + set_atime::encoding(v.atime).len();
        set_mtime::lemma_decoding_inverts_encoding(v.mtime, src, p5);
    }

    open spec fn word_aligned() -> bool {
        true
    }

    proof fn lemma_encoding_aligned(v: sattr3) {
        reveal(<sattr3 as XDR>::encoding);
        set_mode3::lemma_encoding_aligned(v.mode);
        set_uid3::lemma_encoding_aligned(v.uid);
        set_gid3::lemma_encoding_aligned(v.gid);
        set_size3::lemma_encoding_aligned(v.size);
        set_atime::lemma_encoding_aligned(v.atime);
        set_mtime::lemma_encoding_aligned(v.mtime);
        let n5 = set_mtime::encoding(v.mtime).len() as int;
        let n4 = set_atime::encoding(v.atime).len() + n5;
        lemma_aligned_sum(set_atime::encoding(v.atime).len() as int, n5);
        let n3 = set_size3::encoding(v.size).len() + n4;
        lemma_aligned_sum(set_size3::encoding(v.size).len() as int, n4);
        let n2 = set_gid3::encoding(v.gid).len() + n3;
        lemma_aligned_sum(set_gid3::encoding(v.gid).len() as int, n3);
        let n1 = set_uid3::encoding(v.uid).len() + n2;
        lemma_aligned_sum(set_uid3::encoding(v.uid).len() as int, n2);
        let n0 = set_mode3::encoding(v.mode).len() + n1;
        lemma_aligned_sum(set_mode3::encoding(v.mode).len() as int, n1);
        assert(Self::encoding(v).len() == n0);
    }
}

impl Default for sattr3 {
    fn default() -> (r: sattr3)
        ensures
            r == (sattr3 {
                mode: set_mode3::Void,
                uid: set_uid3::Void,
                gid: set_gid3::Void,
                size: set_size3::Void,
                atime: set_atime::DONT_CHANGE,
                mtime: set_mtime::DONT_CHANGE,
            }),
    {
        sattr3 {
            mode: set_mode3::Void,
            uid: set_uid3::Void,
            gid: set_gid3::Void,
            size: set_size3::Void,
            atime: set_atime::DONT_CHANGE,
            mtime: set_mtime::DONT_CHANGE,
        }
    }
}

/// A directory and the name of an entry in it.
#[derive(Clone, Debug, PartialEq, Eq)]
pub struct diropargs3 {
    pub dir: nfs_fh3,
    pub name: filename3,
}

/// What a [`diropargs3`] holds.
pub struct diropargs3_view {
    pub dir: Seq<u8>,
    pub name: Seq<u8>,
}

impl View for diropargs3 {
    type V = diropargs3_view;

    open spec fn view(&self) -> diropargs3_view {
        diropargs3_view {
            dir: self.dir@,
            name: self.name@,
        }
    }
}

impl Default for diropargs3 {
    fn default() -> (r: diropargs3)
    {
        diropargs3 {
            dir: nfs_fh3::default(),
            name: filename3::default(),
        }
    }
}

impl XDR for diropargs3 {
    #[verifier::opaque]
    open spec fn encoding(v: diropargs3_view) -> Seq<u8> {
        nfs_fh3::encoding(v.dir) + (filename3::encoding(v.name))
    }

    open spec fn encodable(v: diropargs3_view) -> bool {
        &&& nfs_fh3::encodable(v.dir)
        &&& filename3::encodable(v.name)
    }

    #[verifier::opaque]
    open spec fn decoding(src: Seq<u8>, pos: int) -> Result<(diropargs3_view, int), XdrError> {
        let dir = nfs_fh3::decoding(src, pos);
        let name = filename3::decoding(src, next(dir));
        if dir is Err {
            fail(dir)
        } else if name is Err {
            fail(name)
        } else {
            Ok((diropargs3_view { dir: val(dir), name: val(name) }, next(name)))
        }
    }

    fn serialize(&self, dest: &mut Vec<u8>) {
        self.dir.serialize(dest);
        self.name.serialize(dest);
        proof {
            reveal(<diropargs3 as XDR>::encoding);
            let d0 = old(dest)@;
            let t1 = filename3::encoding(self.name@);
            lemma_concat_assoc(d0, nfs_fh3::encoding(self.dir@), t1);
        }
    }

    fn deserialize(&mut self, src: &mut ByteReader) -> (r: Result<(), XdrError>) {
        proof {
            reveal(<diropargs3 as XDR>::decoding);
        }
        self.dir.deserialize(src)?;
        self.name.deserialize(src)?;
        Ok(())
    }

    proof fn lemma_decoding_inverts_encoding(v: diropargs3_view, src: Seq<u8>, pos: int) {
        reveal(<diropargs3 as XDR>::encoding);
        reveal(<diropargs3 as XDR>::decoding);
        let t1 = filename3::encoding(v.name);
        lemma_field::<nfs_fh3>(v.dir, t1, src, pos);
        let p1 = pos + nfs_fh3::encoding(v.dir).len();
        filename3::lemma_decoding_inverts_encoding(v.name, src, p1);
    }

    open spec fn word_aligned() -> bool {
        true
    }

    proof fn lemma_encoding_aligned(v: diropargs3_view) {
        reveal(<diropargs3 as XDR>::encoding);
        nfs_fh3::lemma_encoding_aligned(v.dir);
        filename3::lemma_encoding_aligned(v.name);
        let n1 = filename3::encoding(v.name).len() as int;
        let n0 = nfs_fh3::encoding(v.dir).len() + n1;
        lemma_aligned_sum(nfs_fh3::encoding(v.dir).len() as int, n1);
        assert(Self::encoding(v).len() == n0);
    }
}

/// What a new symbolic link points to, and its attributes.
#[derive(Clone, Debug, PartialEq, Eq)]
pub struct symlinkdata3 {
    pub symlink_attributes: sattr3,
    pub symlink_data: nfspath3,
}

/// What a [`symlinkdata3`] holds.
pub struct symlinkdata3_view {
    pub symlink_attributes: sattr3,
    pub symlink_data: Seq<u8>,
}

impl View for symlinkdata3 {
    type V = symlinkdata3_view;

    open spec fn view(&self) -> symlinkdata3_view {
        symlinkdata3_view {
            symlink_attributes: self.symlink_attributes@,
            symlink_data: self.symlink_data@,
        }
    }
}

impl Default for symlinkdata3 {
    fn default() -> (r: symlinkdata3)
    {
        symlinkdata3 {
            symlink_attributes: sattr3::default(),
            symlink_data: nfspath3::default(),
        }
    }
}

impl XDR for symlinkdata3 {
    #[verifier::opaque]
    open spec fn encoding(v: symlinkdata3_view) -> Seq<u8> {
        sattr3::encoding(v.symlink_attributes) + (nfspath3::encoding(v.symlink_data))
    }

    open spec fn encodable(v: symlinkdata3_view) -> bool {
        &&& sattr3::encodable(v.symlink_attributes)
        &&& nfspath3::encodable(v.symlink_data)
    }

    #[verifier::opaque]
    open spec fn decoding(src: Seq<u8>, pos: int) -> Result<(symlinkdata3_view, int), XdrError> {
        let symlink_attributes = sattr3::decoding(src, pos);
        let symlink_data = nfspath3::decoding(src, next(symlink_attributes));
        if symlink_attributes is Err {
            fail(symlink_attributes)
        } else if symlink_data is Err {
            fail(symlink_data)
        } else {
            Ok(
                (
                    symlinkdata3_view {
                        symlink_attributes: val(symlink_attributes),
                        symlink_data: val(symlink_data),
                    },
                    next(symlink_data),
                ),
            )
        }
    }

    fn serialize(&self, dest: &mut Vec<u8>) {
        self.symlink_attributes.serialize(dest);
        self.symlink_data.serialize(dest);
        proof {
            reveal(<symlinkdata3 as XDR>::encoding);
            let d0 = old(dest)@;
            let t1 = nfspath3::encoding(self.symlink_data@);
            lemma_concat_assoc(d0, sattr3::encoding(self.symlink_attributes@), t1);
        }
    }

    fn deserialize(&mut self, src: &mut ByteReader) -> (r: Result<(), XdrError>) {
        proof {
            reveal(<symlinkdata3 as XDR>::decoding);
        }
        self.symlink_attributes.deserialize(src)?;
        self.symlink_data.deserialize(src)?;
        Ok(())
    }

    proof fn lemma_decoding_inverts_encoding(v: symlinkdata3_view, src: Seq<u8>, pos: int) {
        reveal(<symlinkdata3 as XDR>::encoding);
        reveal(<symlinkdata3 as XDR>::decoding);
        let t1 = nfspath3::encoding(v.symlink_data);
        lemma_field::<sattr3>(v.symlink_attributes, t1, src, pos);
        let p1 = pos + sattr3::encoding(v.symlink_attributes).len();
        nfspath3::lemma_decoding_inverts_encoding(v.symlink_data, src, p1);
    }

    open spec fn word_aligned() -> bool {
        true
    }

    proof fn lemma_encoding_aligned(v: symlinkdata3_view) {
        reveal(<symlinkdata3 as XDR>::encoding);
        sattr3::lemma_encoding_aligned(v.symlink_attributes);
        nfspath3::lemma_encoding_aligned(v.symlink_data);
        let n1 = nfspath3::encoding(v.symlink_data).len() as int;
        let n0 = sattr3::encoding(v.symlink_attributes).len() + n1;
        lemma_aligned_sum(sattr3::encoding(v.symlink_attributes).len() as int, n1);
        assert(Self::encoding(v).len() == n0);
    }
}

/// The handle under which the root is mounted.
pub fn get_root_mount_handle() -> (h: Vec<u8>)
    ensures
        h@ == seq![0u8],
{
    let mut h: Vec<u8> = Vec::new();
    h.push(0u8);
    h
}

} // verus!
