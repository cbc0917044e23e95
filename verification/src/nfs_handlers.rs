//! The procedures of NFS version 3.
//!
//! A procedure decodes its arguments, validates the file handles in them,
//! calls the file system, and appends its reply to the output. What it
//! replies where the file system is not asked, it replies exactly; what it
//! replies otherwise is a function of what the file system answered to the
//! calls that the procedure made, each with the arguments that were decoded.
//! Where its arguments decode, a procedure leaves the input right behind
//! them; a procedure that is refused because the file system takes no
//! changes reads nothing.

use crate::context::RPCContext;
use crate::nfs::{
    cookie3, cookieverf3, count3, diropargs3, diropargs3_view, fattr3, fileid3, filename3, fsinfo3,
    ftype3, nfs_fh3, nfspath3, nfsstat3, nfsstring, nfstime3, offset3, post_op_attr, post_op_fh3,
    post_op_fh3_view, pre_op_attr, sattr3, size3, symlinkdata3, symlinkdata3_view, wcc_attr,
    wcc_data, writeverf3, VERSION,
};
use crate::rpc::{
    accept_body, accepted_message, call_body, garbage_reply, lemma_accepted_bytes, mismatch_info,
    rpc_msg, success_header, write_accepted,
};
use crate::vfs::{
    cookie_after, entries_behind, handle_bytes, handle_id, lemma_place_of, listable, make_fsinfo,
    page_behind, plain_answer, standard_fsinfo, DirEntry, DirEntrySimple, NFSFileSystem,
    ReadDirResult, ReadDirSimpleResult, VFSCapabilities,
};
use crate::write_counter::WriteCounter;
use crate::xdr::{
    be32_bytes, fail, lemma_aligned_sum, lemma_concat_assoc, lemma_field, next, val, ByteReader,
    XdrError, XDR,
};
use vstd::prelude::*;

verus! {

/// The arguments of READ.
#[derive(Clone, Debug, PartialEq, Eq)]
pub struct READ3args {
    pub file: nfs_fh3,
    pub offset: offset3,
    pub count: count3,
}

/// What a [`READ3args`] holds.
pub struct READ3args_view {
    pub file: Seq<u8>,
    pub offset: u64,
    pub count: u32,
}

impl View for READ3args {
    type V = READ3args_view;

    open spec fn view(&self) -> READ3args_view {
        READ3args_view {
            file: self.file@,
            offset: self.offset@,
            count: self.count@,
        }
    }
}

impl Default for READ3args {
    fn default() -> (r: READ3args)
        ensures
            r.offset == 0,
            r.count == 0,
    {
        READ3args {
            file: nfs_fh3::default(),
            offset: 0,
            count: 0,
        }
    }
}

impl XDR for READ3args {
    #[verifier::opaque]
    open spec fn encoding(v: READ3args_view) -> Seq<u8> {
        nfs_fh3::encoding(v.file) + (
            offset3::encoding(v.offset) + (
            count3::encoding(v.count)))
    }

    open spec fn encodable(v: READ3args_view) -> bool {
        &&& nfs_fh3::encodable(v.file)
        &&& offset3::encodable(v.offset)
        &&& count3::encodable(v.count)
    }

    #[verifier::opaque]
    open spec fn decoding(src: Seq<u8>, pos: int) -> Result<(READ3args_view, int), XdrError> {
        let file = nfs_fh3::decoding(src, pos);
        let offset = offset3::decoding(src, next(file));
        let count = count3::decoding(src, next(offset));
        if file is Err {
            fail(file)
        } else if offset is Err {
            fail(offset)
        } else if count is Err {
            fail(count)
        } else {
            Ok(
                (
                    READ3args_view {
                        file: val(file),
                        offset: val(offset),
                        count: val(count),
                    },
                    next(count),
                ),
            )
        }
    }

    fn serialize(&self, dest: &mut Vec<u8>) {
        self.file.serialize(dest);
        self.offset.serialize(dest);
        self.count.serialize(dest);
        proof {
            reveal(<READ3args as XDR>::encoding);
            let d0 = old(dest)@;
            let d1 = d0 + nfs_fh3::encoding(self.file@);
            let t2 = count3::encoding(self.count@);
            let t1 = offset3::encoding(self.offset@) + t2;
            lemma_concat_assoc(d1, offset3::encoding(self.offset@), t2);
            lemma_concat_assoc(d0, nfs_fh3::encoding(self.file@), t1);
        }
    }

    fn deserialize(&mut self, src: &mut ByteReader) -> (r: Result<(), XdrError>) {
        proof {
            reveal(<READ3args as XDR>::decoding);
        }
        self.file.deserialize(src)?;
        self.offset.deserialize(src)?;
        self.count.deserialize(src)?;
        Ok(())
    }

    proof fn lemma_decoding_inverts_encoding(v: READ3args_view, src: Seq<u8>, pos: int) {
        reveal(<READ3args as XDR>::encoding);
        reveal(<READ3args as XDR>::decoding);
        let t2 = count3::encoding(v.count);
        let t1 = offset3::encoding(v.offset) + t2;
        lemma_field::<nfs_fh3>(v.file, t1, src, pos);
        let p1 = pos + nfs_fh3::encoding(v.file).len();
        lemma_field::<offset3>(v.offset, t2, src, p1);
        let p2 = p1 + offset3::encoding(v.offset).len();
        count3::lemma_decoding_inverts_encoding(v.count, src, p2);
    }

    open spec fn word_aligned() -> bool {
        true
    }

    proof fn lemma_encoding_aligned(v: READ3args_view) {
        reveal(<READ3args as XDR>::encoding);
        nfs_fh3::lemma_encoding_aligned(v.file);
        offset3::lemma_encoding_aligned(v.offset);
        count3::lemma_encoding_aligned(v.count);
        let n2 = count3::encoding(v.count).len() as int;
        let n1 = offset3::encoding(v.offset).len() + n2;
        lemma_aligned_sum(offset3::encoding(v.offset).len() as int, n2);
        let n0 = nfs_fh3::encoding(v.file).len() + n1;
        lemma_aligned_sum(nfs_fh3::encoding(v.file).len() as int, n1);
        assert(Self::encoding(v).len() == n0);
    }
}

/// The results of a successful READ.
#[derive(Clone, Debug, PartialEq, Eq)]
pub struct READ3resok {
    pub file_attributes: post_op_attr,
    /// The number of bytes read.
    pub count: count3,
    /// Whether the read reached the end of the file.
    pub eof: bool,
    pub data: Vec<u8>,
}

/// What a [`READ3resok`] holds.
pub struct READ3resok_view {
    pub file_attributes: post_op_attr,
    pub count: u32,
    pub eof: bool,
    pub data: Seq<u8>,
}

impl View for READ3resok {
    type V = READ3resok_view;

    open spec fn view(&self) -> READ3resok_view {
        READ3resok_view {
            file_attributes: self.file_attributes@,
            count: self.count@,
            eof: self.eof@,
            data: self.data@,
        }
    }
}

impl Default for READ3resok {
    fn default() -> (r: READ3resok)
        ensures
            r.count == 0,
            !r.eof,
            r.data@.len() == 0,
    {
        READ3resok {
            file_attributes: post_op_attr::default(),
            count: 0,
            eof: false,
            data: Vec::new(),
        }
    }
}

impl XDR for READ3resok {
    #[verifier::opaque]
    open spec fn encoding(v: READ3resok_view) -> Seq<u8> {
        post_op_attr::encoding(v.file_attributes) + (
            count3::encoding(v.count) + (
            bool::encoding(v.eof) + (
            <Vec<u8>>::encoding(v.data))))
    }

    open spec fn encodable(v: READ3resok_view) -> bool {
        &&& post_op_attr::encodable(v.file_attributes)
        &&& count3::encodable(v.count)
        &&& bool::encodable(v.eof)
        &&& <Vec<u8>>::encodable(v.data)
    }

    #[verifier::opaque]
    open spec fn decoding(src: Seq<u8>, pos: int) -> Result<(READ3resok_view, int), XdrError> {
        let file_attributes = post_op_attr::decoding(src, pos);
        let count = count3::decoding(src, next(file_attributes));
        let eof = bool::decoding(src, next(count));
        let data = <Vec<u8>>::decoding(src, next(eof));
        if file_attributes is Err {
            fail(file_attributes)
        } else if count is Err {
            fail(count)
        } else if eof is Err {
            fail(eof)
        } else if data is Err {
            fail(data)
        } else {
            Ok(
                (
                    READ3resok_view {
                        file_attributes: val(file_attributes),
                        count: val(count),
                        eof: val(eof),
                        data: val(data),
                    },
                    next(data),
                ),
            )
        }
    }

    fn serialize(&self, dest: &mut Vec<u8>) {
        self.file_attributes.serialize(dest);
        self.count.serialize(dest);
        self.eof.serialize(dest);
        self.data.serialize(dest);
        proof {
            reveal(<READ3resok as XDR>::encoding);
            let d0 = old(dest)@;
            let d1 = d0 + post_op_attr::encoding(self.file_attributes@);
            let d2 = d1 + count3::encoding(self.count@);
            let t3 = <Vec<u8>>::encoding(self.data@);
            let t2 = bool::encoding(self.eof@) + t3;
            let t1 = count3::encoding(self.count@) + t2;
            lemma_concat_assoc(d2, bool::encoding(self.eof@), t3);
            lemma_concat_assoc(d1, count3::encoding(self.count@), t2);
            lemma_concat_assoc(d0, post_op_attr::encoding(self.file_attributes@), t1);
        }
    }

    fn deserialize(&mut self, src: &mut ByteReader) -> (r: Result<(), XdrError>) {
        proof {
            reveal(<READ3resok as XDR>::decoding);
        }
        self.file_attributes.deserialize(src)?;
        self.count.deserialize(src)?;
        self.eof.deserialize(src)?;
        self.data.deserialize(src)?;
        Ok(())
    }

    proof fn lemma_decoding_inverts_encoding(v: READ3resok_view, src: Seq<u8>, pos: int) {
        reveal(<READ3resok as XDR>::encoding);
        reveal(<READ3resok as XDR>::decoding);
        let t3 = <Vec<u8>>::encoding(v.data);
        let t2 = bool::encoding(v.eof) + t3;
        let t1 = count3::encoding(v.count) + t2;
        lemma_field::<post_op_attr>(v.file_attributes, t1, src, pos);
        let p1 = pos + post_op_attr::encoding(v.file_attributes).len();
        lemma_field::<count3>(v.count, t2, src, p1);
        let p2 = p1 + count3::encoding(v.count).len();
        lemma_field::<bool>(v.eof, t3, src, p2);
        let p3 = p2 + bool::encoding(v.eof).len();
        <Vec<u8>>::lemma_decoding_inverts_encoding(v.data, src, p3);
    }

    open spec fn word_aligned() -> bool {
        true
    }

    proof fn lemma_encoding_aligned(v: READ3resok_view) {
        reveal(<READ3resok as XDR>::encoding);
        post_op_attr::lemma_encoding_aligned(v.file_attributes);
        count3::lemma_encoding_aligned(v.count);
        bool::lemma_encoding_aligned(v.eof);
        <Vec<u8>>::lemma_encoding_aligned(v.data);
        let n3 = <Vec<u8>>::encoding(v.data).len() as int;
        let n2 = bool::encoding(v.eof).len() + n3;
        lemma_aligned_sum(bool::encoding(v.eof).len() as int, n3);
        let n1 = count3::encoding(v.count).len() + n2;
        lemma_aligned_sum(count3::encoding(v.count).len() as int, n2);
        let n0 = post_op_attr::encoding(v.file_attributes).len() + n1;
        lemma_aligned_sum(post_op_attr::encoding(v.file_attributes).len() as int, n1);
        assert(Self::encoding(v).len() == n0);
    }
}

/// The arguments of ACCESS.
#[derive(Clone, Debug, PartialEq, Eq)]
pub struct ACCESS3args {
    pub object: nfs_fh3,
    /// The access rights to check: a bit mask of the ACCESS3 constants.
    pub access: u32,
}

/// What a [`ACCESS3args`] holds.
pub struct ACCESS3args_view {
    pub object: Seq<u8>,
    pub access: u32,
}

impl View for ACCESS3args {
    type V = ACCESS3args_view;

    open spec fn view(&self) -> ACCESS3args_view {
        ACCESS3args_view {
            object: self.object@,
            access: self.access@,
        }
    }
}

impl Default for ACCESS3args {
    fn default() -> (r: ACCESS3args)
        ensures
            r.access == 0,
    {
        ACCESS3args {
            object: nfs_fh3::default(),
            access: 0,
        }
    }
}

impl XDR for ACCESS3args {
    #[verifier::opaque]
    open spec fn encoding(v: ACCESS3args_view) -> Seq<u8> {
        nfs_fh3::encoding(v.object) + (u32::encoding(v.access))
    }

    open spec fn encodable(v: ACCESS3args_view) -> bool {
        &&& nfs_fh3::encodable(v.object)
        &&& u32::encodable(v.access)
    }

    #[verifier::opaque]
    open spec fn decoding(src: Seq<u8>, pos: int) -> Result<(ACCESS3args_view, int), XdrError> {
        let object = nfs_fh3::decoding(src, pos);
        let access = u32::decoding(src, next(object));
        if object is Err {
            fail(object)
        } else if access is Err {
            fail(access)
        } else {
            Ok((ACCESS3args_view { object: val(object), access: val(access) }, next(access)))
        }
    }

    fn serialize(&self, dest: &mut Vec<u8>) {
        self.object.serialize(dest);
        self.access.serialize(dest);
        proof {
            reveal(<ACCESS3args as XDR>::encoding);
            let d0 = old(dest)@;
            let t1 = u32::encoding(self.access@);
            lemma_concat_assoc(d0, nfs_fh3::encoding(self.object@), t1);
        }
    }

    fn deserialize(&mut self, src: &mut ByteReader) -> (r: Result<(), XdrError>) {
        proof {
            reveal(<ACCESS3args as XDR>::decoding);
        }
        self.object.deserialize(src)?;
        self.access.deserialize(src)?;
        Ok(())
    }

    proof fn lemma_decoding_inverts_encoding(v: ACCESS3args_view, src: Seq<u8>, pos: int) {
        reveal(<ACCESS3args as XDR>::encoding);
        reveal(<ACCESS3args as XDR>::decoding);
        let t1 = u32::encoding(v.access);
        lemma_field::<nfs_fh3>(v.object, t1, src, pos);
        let p1 = pos + nfs_fh3::encoding(v.object).len();
        u32::lemma_decoding_inverts_encoding(v.access, src, p1);
    }

    open spec fn word_aligned() -> bool {
        true
    }

    proof fn lemma_encoding_aligned(v: ACCESS3args_view) {
        reveal(<ACCESS3args as XDR>::encoding);
        nfs_fh3::lemma_encoding_aligned(v.object);
        u32::lemma_encoding_aligned(v.access);
        let n1 = u32::encoding(v.access).len() as int;
        let n0 = nfs_fh3::encoding(v.object).len() + n1;
        lemma_aligned_sum(nfs_fh3::encoding(v.object).len() as int, n1);
        assert(Self::encoding(v).len() == n0);
    }
}

/// The results of a successful PATHCONF.
#[derive(Copy, Clone, Debug, PartialEq, Eq, Structural)]
pub struct PATHCONF3resok {
    pub obj_attributes: post_op_attr,
    /// Most hard links to a file.
    pub linkmax: u32,
    /// Longest file name.
    pub name_max: u32,
    /// Whether a name that is too long is refused rather than cut.
    pub no_trunc: bool,
    /// Whether only a privileged user may change the owner of a file.
    pub chown_restricted: bool,
    pub case_insensitive: bool,
    pub case_preserving: bool,
}

impl View for PATHCONF3resok {
    type V = PATHCONF3resok;

    open spec fn view(&self) -> PATHCONF3resok {
        *self
    }
}

impl Default for PATHCONF3resok {
    fn default() -> (r: PATHCONF3resok)
        ensures
            r.linkmax == 0,
            r.name_max == 0,
            !r.no_trunc,
            !r.chown_restricted,
            !r.case_insensitive,
            !r.case_preserving,
    {
        PATHCONF3resok {
            obj_attributes: post_op_attr::default(),
            linkmax: 0,
            name_max: 0,
            no_trunc: false,
            chown_restricted: false,
            case_insensitive: false,
            case_preserving: false,
        }
    }
}

impl XDR for PATHCONF3resok {
    #[verifier::opaque]
    open spec fn encoding(v: PATHCONF3resok) -> Seq<u8> {
        post_op_attr::encoding(v.obj_attributes) + (
            u32::encoding(v.linkmax) + (
            u32::encoding(v.name_max) + (
            bool::encoding(v.no_trunc) + (
            bool::encoding(v.chown_restricted) + (
            bool::encoding(v.case_insensitive) + (
            bool::encoding(v.case_preserving)))))))
    }

    open spec fn encodable(v: PATHCONF3resok) -> bool {
        &&& post_op_attr::encodable(v.obj_attributes)
        &&& u32::encodable(v.linkmax)
        &&& u32::encodable(v.name_max)
        &&& bool::encodable(v.no_trunc)
        &&& bool::encodable(v.chown_restricted)
        &&& bool::encodable(v.case_insensitive)
        &&& bool::encodable(v.case_preserving)
    }

    #[verifier::opaque]
    open spec fn decoding(src: Seq<u8>, pos: int) -> Result<(PATHCONF3resok, int), XdrError> {
        let obj_attributes = post_op_attr::decoding(src, pos);
        let linkmax = u32::decoding(src, next(obj_attributes));
        let name_max = u32::decoding(src, next(linkmax));
        let no_trunc = bool::decoding(src, next(name_max));
        let chown_restricted = bool::decoding(src, next(no_trunc));
        let case_insensitive = bool::decoding(src, next(chown_restricted));
        let case_preserving = bool::decoding(src, next(case_insensitive));
        if obj_attributes is Err {
            fail(obj_attributes)
        } else if linkmax is Err {
            fail(linkmax)
        } else if name_max is Err {
            fail(name_max)
        } else if no_trunc is Err {
            fail(no_trunc)
        } else if chown_restricted is Err {
            fail(chown_restricted)
        } else if case_insensitive is Err {
            fail(case_insensitive)
        } else if case_preserving is Err {
            fail(case_preserving)
        } else {
            Ok(
                (
                    PATHCONF3resok {
                        obj_attributes: val(obj_attributes),
                        linkmax: val(linkmax),
                        name_max: val(name_max),
                        no_trunc: val(no_trunc),
                        chown_restricted: val(chown_restricted),
                        case_insensitive: val(case_insensitive),
                        case_preserving: val(case_preserving),
                    },
                    next(case_preserving),
                ),
            )
        }
    }

    fn serialize(&self, dest: &mut Vec<u8>) {
        self.obj_attributes.serialize(dest);
        self.linkmax.serialize(dest);
        self.name_max.serialize(dest);
        self.no_trunc.serialize(dest);
        self.chown_restricted.serialize(dest);
        self.case_insensitive.serialize(dest);
        self.case_preserving.serialize(dest);
        proof {
            reveal(<PATHCONF3resok as XDR>::encoding);
            let d0 = old(dest)@;
            let d1 = d0 + post_op_attr::encoding(self.obj_attributes@);
            let d2 = d1 + u32::encoding(self.linkmax@);
            let d3 = d2 + u32::encoding(self.name_max@);
            let d4 = d3 + bool::encoding(self.no_trunc@);
            let d5 = d4 + bool::encoding(self.chown_restricted@);
            let t6 = bool::encoding(self.case_preserving@);
            let t5 = bool::encoding(self.case_insensitive@) + t6;
            let t4 = bool::encoding(self.chown_restricted@) + t5;
            let t3 = bool::encoding(self.no_trunc@) + t4;
            let t2 = u32::encoding(self.name_max@) + t3;
            let t1 = u32::encoding(self.linkmax@) + t2;
            lemma_concat_assoc(d5, bool::encoding(self.case_insensitive@), t6);
            lemma_concat_assoc(d4, bool::encoding(self.chown_restricted@), t5);
            lemma_concat_assoc(d3, bool::encoding(self.no_trunc@), t4);
            lemma_concat_assoc(d2, u32::encoding(self.name_max@), t3);
            lemma_concat_assoc(d1, u32::encoding(self.linkmax@), t2);
            lemma_concat_assoc(d0, post_op_attr::encoding(self.obj_attributes@), t1);
        }
    }

    fn deserialize(&mut self, src: &mut ByteReader) -> (r: Result<(), XdrError>) {
        proof {
            reveal(<PATHCONF3resok as XDR>::decoding);
        }
        self.obj_attributes.deserialize(src)?;
        self.linkmax.deserialize(src)?;
        self.name_max.deserialize(src)?;
        self.no_trunc.deserialize(src)?;
        self.chown_restricted.deserialize(src)?;
        self.case_insensitive.deserialize(src)?;
        self.case_preserving.deserialize(src)?;
        Ok(())
    }

    proof fn lemma_decoding_inverts_encoding(v: PATHCONF3resok, src: Seq<u8>, pos: int) {
        reveal(<PATHCONF3resok as XDR>::encoding);
        reveal(<PATHCONF3resok as XDR>::decoding);
        let t6 = bool::encoding(v.case_preserving);
        let t5 = bool::encoding(v.case_insensitive) + t6;
        let t4 = bool::encoding(v.chown_restricted) + t5;
        let t3 = bool::encoding(v.no_trunc) + t4;
        let t2 = u32::encoding(v.name_max) + t3;
        let t1 = u32::encoding(v.linkmax) + t2;
        lemma_field::<post_op_attr>(v.obj_attributes, t1, src, pos);
        let p1 = pos + post_op_attr::encoding(v.obj_attributes).len();
        lemma_field::<u32>(v.linkmax, t2, src, p1);
        let p2 = p1 + u32::encoding(v.linkmax).len();
        lemma_field::<u32>(v.name_max, t3, src, p2);
        let p3 = p2 + u32::encoding(v.name_max).len();
        lemma_field::<bool>(v.no_trunc, t4, src, p3);
        let p4 = p3 + bool::encoding(v.no_trunc).len();
        lemma_field::<bool>(v.chown_restricted, t5, src, p4);
        let p5 = p4 + bool::encoding(v.chown_restricted).len();
        lemma_field::<bool>(v.case_insensitive, t6, src, p5);
        let p6 = p5 + bool::encoding(v.case_insensitive).len();
        bool::lemma_decoding_inverts_encoding(v.case_preserving, src, p6);
    }

    open spec fn word_aligned() -> bool {
        true
    }

    proof fn lemma_encoding_aligned(v: PATHCONF3resok) {
        reveal(<PATHCONF3resok as XDR>::encoding);
        post_op_attr::lemma_encoding_aligned(v.obj_attributes);
        u32::lemma_encoding_aligned(v.linkmax);
        u32::lemma_encoding_aligned(v.name_max);
        bool::lemma_encoding_aligned(v.no_trunc);
        bool::lemma_encoding_aligned(v.chown_restricted);
        bool::lemma_encoding_aligned(v.case_insensitive);
        bool::lemma_encoding_aligned(v.case_preserving);
        let n6 = bool::encoding(v.case_preserving).len() as int;
        let n5 = bool::encoding(v.case_insensitive).len() + n6;
        lemma_aligned_sum(bool::encoding(v.case_insensitive).len() as int, n6);
        let n4 = bool::encoding(v.chown_restricted).len() + n5;
        lemma_aligned_sum(bool::encoding(v.chown_restricted).len() as int, n5);
        let n3 = bool::encoding(v.no_trunc).len() + n4;
        lemma_aligned_sum(bool::encoding(v.no_trunc).len() as int, n4);
        let n2 = u32::encoding(v.name_max).len() + n3;
        lemma_aligned_sum(u32::encoding(v.name_max).len() as int, n3);
        let n1 = u32::encoding(v.linkmax).len() + n2;
        lemma_aligned_sum(u32::encoding(v.linkmax).len() as int, n2);
        let n0 = post_op_attr::encoding(v.obj_attributes).len() + n1;
        lemma_aligned_sum(post_op_attr::encoding(v.obj_attributes).len() as int, n1);
        assert(Self::encoding(v).len() == n0);
    }
}

/// The results of a successful FSSTAT.
#[derive(Copy, Clone, Debug, PartialEq, Eq, Structural)]
pub struct FSSTAT3resok {
    pub obj_attributes: post_op_attr,
    /// Size of the file system in bytes.
    pub tbytes: size3,
    /// Free bytes.
    pub fbytes: size3,
    /// Free bytes available to the caller.
    pub abytes: size3,
    /// Number of file slots.
    pub tfiles: size3,
    /// Free file slots.
    pub ffiles: size3,
    /// Free file slots available to the caller.
    pub afiles: size3,
    /// Seconds for which the file system is not expected to change.
    pub invarsec: u32,
}

impl View for FSSTAT3resok {
    type V = FSSTAT3resok;

    open spec fn view(&self) -> FSSTAT3resok {
        *self
    }
}

impl Default for FSSTAT3resok {
    fn default() -> (r: FSSTAT3resok)
        ensures
            r.tbytes == 0,
            r.fbytes == 0,
            r.abytes == 0,
            r.tfiles == 0,
            r.ffiles == 0,
            r.afiles == 0,
            r.invarsec == 0,
    {
        FSSTAT3resok {
            obj_attributes: post_op_attr::default(),
            tbytes: 0,
            fbytes: 0,
            abytes: 0,
            tfiles: 0,
            ffiles: 0,
            afiles: 0,
            invarsec: 0,
        }
    }
}

impl XDR for FSSTAT3resok {
    #[verifier::opaque]
    open spec fn encoding(v: FSSTAT3resok) -> Seq<u8> {
        post_op_attr::encoding(v.obj_attributes) + (
            size3::encoding(v.tbytes) + (
            size3::encoding(v.fbytes) + (
            size3::encoding(v.abytes) + (
            size3::encoding(v.tfiles) + (
            size3::encoding(v.ffiles) + (
            size3::encoding(v.afiles) + (
            u32::encoding(v.invarsec))))))))
    }

    open spec fn encodable(v: FSSTAT3resok) -> bool {
        &&& post_op_attr::encodable(v.obj_attributes)
        &&& size3::encodable(v.tbytes)
        &&& size3::encodable(v.fbytes)
        &&& size3::encodable(v.abytes)
        &&& size3::encodable(v.tfiles)
        &&& size3::encodable(v.ffiles)
        &&& size3::encodable(v.afiles)
        &&& u32::encodable(v.invarsec)
    }

    #[verifier::opaque]
    open spec fn decoding(src: Seq<u8>, pos: int) -> Result<(FSSTAT3resok, int), XdrError> {
        let obj_attributes = post_op_attr::decoding(src, pos);
        let tbytes = size3::decoding(src, next(obj_attributes));
        let fbytes = size3::decoding(src, next(tbytes));
        let abytes = size3::decoding(src, next(fbytes));
        let tfiles = size3::decoding(src, next(abytes));
        let ffiles = size3::decoding(src, next(tfiles));
        let afiles = size3::decoding(src, next(ffiles));
        let invarsec = u32::decoding(src, next(afiles));
        if obj_attributes is Err {
            fail(obj_attributes)
        } else if tbytes is Err {
            fail(tbytes)
        } else if fbytes is Err {
            fail(fbytes)
        } else if abytes is Err {
            fail(abytes)
        } else if tfiles is Err {
            fail(tfiles)
        } else if ffiles is Err {
            fail(ffiles)
        } else if afiles is Err {
            fail(afiles)
        } else if invarsec is Err {
            fail(invarsec)
        } else {
            Ok(
                (
                    FSSTAT3resok {
                        obj_attributes: val(obj_attributes),
                        tbytes: val(tbytes),
                        fbytes: val(fbytes),
                        abytes: val(abytes),
                        tfiles: val(tfiles),
                        ffiles: val(ffiles),
                        afiles: val(afiles),
                        invarsec: val(invarsec),
                    },
                    next(invarsec),
                ),
            )
        }
    }

    fn serialize(&self, dest: &mut Vec<u8>) {
        self.obj_attributes.serialize(dest);
        self.tbytes.serialize(dest);
        self.fbytes.serialize(dest);
        self.abytes.serialize(dest);
        self.tfiles.serialize(dest);
        self.ffiles.serialize(dest);
        self.afiles.serialize(dest);
        self.invarsec.serialize(dest);
        proof {
            reveal(<FSSTAT3resok as XDR>::encoding);
            let d0 = old(dest)@;
            let d1 = d0 + post_op_attr::encoding(self.obj_attributes@);
            let d2 = d1 + size3::encoding(self.tbytes@);
            let d3 = d2 + size3::encoding(self.fbytes@);
            let d4 = d3 + size3::encoding(self.abytes@);
            let d5 = d4 + size3::encoding(self.tfiles@);
            let d6 = d5 + size3::encoding(self.ffiles@);
            let t7 = u32::encoding(self.invarsec@);
            let t6 = size3::encoding(self.afiles@) + t7;
            let t5 = size3::encoding(self.ffiles@) + t6;
            let t4 = size3::encoding(self.tfiles@) + t5;
            let t3 = size3::encoding(self.abytes@) + t4;
            let t2 = size3::encoding(self.fbytes@) + t3;
            let t1 = size3::encoding(self.tbytes@) + t2;
            lemma_concat_assoc(d6, size3::encoding(self.afiles@), t7);
            lemma_concat_assoc(d5, size3::encoding(self.ffiles@), t6);
            lemma_concat_assoc(d4, size3::encoding(self.tfiles@), t5);
            lemma_concat_assoc(d3, size3::encoding(self.abytes@), t4);
            lemma_concat_assoc(d2, size3::encoding(self.fbytes@), t3);
            lemma_concat_assoc(d1, size3::encoding(self.tbytes@), t2);
            lemma_concat_assoc(d0, post_op_attr::encoding(self.obj_attributes@), t1);
        }
    }

    fn deserialize(&mut self, src: &mut ByteReader) -> (r: Result<(), XdrError>) {
        proof {
            reveal(<FSSTAT3resok as XDR>::decoding);
        }
        self.obj_attributes.deserialize(src)?;
        self.tbytes.deserialize(src)?;
        self.fbytes.deserialize(src)?;
        self.abytes.deserialize(src)?;
        self.tfiles.deserialize(src)?;
        self.ffiles.deserialize(src)?;
        self.afiles.deserialize(src)?;
        self.invarsec.deserialize(src)?;
        Ok(())
    }

    proof fn lemma_decoding_inverts_encoding(v: FSSTAT3resok, src: Seq<u8>, pos: int) {
        reveal(<FSSTAT3resok as XDR>::encoding);
        reveal(<FSSTAT3resok as XDR>::decoding);
        let t7 = u32::encoding(v.invarsec);
        let t6 = size3::encoding(v.afiles) + t7;
        let t5 = size3::encoding(v.ffiles) + t6;
        let t4 = size3::encoding(v.tfiles) + t5;
        let t3 = size3::encoding(v.abytes) + t4;
        let t2 = size3::encoding(v.fbytes) + t3;
        let t1 = size3::encoding(v.tbytes) + t2;
        lemma_field::<post_op_attr>(v.obj_attributes, t1, src, pos);
        let p1 = pos + post_op_attr::encoding(v.obj_attributes).len();
        lemma_field::<size3>(v.tbytes, t2, src, p1);
        let p2 = p1 + size3::encoding(v.tbytes).len();
        lemma_field::<size3>(v.fbytes, t3, src, p2);
        let p3 = p2 + size3::encoding(v.fbytes).len();
        lemma_field::<size3>(v.abytes, t4, src, p3);
        let p4 = p3 + size3::encoding(v.abytes).len();
        lemma_field::<size3>(v.tfiles, t5, src, p4);
        let p5 = p4 + size3::encoding(v.tfiles).len();
        lemma_field::<size3>(v.ffiles, t6, src, p5);
        let p6 = p5 + size3::encoding(v.ffiles).len();
        lemma_field::<size3>(v.afiles, t7, src, p6);
        let p7 = p6 + size3::encoding(v.afiles).len();
        u32::lemma_decoding_inverts_encoding(v.invarsec, src, p7);
    }

    open spec fn word_aligned() -> bool {
        true
    }

    proof fn lemma_encoding_aligned(v: FSSTAT3resok) {
        reveal(<FSSTAT3resok as XDR>::encoding);
        post_op_attr::lemma_encoding_aligned(v.obj_attributes);
        size3::lemma_encoding_aligned(v.tbytes);
        size3::lemma_encoding_aligned(v.fbytes);
        size3::lemma_encoding_aligned(v.abytes);
        size3::lemma_encoding_aligned(v.tfiles);
        size3::lemma_encoding_aligned(v.ffiles);
        size3::lemma_encoding_aligned(v.afiles);
        u32::lemma_encoding_aligned(v.invarsec);
        let n7 = u32::encoding(v.invarsec).len() as int;
        let n6 = size3::encoding(v.afiles).len() + n7;
        lemma_aligned_sum(size3::encoding(v.afiles).len() as int, n7);
        let n5 = size3::encoding(v.ffiles).len() + n6;
        lemma_aligned_sum(size3::encoding(v.ffiles).len() as int, n6);
        let n4 = size3::encoding(v.tfiles).len() + n5;
        lemma_aligned_sum(size3::encoding(v.tfiles).len() as int, n5);
        let n3 = size3::encoding(v.abytes).len() + n4;
        lemma_aligned_sum(size3::encoding(v.abytes).len() as int, n4);
        let n2 = size3::encoding(v.fbytes).len() + n3;
        lemma_aligned_sum(size3::encoding(v.fbytes).len() as int, n3);
        let n1 = size3::encoding(v.tbytes).len() + n2;
        lemma_aligned_sum(size3::encoding(v.tbytes).len() as int, n2);
        let n0 = post_op_attr::encoding(v.obj_attributes).len() + n1;
        lemma_aligned_sum(post_op_attr::encoding(v.obj_attributes).len() as int, n1);
        assert(Self::encoding(v).len() == n0);
    }
}

/// The arguments of READDIRPLUS.
#[derive(Clone, Debug, PartialEq, Eq)]
pub struct READDIRPLUS3args {
    pub dir: nfs_fh3,
    /// The entry behind which to resume; zero to start.
    pub cookie: cookie3,
    pub cookieverf: cookieverf3,
    /// Most bytes of identifiers, names and cookies.
    pub dircount: count3,
    /// Most bytes of the whole reply.
    pub maxcount: count3,
}

/// What a [`READDIRPLUS3args`] holds.
pub struct READDIRPLUS3args_view {
    pub dir: Seq<u8>,
    pub cookie: u64,
    pub cookieverf: Seq<u8>,
    pub dircount: u32,
    pub maxcount: u32,
}

impl View for READDIRPLUS3args {
    type V = READDIRPLUS3args_view;

    open spec fn view(&self) -> READDIRPLUS3args_view {
        READDIRPLUS3args_view {
            dir: self.dir@,
            cookie: self.cookie@,
            cookieverf: self.cookieverf@,
            dircount: self.dircount@,
            maxcount: self.maxcount@,
        }
    }
}

impl Default for READDIRPLUS3args {
    fn default() -> (r: READDIRPLUS3args)
        ensures
            r.cookie == 0,
            r.cookieverf@.len() == 8,
            r.dircount == 0,
            r.maxcount == 0,
    {
        READDIRPLUS3args {
            dir: nfs_fh3::default(),
            cookie: 0,
            cookieverf: [0u8; 8],
            dircount: 0,
            maxcount: 0,
        }
    }
}

impl XDR for READDIRPLUS3args {
    #[verifier::opaque]
    open spec fn encoding(v: READDIRPLUS3args_view) -> Seq<u8> {
        nfs_fh3::encoding(v.dir) + (
            cookie3::encoding(v.cookie) + (
            <cookieverf3>::encoding(v.cookieverf) + (
            count3::encoding(v.dircount) + (
            count3::encoding(v.maxcount)))))
    }

    open spec fn encodable(v: READDIRPLUS3args_view) -> bool {
        &&& nfs_fh3::encodable(v.dir)
        &&& cookie3::encodable(v.cookie)
        &&& <cookieverf3>::encodable(v.cookieverf)
        &&& count3::encodable(v.dircount)
        &&& count3::encodable(v.maxcount)
    }

    #[verifier::opaque]
    open spec fn decoding(src: Seq<u8>, pos: int) -> Result<(READDIRPLUS3args_view, int), XdrError> {
        let dir = nfs_fh3::decoding(src, pos);
        let cookie = cookie3::decoding(src, next(dir));
        let cookieverf = <cookieverf3>::decoding(src, next(cookie));
        let dircount = count3::decoding(src, next(cookieverf));
        let maxcount = count3::decoding(src, next(dircount));
        if dir is Err {
            fail(dir)
        } else if cookie is Err {
            fail(cookie)
        } else if cookieverf is Err {
            fail(cookieverf)
        } else if dircount is Err {
            fail(dircount)
        } else if maxcount is Err {
            fail(maxcount)
        } else {
            Ok(
                (
                    READDIRPLUS3args_view {
                        dir: val(dir),
                        cookie: val(cookie),
                        cookieverf: val(cookieverf),
                        dircount: val(dircount),
                        maxcount: val(maxcount),
                    },
                    next(maxcount),
                ),
            )
        }
    }

    fn serialize(&self, dest: &mut Vec<u8>) {
        self.dir.serialize(dest);
        self.cookie.serialize(dest);
        self.cookieverf.serialize(dest);
        self.dircount.serialize(dest);
        self.maxcount.serialize(dest);
        proof {
            reveal(<READDIRPLUS3args as XDR>::encoding);
            let d0 = old(dest)@;
            let d1 = d0 + nfs_fh3::encoding(self.dir@);
            let d2 = d1 + cookie3::encoding(self.cookie@);
            let d3 = d2 + <cookieverf3>::encoding(self.cookieverf@);
            let t4 = count3::encoding(self.maxcount@);
            let t3 = count3::encoding(self.dircount@) + t4;
            let t2 = <cookieverf3>::encoding(self.cookieverf@) + t3;
            let t1 = cookie3::encoding(self.cookie@) + t2;
            lemma_concat_assoc(d3, count3::encoding(self.dircount@), t4);
            lemma_concat_assoc(d2, <cookieverf3>::encoding(self.cookieverf@), t3);
            lemma_concat_assoc(d1, cookie3::encoding(self.cookie@), t2);
            lemma_concat_assoc(d0, nfs_fh3::encoding(self.dir@), t1);
        }
    }

    fn deserialize(&mut self, src: &mut ByteReader) -> (r: Result<(), XdrError>) {
        proof {
            reveal(<READDIRPLUS3args as XDR>::decoding);
        }
        self.dir.deserialize(src)?;
        self.cookie.deserialize(src)?;
        self.cookieverf.deserialize(src)?;
        self.dircount.deserialize(src)?;
        self.maxcount.deserialize(src)?;
        Ok(())
    }

    proof fn lemma_decoding_inverts_encoding(v: READDIRPLUS3args_view, src: Seq<u8>, pos: int) {
        reveal(<READDIRPLUS3args as XDR>::encoding);
        reveal(<READDIRPLUS3args as XDR>::decoding);
        let t4 = count3::encoding(v.maxcount);
        let t3 = count3::encoding(v.dircount) + t4;
        let t2 = <cookieverf3>::encoding(v.cookieverf) + t3;
        let t1 = cookie3::encoding(v.cookie) + t2;
        lemma_field::<nfs_fh3>(v.dir, t1, src, pos);
        let p1 = pos + nfs_fh3::encoding(v.dir).len();
        lemma_field::<cookie3>(v.cookie, t2, src, p1);
        let p2 = p1 + cookie3::encoding(v.cookie).len();
        lemma_field::<[u8; 8]>(v.cookieverf, t3, src, p2);
        let p3 = p2 + <cookieverf3>::encoding(v.cookieverf).len();
        lemma_field::<count3>(v.dircount, t4, src, p3);
        let p4 = p3 + count3::encoding(v.dircount).len();
        count3::lemma_decoding_inverts_encoding(v.maxcount, src, p4);
    }

    open spec fn word_aligned() -> bool {
        true
    }

    proof fn lemma_encoding_aligned(v: READDIRPLUS3args_view) {
        reveal(<READDIRPLUS3args as XDR>::encoding);
        nfs_fh3::lemma_encoding_aligned(v.dir);
        cookie3::lemma_encoding_aligned(v.cookie);
        <cookieverf3>::lemma_encoding_aligned(v.cookieverf);
        count3::lemma_encoding_aligned(v.dircount);
        count3::lemma_encoding_aligned(v.maxcount);
        let n4 = count3::encoding(v.maxcount).len() as int;
        let n3 = count3::encoding(v.dircount).len() + n4;
        lemma_aligned_sum(count3::encoding(v.dircount).len() as int, n4);
        let n2 = <cookieverf3>::encoding(v.cookieverf).len() + n3;
        lemma_aligned_sum(<cookieverf3>::encoding(v.cookieverf).len() as int, n3);
        let n1 = cookie3::encoding(v.cookie).len() + n2;
        lemma_aligned_sum(cookie3::encoding(v.cookie).len() as int, n2);
        let n0 = nfs_fh3::encoding(v.dir).len() + n1;
        lemma_aligned_sum(nfs_fh3::encoding(v.dir).len() as int, n1);
        assert(Self::encoding(v).len() == n0);
    }
}

/// An entry of a READDIR reply.
#[derive(Clone, Debug, PartialEq, Eq)]
pub struct entry3 {
    pub fileid: fileid3,
    pub name: filename3,
    pub cookie: cookie3,
}

/// What a [`entry3`] holds.
pub struct entry3_view {
    pub fileid: u64,
    pub name: Seq<u8>,
    pub cookie: u64,
}

impl View for entry3 {
    type V = entry3_view;

    open spec fn view(&self) -> entry3_view {
        entry3_view {
            fileid: self.fileid@,
            name: self.name@,
            cookie: self.cookie@,
        }
    }
}

impl Default for entry3 {
    fn default() -> (r: entry3)
        ensures
            r.fileid == 0,
            r.cookie == 0,
    {
        entry3 {
            fileid: 0,
            name: filename3::default(),
            cookie: 0,
        }
    }
}

impl XDR for entry3 {
    #[verifier::opaque]
    open spec fn encoding(v: entry3_view) -> Seq<u8> {
        fileid3::encoding(v.fileid) + (
            filename3::encoding(v.name) + (
            cookie3::encoding(v.cookie)))
    }

    open spec fn encodable(v: entry3_view) -> bool {
        &&& fileid3::encodable(v.fileid)
        &&& filename3::encodable(v.name)
        &&& cookie3::encodable(v.cookie)
    }

    #[verifier::opaque]
    open spec fn decoding(src: Seq<u8>, pos: int) -> Result<(entry3_view, int), XdrError> {
        let fileid = fileid3::decoding(src, pos);
        let name = filename3::decoding(src, next(fileid));
        let cookie = cookie3::decoding(src, next(name));
        if fileid is Err {
            fail(fileid)
        } else if name is Err {
            fail(name)
        } else if cookie is Err {
            fail(cookie)
        } else {
            Ok(
                (
                    entry3_view {
                        fileid: val(fileid),
                        name: val(name),
                        cookie: val(cookie),
                    },
                    next(cookie),
                ),
            )
        }
    }

    fn serialize(&self, dest: &mut Vec<u8>) {
        self.fileid.serialize(dest);
        self.name.serialize(dest);
        self.cookie.serialize(dest);
        proof {
            reveal(<entry3 as XDR>::encoding);
            let d0 = old(dest)@;
            let d1 = d0 + fileid3::encoding(self.fileid@);
            let t2 = cookie3::encoding(self.cookie@);
            let t1 = filename3::encoding(self.name@) + t2;
            lemma_concat_assoc(d1, filename3::encoding(self.name@), t2);
            lemma_concat_assoc(d0, fileid3::encoding(self.fileid@), t1);
        }
    }

    fn deserialize(&mut self, src: &mut ByteReader) -> (r: Result<(), XdrError>) {
        proof {
            reveal(<entry3 as XDR>::decoding);
        }
        self.fileid.deserialize(src)?;
        self.name.deserialize(src)?;
        self.cookie.deserialize(src)?;
        Ok(())
    }

    proof fn lemma_decoding_inverts_encoding(v: entry3_view, src: Seq<u8>, pos: int) {
        reveal(<entry3 as XDR>::encoding);
        reveal(<entry3 as XDR>::decoding);
        let t2 = cookie3::encoding(v.cookie);
        let t1 = filename3::encoding(v.name) + t2;
        lemma_field::<fileid3>(v.fileid, t1, src, pos);
        let p1 = pos + fileid3::encoding(v.fileid).len();
        lemma_field::<filename3>(v.name, t2, src, p1);
        let p2 = p1 + filename3::encoding(v.name).len();
        cookie3::lemma_decoding_inverts_encoding(v.cookie, src, p2);
    }

    open spec fn word_aligned() -> bool {
        true
    }

    proof fn lemma_encoding_aligned(v: entry3_view) {
        reveal(<entry3 as XDR>::encoding);
        fileid3::lemma_encoding_aligned(v.fileid);
        filename3::lemma_encoding_aligned(v.name);
        cookie3::lemma_encoding_aligned(v.cookie);
        let n2 = cookie3::encoding(v.cookie).len() as int;
        let n1 = filename3::encoding(v.name).len() + n2;
        lemma_aligned_sum(filename3::encoding(v.name).len() as int, n2);
        let n0 = fileid3::encoding(v.fileid).len() + n1;
        lemma_aligned_sum(fileid3::encoding(v.fileid).len() as int, n1);
        assert(Self::encoding(v).len() == n0);
    }
}

/// The arguments of READDIR.
#[derive(Clone, Debug, PartialEq, Eq)]
pub struct READDIR3args {
    pub dir: nfs_fh3,
    /// The entry behind which to resume; zero to start.
    pub cookie: cookie3,
    pub cookieverf: cookieverf3,
    /// Most bytes of the reply.
    pub dircount: count3,
}

/// What a [`READDIR3args`] holds.
pub struct READDIR3args_view {
    pub dir: Seq<u8>,
    pub cookie: u64,
    pub cookieverf: Seq<u8>,
    pub dircount: u32,
}

impl View for READDIR3args {
    type V = READDIR3args_view;

    open spec fn view(&self) -> READDIR3args_view {
        READDIR3args_view {
            dir: self.dir@,
            cookie: self.cookie@,
            cookieverf: self.cookieverf@,
            dircount: self.dircount@,
        }
    }
}

impl Default for READDIR3args {
    fn default() -> (r: READDIR3args)
        ensures
            r.cookie == 0,
            r.cookieverf@.len() == 8,
            r.dircount == 0,
    {
        READDIR3args {
            dir: nfs_fh3::default(),
            cookie: 0,
            cookieverf: [0u8; 8],
            dircount: 0,
        }
    }
}

impl XDR for READDIR3args {
    #[verifier::opaque]
    open spec fn encoding(v: READDIR3args_view) -> Seq<u8> {
        nfs_fh3::encoding(v.dir) + (
            cookie3::encoding(v.cookie) + (
            <cookieverf3>::encoding(v.cookieverf) + (
            count3::encoding(v.dircount))))
    }

    open spec fn encodable(v: READDIR3args_view) -> bool {
        &&& nfs_fh3::encodable(v.dir)
        &&& cookie3::encodable(v.cookie)
        &&& <cookieverf3>::encodable(v.cookieverf)
        &&& count3::encodable(v.dircount)
    }

    #[verifier::opaque]
    open spec fn decoding(src: Seq<u8>, pos: int) -> Result<(READDIR3args_view, int), XdrError> {
        let dir = nfs_fh3::decoding(src, pos);
        let cookie = cookie3::decoding(src, next(dir));
        let cookieverf = <cookieverf3>::decoding(src, next(cookie));
        let dircount = count3::decoding(src, next(cookieverf));
        if dir is Err {
            fail(dir)
        } else if cookie is Err {
            fail(cookie)
        } else if cookieverf is Err {
            fail(cookieverf)
        } else if dircount is Err {
            fail(dircount)
        } else {
            Ok(
                (
                    READDIR3args_view {
                        dir: val(dir),
                        cookie: val(cookie),
                        cookieverf: val(cookieverf),
                        dircount: val(dircount),
                    },
                    next(dircount),
                ),
            )
        }
    }

    fn serialize(&self, dest: &mut Vec<u8>) {
        self.dir.serialize(dest);
        self.cookie.serialize(dest);
        self.cookieverf.serialize(dest);
        self.dircount.serialize(dest);
        proof {
            reveal(<READDIR3args as XDR>::encoding);
            let d0 = old(dest)@;
            let d1 = d0 + nfs_fh3::encoding(self.dir@);
            let d2 = d1 + cookie3::encoding(self.cookie@);
            let t3 = count3::encoding(self.dircount@);
            let t2 = <cookieverf3>::encoding(self.cookieverf@) + t3;
            let t1 = cookie3::encoding(self.cookie@) + t2;
            lemma_concat_assoc(d2, <cookieverf3>::encoding(self.cookieverf@), t3);
            lemma_concat_assoc(d1, cookie3::encoding(self.cookie@), t2);
            lemma_concat_assoc(d0, nfs_fh3::encoding(self.dir@), t1);
        }
    }

    fn deserialize(&mut self, src: &mut ByteReader) -> (r: Result<(), XdrError>) {
        proof {
            reveal(<READDIR3args as XDR>::decoding);
        }
        self.dir.deserialize(src)?;
        self.cookie.deserialize(src)?;
        self.cookieverf.deserialize(src)?;
        self.dircount.deserialize(src)?;
        Ok(())
    }

    proof fn lemma_decoding_inverts_encoding(v: READDIR3args_view, src: Seq<u8>, pos: int) {
        reveal(<READDIR3args as XDR>::encoding);
        reveal(<READDIR3args as XDR>::decoding);
        let t3 = count3::encoding(v.dircount);
        let t2 = <cookieverf3>::encoding(v.cookieverf) + t3;
        let t1 = cookie3::encoding(v.cookie) + t2;
        lemma_field::<nfs_fh3>(v.dir, t1, src, pos);
        let p1 = pos + nfs_fh3::encoding(v.dir).len();
        lemma_field::<cookie3>(v.cookie, t2, src, p1);
        let p2 = p1 + cookie3::encoding(v.cookie).len();
        lemma_field::<[u8; 8]>(v.cookieverf, t3, src, p2);
        let p3 = p2 + <cookieverf3>::encoding(v.cookieverf).len();
        count3::lemma_decoding_inverts_encoding(v.dircount, src, p3);
    }

    open spec fn word_aligned() -> bool {
        true
    }

    proof fn lemma_encoding_aligned(v: READDIR3args_view) {
        reveal(<READDIR3args as XDR>::encoding);
        nfs_fh3::lemma_encoding_aligned(v.dir);
        cookie3::lemma_encoding_aligned(v.cookie);
        <cookieverf3>::lemma_encoding_aligned(v.cookieverf);
        count3::lemma_encoding_aligned(v.dircount);
        let n3 = count3::encoding(v.dircount).len() as int;
        let n2 = <cookieverf3>::encoding(v.cookieverf).len() + n3;
        lemma_aligned_sum(<cookieverf3>::encoding(v.cookieverf).len() as int, n3);
        let n1 = cookie3::encoding(v.cookie).len() + n2;
        lemma_aligned_sum(cookie3::encoding(v.cookie).len() as int, n2);
        let n0 = nfs_fh3::encoding(v.dir).len() + n1;
        lemma_aligned_sum(nfs_fh3::encoding(v.dir).len() as int, n1);
        assert(Self::encoding(v).len() == n0);
    }
}

/// An entry of a READDIRPLUS reply.
#[derive(Clone, Debug, PartialEq, Eq)]
pub struct entryplus3 {
    pub fileid: fileid3,
    pub name: filename3,
    pub cookie: cookie3,
    pub name_attributes: post_op_attr,
    pub name_handle: post_op_fh3,
}

/// What a [`entryplus3`] holds.
pub struct entryplus3_view {
    pub fileid: u64,
    pub name: Seq<u8>,
    pub cookie: u64,
    pub name_attributes: post_op_attr,
    pub name_handle: post_op_fh3_view,
}

impl View for entryplus3 {
    type V = entryplus3_view;

    open spec fn view(&self) -> entryplus3_view {
        entryplus3_view {
            fileid: self.fileid@,
            name: self.name@,
            cookie: self.cookie@,
            name_attributes: self.name_attributes@,
            name_handle: self.name_handle@,
        }
    }
}

impl Default for entryplus3 {
    fn default() -> (r: entryplus3)
        ensures
            r.fileid == 0,
            r.cookie == 0,
    {
        entryplus3 {
            fileid: 0,
            name: filename3::default(),
            cookie: 0,
            name_attributes: post_op_attr::default(),
            name_handle: post_op_fh3::default(),
        }
    }
}

impl XDR for entryplus3 {
    #[verifier::opaque]
    open spec fn encoding(v: entryplus3_view) -> Seq<u8> {
        fileid3::encoding(v.fileid) + (
            filename3::encoding(v.name) + (
            cookie3::encoding(v.cookie) + (
            post_op_attr::encoding(v.name_attributes) + (
            post_op_fh3::encoding(v.name_handle)))))
    }

    open spec fn encodable(v: entryplus3_view) -> bool {
        &&& fileid3::encodable(v.fileid)
        &&& filename3::encodable(v.name)
        &&& cookie3::encodable(v.cookie)
        &&& post_op_attr::encodable(v.name_attributes)
        &&& post_op_fh3::encodable(v.name_handle)
    }

    #[verifier::opaque]
    open spec fn decoding(src: Seq<u8>, pos: int) -> Result<(entryplus3_view, int), XdrError> {
        let fileid = fileid3::decoding(src, pos);
        let name = filename3::decoding(src, next(fileid));
        let cookie = cookie3::decoding(src, next(name));
        let name_attributes = post_op_attr::decoding(src, next(cookie));
        let name_handle = post_op_fh3::decoding(src, next(name_attributes));
        if fileid is Err {
            fail(fileid)
        } else if name is Err {
            fail(name)
        } else if cookie is Err {
            fail(cookie)
        } else if name_attributes is Err {
            fail(name_attributes)
        } else if name_handle is Err {
            fail(name_handle)
        } else {
            Ok(
                (
                    entryplus3_view {
                        fileid: val(fileid),
                        name: val(name),
                        cookie: val(cookie),
                        name_attributes: val(name_attributes),
                        name_handle: val(name_handle),
                    },
                    next(name_handle),
                ),
            )
        }
    }

    fn serialize(&self, dest: &mut Vec<u8>) {
        self.fileid.serialize(dest);
        self.name.serialize(dest);
        self.cookie.serialize(dest);
        self.name_attributes.serialize(dest);
        self.name_handle.serialize(dest);
        proof {
            reveal(<entryplus3 as XDR>::encoding);
            let d0 = old(dest)@;
            let d1 = d0 + fileid3::encoding(self.fileid@);
            let d2 = d1 + filename3::encoding(self.name@);
            let d3 = d2 + cookie3::encoding(self.cookie@);
            let t4 = post_op_fh3::encoding(self.name_handle@);
            let t3 = post_op_attr::encoding(self.name_attributes@) + t4;
            let t2 = cookie3::encoding(self.cookie@) + t3;
            let t1 = filename3::encoding(self.name@) + t2;
            lemma_concat_assoc(d3, post_op_attr::encoding(self.name_attributes@), t4);
            lemma_concat_assoc(d2, cookie3::encoding(self.cookie@), t3);
            lemma_concat_assoc(d1, filename3::encoding(self.name@), t2);
            lemma_concat_assoc(d0, fileid3::encoding(self.fileid@), t1);
        }
    }

    fn deserialize(&mut self, src: &mut ByteReader) -> (r: Result<(), XdrError>) {
        proof {
            reveal(<entryplus3 as XDR>::decoding);
        }
        self.fileid.deserialize(src)?;
        self.name.deserialize(src)?;
        self.cookie.deserialize(src)?;
        self.name_attributes.deserialize(src)?;
        self.name_handle.deserialize(src)?;
        Ok(())
    }

    proof fn lemma_decoding_inverts_encoding(v: entryplus3_view, src: Seq<u8>, pos: int) {
        reveal(<entryplus3 as XDR>::encoding);
        reveal(<entryplus3 as XDR>::decoding);
        let t4 = post_op_fh3::encoding(v.name_handle);
        let t3 = post_op_attr::encoding(v.name_attributes) + t4;
        let t2 = cookie3::encoding(v.cookie) + t3;
        let t1 = filename3::encoding(v.name) + t2;
        lemma_field::<fileid3>(v.fileid, t1, src, pos);
        let p1 = pos + fileid3::encoding(v.fileid).len();
        lemma_field::<filename3>(v.name, t2, src, p1);
        let p2 = p1 + filename3::encoding(v.name).len();
        lemma_field::<cookie3>(v.cookie, t3, src, p2);
        let p3 = p2 + cookie3::encoding(v.cookie).len();
        lemma_field::<post_op_attr>(v.name_attributes, t4, src, p3);
        let p4 = p3 + post_op_attr::encoding(v.name_attributes).len();
        post_op_fh3::lemma_decoding_inverts_encoding(v.name_handle, src, p4);
    }

    open spec fn word_aligned() -> bool {
        true
    }

    proof fn lemma_encoding_aligned(v: entryplus3_view) {
        reveal(<entryplus3 as XDR>::encoding);
        fileid3::lemma_encoding_aligned(v.fileid);
        filename3::lemma_encoding_aligned(v.name);
        cookie3::lemma_encoding_aligned(v.cookie);
        post_op_attr::lemma_encoding_aligned(v.name_attributes);
        post_op_fh3::lemma_encoding_aligned(v.name_handle);
        let n4 = post_op_fh3::encoding(v.name_handle).len() as int;
        let n3 = post_op_attr::encoding(v.name_attributes).len() + n4;
        lemma_aligned_sum(post_op_attr::encoding(v.name_attributes).len() as int, n4);
        let n2 = cookie3::encoding(v.cookie).len() + n3;
        lemma_aligned_sum(cookie3::encoding(v.cookie).len() as int, n3);
        let n1 = filename3::encoding(v.name).len() + n2;
        lemma_aligned_sum(filename3::encoding(v.name).len() as int, n2);
        let n0 = fileid3::encoding(v.fileid).len() + n1;
        lemma_aligned_sum(fileid3::encoding(v.fileid).len() as int, n1);
        assert(Self::encoding(v).len() == n0);
    }
}

/// How far a WRITE has to reach before the server replies.
#[derive(Copy, Clone, Debug, PartialEq, Eq, Structural)]
pub enum stable_how {
    UNSTABLE,
    DATA_SYNC,
    FILE_SYNC,
}

impl View for stable_how {
    type V = stable_how;

    open spec fn view(&self) -> stable_how {
        *self
    }
}

impl stable_how {
    /// The number that stands for the value on the wire.
    pub open spec fn wire(self) -> u32 {
        match self {
            stable_how::UNSTABLE => 0,
            stable_how::DATA_SYNC => 1,
            stable_how::FILE_SYNC => 2,
        }
    }

    /// The value that a number on the wire stands for, if any.
    pub open spec fn of_wire(w: u32) -> Option<stable_how> {
        if w == 0 {
            Some(stable_how::UNSTABLE)
        } else if w == 1 {
            Some(stable_how::DATA_SYNC)
        } else if w == 2 {
            Some(stable_how::FILE_SYNC)
        } else {
            None
        }
    }

    pub fn to_u32(&self) -> (w: u32)
        ensures
            w == self.wire(),
    {
        match self {
            stable_how::UNSTABLE => 0,
            stable_how::DATA_SYNC => 1,
            stable_how::FILE_SYNC => 2,
        }
    }

    pub fn from_u32(w: u32) -> (r: Option<stable_how>)
        ensures
            r == Self::of_wire(w),
    {
        if w == 0 {
            Some(stable_how::UNSTABLE)
        } else if w == 1 {
            Some(stable_how::DATA_SYNC)
        } else if w == 2 {
            Some(stable_how::FILE_SYNC)
        } else {
            None
        }
    }
}

impl Default for stable_how {
    fn default() -> (r: stable_how)
        ensures
            r == stable_how::UNSTABLE,
    {
        stable_how::UNSTABLE
    }
}

impl XDR for stable_how {
    #[verifier::opaque]
    open spec fn encoding(v: stable_how) -> Seq<u8> {
        u32::encoding(v.wire())
    }

    open spec fn encodable(v: stable_how) -> bool {
        true
    }

    #[verifier::opaque]
    open spec fn decoding(src: Seq<u8>, pos: int) -> Result<(stable_how, int), XdrError> {
        let w = u32::decoding(src, pos);
        if w is Err {
            fail(w)
        } else {
            match stable_how::of_wire(val(w)) {
                Some(v) => Ok((v, next(w))),
                None => Err(XdrError::InvalidData),
            }
        }
    }

    fn serialize(&self, dest: &mut Vec<u8>) {
        proof {
            reveal(<stable_how as XDR>::encoding);
        }
        self.to_u32().serialize(dest);
    }

    fn deserialize(&mut self, src: &mut ByteReader) -> (r: Result<(), XdrError>) {
        proof {
            reveal(<stable_how as XDR>::decoding);
        }
        let mut w: u32 = 0;
        w.deserialize(src)?;
        match stable_how::from_u32(w) {
            Some(v) => {
                *self = v;
                Ok(())
            },
            None => Err(XdrError::InvalidData),
        }
    }

    proof fn lemma_decoding_inverts_encoding(v: stable_how, src: Seq<u8>, pos: int) {
        reveal(<stable_how as XDR>::encoding);
        reveal(<stable_how as XDR>::decoding);
        u32::lemma_decoding_inverts_encoding(v.wire(), src, pos);
    }

    open spec fn word_aligned() -> bool {
        true
    }

    proof fn lemma_encoding_aligned(v: stable_how) {
        reveal(<stable_how as XDR>::encoding);
    }
}

/// The arguments of WRITE.
#[derive(Clone, Debug, PartialEq, Eq)]
pub struct WRITE3args {
    pub file: nfs_fh3,
    pub offset: offset3,
    /// The number of bytes to write.
    pub count: count3,
    pub stable: u32,
    pub data: Vec<u8>,
}

/// What a [`WRITE3args`] holds.
pub struct WRITE3args_view {
    pub file: Seq<u8>,
    pub offset: u64,
    pub count: u32,
    pub stable: u32,
    pub data: Seq<u8>,
}

impl View for WRITE3args {
    type V = WRITE3args_view;

    open spec fn view(&self) -> WRITE3args_view {
        WRITE3args_view {
            file: self.file@,
            offset: self.offset@,
            count: self.count@,
            stable: self.stable@,
            data: self.data@,
        }
    }
}

impl Default for WRITE3args {
    fn default() -> (r: WRITE3args)
        ensures
            r.offset == 0,
            r.count == 0,
            r.stable == 0,
            r.data@.len() == 0,
    {
        WRITE3args {
            file: nfs_fh3::default(),
            offset: 0,
            count: 0,
            stable: 0,
            data: Vec::new(),
        }
    }
}

impl XDR for WRITE3args {
    #[verifier::opaque]
    open spec fn encoding(v: WRITE3args_view) -> Seq<u8> {
        nfs_fh3::encoding(v.file) + (
            offset3::encoding(v.offset) + (
            count3::encoding(v.count) + (
            u32::encoding(v.stable) + (
            <Vec<u8>>::encoding(v.data)))))
    }

    open spec fn encodable(v: WRITE3args_view) -> bool {
        &&& nfs_fh3::encodable(v.file)
        &&& offset3::encodable(v.offset)
        &&& count3::encodable(v.count)
        &&& u32::encodable(v.stable)
        &&& <Vec<u8>>::encodable(v.data)
    }

    #[verifier::opaque]
    open spec fn decoding(src: Seq<u8>, pos: int) -> Result<(WRITE3args_view, int), XdrError> {
        let file = nfs_fh3::decoding(src, pos);
        let offset = offset3::decoding(src, next(file));
        let count = count3::decoding(src, next(offset));
        let stable = u32::decoding(src, next(count));
        let data = <Vec<u8>>::decoding(src, next(stable));
        if file is Err {
            fail(file)
        } else if offset is Err {
            fail(offset)
        } else if count is Err {
            fail(count)
        } else if stable is Err {
            fail(stable)
        } else if data is Err {
            fail(data)
        } else {
            Ok(
                (
                    WRITE3args_view {
                        file: val(file),
                        offset: val(offset),
                        count: val(count),
                        stable: val(stable),
                        data: val(data),
                    },
                    next(data),
                ),
            )
        }
    }

    fn serialize(&self, dest: &mut Vec<u8>) {
        self.file.serialize(dest);
        self.offset.serialize(dest);
        self.count.serialize(dest);
        self.stable.serialize(dest);
        self.data.serialize(dest);
        proof {
            reveal(<WRITE3args as XDR>::encoding);
            let d0 = old(dest)@;
            let d1 = d0 + nfs_fh3::encoding(self.file@);
            let d2 = d1 + offset3::encoding(self.offset@);
            let d3 = d2 + count3::encoding(self.count@);
            let t4 = <Vec<u8>>::encoding(self.data@);
            let t3 = u32::encoding(self.stable@) + t4;
            let t2 = count3::encoding(self.count@) + t3;
            let t1 = offset3::encoding(self.offset@) + t2;
            lemma_concat_assoc(d3, u32::encoding(self.stable@), t4);
            lemma_concat_assoc(d2, count3::encoding(self.count@), t3);
            lemma_concat_assoc(d1, offset3::encoding(self.offset@), t2);
            lemma_concat_assoc(d0, nfs_fh3::encoding(self.file@), t1);
        }
    }

    fn deserialize(&mut self, src: &mut ByteReader) -> (r: Result<(), XdrError>) {
        proof {
            reveal(<WRITE3args as XDR>::decoding);
        }
        self.file.deserialize(src)?;
        self.offset.deserialize(src)?;
        self.count.deserialize(src)?;
        self.stable.deserialize(src)?;
        self.data.deserialize(src)?;
        Ok(())
    }

    proof fn lemma_decoding_inverts_encoding(v: WRITE3args_view, src: Seq<u8>, pos: int) {
        reveal(<WRITE3args as XDR>::encoding);
        reveal(<WRITE3args as XDR>::decoding);
        let t4 = <Vec<u8>>::encoding(v.data);
        let t3 = u32::encoding(v.stable) + t4;
        let t2 = count3::encoding(v.count) + t3;
        let t1 = offset3::encoding(v.offset) + t2;
        lemma_field::<nfs_fh3>(v.file, t1, src, pos);
        let p1 = pos + nfs_fh3::encoding(v.file).len();
        lemma_field::<offset3>(v.offset, t2, src, p1);
        let p2 = p1 + offset3::encoding(v.offset).len();
        lemma_field::<count3>(v.count, t3, src, p2);
        let p3 = p2 + count3::encoding(v.count).len();
        lemma_field::<u32>(v.stable, t4, src, p3);
        let p4 = p3 + u32::encoding(v.stable).len();
        <Vec<u8>>::lemma_decoding_inverts_encoding(v.data, src, p4);
    }

    open spec fn word_aligned() -> bool {
        true
    }

    proof fn lemma_encoding_aligned(v: WRITE3args_view) {
        reveal(<WRITE3args as XDR>::encoding);
        nfs_fh3::lemma_encoding_aligned(v.file);
        offset3::lemma_encoding_aligned(v.offset);
        count3::lemma_encoding_aligned(v.count);
        u32::lemma_encoding_aligned(v.stable);
        <Vec<u8>>::lemma_encoding_aligned(v.data);
        let n4 = <Vec<u8>>::encoding(v.data).len() as int;
        let n3 = u32::encoding(v.stable).len() + n4;
        lemma_aligned_sum(u32::encoding(v.stable).len() as int, n4);
        let n2 = count3::encoding(v.count).len() + n3;
        lemma_aligned_sum(count3::encoding(v.count).len() as int, n3);
        let n1 = offset3::encoding(v.offset).len() + n2;
        lemma_aligned_sum(offset3::encoding(v.offset).len() as int, n2);
        let n0 = nfs_fh3::encoding(v.file).len() + n1;
        lemma_aligned_sum(nfs_fh3::encoding(v.file).len() as int, n1);
        assert(Self::encoding(v).len() == n0);
    }
}

/// The results of a successful WRITE.
#[derive(Clone, Debug, PartialEq, Eq)]
pub struct WRITE3resok {
    pub file_wcc: wcc_data,
    /// The number of bytes written.
    pub count: count3,
    pub committed: stable_how,
    /// A value that changes when the server restarts.
    pub verf: writeverf3,
}

/// What a [`WRITE3resok`] holds.
pub struct WRITE3resok_view {
    pub file_wcc: wcc_data,
    pub count: u32,
    pub committed: stable_how,
    pub verf: Seq<u8>,
}

impl View for WRITE3resok {
    type V = WRITE3resok_view;

    open spec fn view(&self) -> WRITE3resok_view {
        WRITE3resok_view {
            file_wcc: self.file_wcc@,
            count: self.count@,
            committed: self.committed@,
            verf: self.verf@,
        }
    }
}

impl Default for WRITE3resok {
    fn default() -> (r: WRITE3resok)
        ensures
            r.count == 0,
            r.verf@.len() == 8,
    {
        WRITE3resok {
            file_wcc: wcc_data::default(),
            count: 0,
            committed: stable_how::default(),
            verf: [0u8; 8],
        }
    }
}

impl XDR for WRITE3resok {
    #[verifier::opaque]
    open spec fn encoding(v: WRITE3resok_view) -> Seq<u8> {
        wcc_data::encoding(v.file_wcc) + (
            count3::encoding(v.count) + (
            stable_how::encoding(v.committed) + (
            <writeverf3>::encoding(v.verf))))
    }

    open spec fn encodable(v: WRITE3resok_view) -> bool {
        &&& wcc_data::encodable(v.file_wcc)
        &&& count3::encodable(v.count)
        &&& stable_how::encodable(v.committed)
        &&& <writeverf3>::encodable(v.verf)
    }

    #[verifier::opaque]
    open spec fn decoding(src: Seq<u8>, pos: int) -> Result<(WRITE3resok_view, int), XdrError> {
        let file_wcc = wcc_data::decoding(src, pos);
        let count = count3::decoding(src, next(file_wcc));
        let committed = stable_how::decoding(src, next(count));
        let verf = <writeverf3>::decoding(src, next(committed));
        if file_wcc is Err {
            fail(file_wcc)
        } else if count is Err {
            fail(count)
        } else if committed is Err {
            fail(committed)
        } else if verf is Err {
            fail(verf)
        } else {
            Ok(
                (
                    WRITE3resok_view {
                        file_wcc: val(file_wcc),
                        count: val(count),
                        committed: val(committed),
                        verf: val(verf),
                    },
                    next(verf),
                ),
            )
        }
    }

    fn serialize(&self, dest: &mut Vec<u8>) {
        self.file_wcc.serialize(dest);
        self.count.serialize(dest);
        self.committed.serialize(dest);
        self.verf.serialize(dest);
        proof {
            reveal(<WRITE3resok as XDR>::encoding);
            let d0 = old(dest)@;
            let d1 = d0 + wcc_data::encoding(self.file_wcc@);
            let d2 = d1 + count3::encoding(self.count@);
            let t3 = <writeverf3>::encoding(self.verf@);
            let t2 = stable_how::encoding(self.committed@) + t3;
            let t1 = count3::encoding(self.count@) + t2;
            lemma_concat_assoc(d2, stable_how::encoding(self.committed@), t3);
            lemma_concat_assoc(d1, count3::encoding(self.count@), t2);
            lemma_concat_assoc(d0, wcc_data::encoding(self.file_wcc@), t1);
        }
    }

    fn deserialize(&mut self, src: &mut ByteReader) -> (r: Result<(), XdrError>) {
        proof {
            reveal(<WRITE3resok as XDR>::decoding);
        }
        self.file_wcc.deserialize(src)?;
        self.count.deserialize(src)?;
        self.committed.deserialize(src)?;
        self.verf.deserialize(src)?;
        Ok(())
    }

    proof fn lemma_decoding_inverts_encoding(v: WRITE3resok_view, src: Seq<u8>, pos: int) {
        reveal(<WRITE3resok as XDR>::encoding);
        reveal(<WRITE3resok as XDR>::decoding);
        let t3 = <writeverf3>::encoding(v.verf);
        let t2 = stable_how::encoding(v.committed) + t3;
        let t1 = count3::encoding(v.count) + t2;
        lemma_field::<wcc_data>(v.file_wcc, t1, src, pos);
        let p1 = pos + wcc_data::encoding(v.file_wcc).len();
        lemma_field::<count3>(v.count, t2, src, p1);
        let p2 = p1 + count3::encoding(v.count).len();
        lemma_field::<stable_how>(v.committed, t3, src, p2);
        let p3 = p2 + stable_how::encoding(v.committed).len();
        <writeverf3>::lemma_decoding_inverts_encoding(v.verf, src, p3);
    }

    open spec fn word_aligned() -> bool {
        true
    }

    proof fn lemma_encoding_aligned(v: WRITE3resok_view) {
        reveal(<WRITE3resok as XDR>::encoding);
        wcc_data::lemma_encoding_aligned(v.file_wcc);
        count3::lemma_encoding_aligned(v.count);
        stable_how::lemma_encoding_aligned(v.committed);
        <writeverf3>::lemma_encoding_aligned(v.verf);
        let n3 = <writeverf3>::encoding(v.verf).len() as int;
        let n2 = stable_how::encoding(v.committed).len() + n3;
        lemma_aligned_sum(stable_how::encoding(v.committed).len() as int, n3);
        let n1 = count3::encoding(v.count).len() + n2;
        lemma_aligned_sum(count3::encoding(v.count).len() as int, n2);
        let n0 = wcc_data::encoding(v.file_wcc).len() + n1;
        lemma_aligned_sum(wcc_data::encoding(v.file_wcc).len() as int, n1);
        assert(Self::encoding(v).len() == n0);
    }
}

/// How CREATE treats a file that exists.
#[derive(Copy, Clone, Debug, PartialEq, Eq, Structural)]
pub enum createmode3 {
    /// Create the file, whether one of that name exists or not.
    UNCHECKED,
    /// Fail if a file of that name exists.
    GUARDED,
    /// Create the file only if none of that name exists, atomically.
    EXCLUSIVE,
}

impl View for createmode3 {
    type V = createmode3;

    open spec fn view(&self) -> createmode3 {
        *self
    }
}

impl createmode3 {
    /// The number that stands for the value on the wire.
    pub open spec fn wire(self) -> u32 {
        match self {
            createmode3::UNCHECKED => 0,
            createmode3::GUARDED => 1,
            createmode3::EXCLUSIVE => 2,
        }
    }

    /// The value that a number on the wire stands for, if any.
    pub open spec fn of_wire(w: u32) -> Option<createmode3> {
        if w == 0 {
            Some(createmode3::UNCHECKED)
        } else if w == 1 {
            Some(createmode3::GUARDED)
        } else if w == 2 {
            Some(createmode3::EXCLUSIVE)
        } else {
            None
        }
    }

    pub fn to_u32(&self) -> (w: u32)
        ensures
            w == self.wire(),
    {
        match self {
            createmode3::UNCHECKED => 0,
            createmode3::GUARDED => 1,
            createmode3::EXCLUSIVE => 2,
        }
    }

    pub fn from_u32(w: u32) -> (r: Option<createmode3>)
        ensures
            r == Self::of_wire(w),
    {
        if w == 0 {
            Some(createmode3::UNCHECKED)
        } else if w == 1 {
            Some(createmode3::GUARDED)
        } else if w == 2 {
            Some(createmode3::EXCLUSIVE)
        } else {
            None
        }
    }
}

impl Default for createmode3 {
    fn default() -> (r: createmode3)
        ensures
            r == createmode3::UNCHECKED,
    {
        createmode3::UNCHECKED
    }
}

impl XDR for createmode3 {
    #[verifier::opaque]
    open spec fn encoding(v: createmode3) -> Seq<u8> {
        u32::encoding(v.wire())
    }

    open spec fn encodable(v: createmode3) -> bool {
        true
    }

    #[verifier::opaque]
    open spec fn decoding(src: Seq<u8>, pos: int) -> Result<(createmode3, int), XdrError> {
        let w = u32::decoding(src, pos);
        if w is Err {
            fail(w)
        } else {
            match createmode3::of_wire(val(w)) {
                Some(v) => Ok((v, next(w))),
                None => Err(XdrError::InvalidData),
            }
        }
    }

    fn serialize(&self, dest: &mut Vec<u8>) {
        proof {
            reveal(<createmode3 as XDR>::encoding);
        }
        self.to_u32().serialize(dest);
    }

    fn deserialize(&mut self, src: &mut ByteReader) -> (r: Result<(), XdrError>) {
        proof {
            reveal(<createmode3 as XDR>::decoding);
        }
        let mut w: u32 = 0;
        w.deserialize(src)?;
        match createmode3::from_u32(w) {
            Some(v) => {
                *self = v;
                Ok(())
            },
            None => Err(XdrError::InvalidData),
        }
    }

    proof fn lemma_decoding_inverts_encoding(v: createmode3, src: Seq<u8>, pos: int) {
        reveal(<createmode3 as XDR>::encoding);
        reveal(<createmode3 as XDR>::decoding);
        u32::lemma_decoding_inverts_encoding(v.wire(), src, pos);
    }

    open spec fn word_aligned() -> bool {
        true
    }

    proof fn lemma_encoding_aligned(v: createmode3) {
        reveal(<createmode3 as XDR>::encoding);
    }
}

/// The change time that a file must have for SETATTR to go ahead, if the
/// client asks for the check.
#[derive(Copy, Clone, Debug, PartialEq, Eq, Structural)]
pub enum sattrguard3 {
    Void,
    obj_ctime(nfstime3),
}

impl View for sattrguard3 {
    type V = sattrguard3;

    open spec fn view(&self) -> sattrguard3 {
        *self
    }
}

impl Default for sattrguard3 {
    fn default() -> (r: sattrguard3)
        ensures
            r == sattrguard3::Void,
    {
        sattrguard3::Void
    }
}

impl XDR for sattrguard3 {
    #[verifier::opaque]
    open spec fn encoding(v: sattrguard3) -> Seq<u8> {
        match v {
            sattrguard3::Void => bool::encoding(false),
            sattrguard3::obj_ctime(x) => bool::encoding(true) + nfstime3::encoding(x),
        }
    }

    open spec fn encodable(v: sattrguard3) -> bool {
        match v {
            sattrguard3::Void => true,
            sattrguard3::obj_ctime(x) => nfstime3::encodable(x),
        }
    }

    #[verifier::opaque]
    open spec fn decoding(src: Seq<u8>, pos: int) -> Result<(sattrguard3, int), XdrError> {
        let tag = bool::decoding(src, pos);
        if tag is Err {
            fail(tag)
        } else if !val(tag) {
            Ok((sattrguard3::Void, next(tag)))
        } else {
            let x = nfstime3::decoding(src, next(tag));
            if x is Err {
                fail(x)
            } else {
                Ok((sattrguard3::obj_ctime(val(x)), next(x)))
            }
        }
    }

    fn serialize(&self, dest: &mut Vec<u8>) {
        proof {
            reveal(<sattrguard3 as XDR>::encoding);
        }
        match self {
            sattrguard3::Void => {
                false.serialize(dest);
            },
            sattrguard3::obj_ctime(x) => {
                true.serialize(dest);
                x.serialize(dest);
                assert(dest@ =~= old(dest)@ + Self::encoding(self@));
            },
        }
    }

    fn deserialize(&mut self, src: &mut ByteReader) -> (r: Result<(), XdrError>) {
        proof {
            reveal(<sattrguard3 as XDR>::decoding);
        }
        let mut tag: bool = false;
        tag.deserialize(src)?;
        if !tag {
            *self = sattrguard3::Void;
        } else {
            let mut x: nfstime3 = nfstime3::default();
            x.deserialize(src)?;
            *self = sattrguard3::obj_ctime(x);
        }
        Ok(())
    }

    proof fn lemma_decoding_inverts_encoding(v: sattrguard3, src: Seq<u8>, pos: int) {
        reveal(<sattrguard3 as XDR>::encoding);
        reveal(<sattrguard3 as XDR>::decoding);
        match v {
            sattrguard3::Void => {
                bool::lemma_decoding_inverts_encoding(false, src, pos);
            },
            sattrguard3::obj_ctime(x) => {
                lemma_field::<bool>(true, nfstime3::encoding(x), src, pos);
                nfstime3::lemma_decoding_inverts_encoding(x, src, pos + 4);
            },
        }
    }

    open spec fn word_aligned() -> bool {
        true
    }

    proof fn lemma_encoding_aligned(v: sattrguard3) {
        reveal(<sattrguard3 as XDR>::encoding);
        match v {
            sattrguard3::Void => {},
            sattrguard3::obj_ctime(x) => {
                nfstime3::lemma_encoding_aligned(x);
            },
        }
    }
}

/// The arguments of SETATTR.
#[derive(Clone, Debug, PartialEq, Eq)]
pub struct SETATTR3args {
    pub object: nfs_fh3,
    pub new_attribute: sattr3,
    pub guard: sattrguard3,
}

/// What a [`SETATTR3args`] holds.
pub struct SETATTR3args_view {
    pub object: Seq<u8>,
    pub new_attribute: sattr3,
    pub guard: sattrguard3,
}

impl View for SETATTR3args {
    type V = SETATTR3args_view;

    open spec fn view(&self) -> SETATTR3args_view {
        SETATTR3args_view {
            object: self.object@,
            new_attribute: self.new_attribute@,
            guard: self.guard@,
        }
    }
}

impl Default for SETATTR3args {
    fn default() -> (r: SETATTR3args)
    {
        SETATTR3args {
            object: nfs_fh3::default(),
            new_attribute: sattr3::default(),
            guard: sattrguard3::default(),
        }
    }
}

impl XDR for SETATTR3args {
    #[verifier::opaque]
    open spec fn encoding(v: SETATTR3args_view) -> Seq<u8> {
        nfs_fh3::encoding(v.object) + (
            sattr3::encoding(v.new_attribute) + (
            sattrguard3::encoding(v.guard)))
    }

    open spec fn encodable(v: SETATTR3args_view) -> bool {
        &&& nfs_fh3::encodable(v.object)
        &&& sattr3::encodable(v.new_attribute)
        &&& sattrguard3::encodable(v.guard)
    }

    #[verifier::opaque]
    open spec fn decoding(src: Seq<u8>, pos: int) -> Result<(SETATTR3args_view, int), XdrError> {
        let object = nfs_fh3::decoding(src, pos);
        let new_attribute = sattr3::decoding(src, next(object));
        let guard = sattrguard3::decoding(src, next(new_attribute));
        if object is Err {
            fail(object)
        } else if new_attribute is Err {
            fail(new_attribute)
        } else if guard is Err {
            fail(guard)
        } else {
            Ok(
                (
                    SETATTR3args_view {
                        object: val(object),
                        new_attribute: val(new_attribute),
                        guard: val(guard),
                    },
                    next(guard),
                ),
            )
        }
    }

    fn serialize(&self, dest: &mut Vec<u8>) {
        self.object.serialize(dest);
        self.new_attribute.serialize(dest);
        self.guard.serialize(dest);
        proof {
            reveal(<SETATTR3args as XDR>::encoding);
            let d0 = old(dest)@;
            let d1 = d0 + nfs_fh3::encoding(self.object@);
            let t2 = sattrguard3::encoding(self.guard@);
            let t1 = sattr3::encoding(self.new_attribute@) + t2;
            lemma_concat_assoc(d1, sattr3::encoding(self.new_attribute@), t2);
            lemma_concat_assoc(d0, nfs_fh3::encoding(self.object@), t1);
        }
    }

    fn deserialize(&mut self, src: &mut ByteReader) -> (r: Result<(), XdrError>) {
        proof {
            reveal(<SETATTR3args as XDR>::decoding);
        }
        self.object.deserialize(src)?;
        self.new_attribute.deserialize(src)?;
        self.guard.deserialize(src)?;
        Ok(())
    }

    proof fn lemma_decoding_inverts_encoding(v: SETATTR3args_view, src: Seq<u8>, pos: int) {
        reveal(<SETATTR3args as XDR>::encoding);
        reveal(<SETATTR3args as XDR>::decoding);
        let t2 = sattrguard3::encoding(v.guard);
        let t1 = sattr3::encoding(v.new_attribute) + t2;
        lemma_field::<nfs_fh3>(v.object, t1, src, pos);
        let p1 = pos + nfs_fh3::encoding(v.object).len();
        lemma_field::<sattr3>(v.new_attribute, t2, src, p1);
        let p2 = p1 + sattr3::encoding(v.new_attribute).len();
        sattrguard3::lemma_decoding_inverts_encoding(v.guard, src, p2);
    }

    open spec fn word_aligned() -> bool {
        true
    }

    proof fn lemma_encoding_aligned(v: SETATTR3args_view) {
        reveal(<SETATTR3args as XDR>::encoding);
        nfs_fh3::lemma_encoding_aligned(v.object);
        sattr3::lemma_encoding_aligned(v.new_attribute);
        sattrguard3::lemma_encoding_aligned(v.guard);
        let n2 = sattrguard3::encoding(v.guard).len() as int;
        let n1 = sattr3::encoding(v.new_attribute).len() + n2;
        lemma_aligned_sum(sattr3::encoding(v.new_attribute).len() as int, n2);
        let n0 = nfs_fh3::encoding(v.object).len() + n1;
        lemma_aligned_sum(nfs_fh3::encoding(v.object).len() as int, n1);
        assert(Self::encoding(v).len() == n0);
    }
}

/// The arguments of RENAME.
#[derive(Clone, Debug, PartialEq, Eq)]
pub struct RENAME3args {
    pub from: diropargs3,
    pub to: diropargs3,
}

/// What a [`RENAME3args`] holds.
pub struct RENAME3args_view {
    pub from: diropargs3_view,
    pub to: diropargs3_view,
}

impl View for RENAME3args {
    type V = RENAME3args_view;

    open spec fn view(&self) -> RENAME3args_view {
        RENAME3args_view {
            from: self.from@,
            to: self.to@,
        }
    }
}

impl Default for RENAME3args {
    fn default() -> (r: RENAME3args)
    {
        RENAME3args {
            from: diropargs3::default(),
            to: diropargs3::default(),
        }
    }
}

impl XDR for RENAME3args {
    #[verifier::opaque]
    open spec fn encoding(v: RENAME3args_view) -> Seq<u8> {
        diropargs3::encoding(v.from) + (diropargs3::encoding(v.to))
    }

    open spec fn encodable(v: RENAME3args_view) -> bool {
        &&& diropargs3::encodable(v.from)
        &&& diropargs3::encodable(v.to)
    }

    #[verifier::opaque]
    open spec fn decoding(src: Seq<u8>, pos: int) -> Result<(RENAME3args_view, int), XdrError> {
        let from = diropargs3::decoding(src, pos);
        let to = diropargs3::decoding(src, next(from));
        if from is Err {
            fail(from)
        } else if to is Err {
            fail(to)
        } else {
            Ok((RENAME3args_view { from: val(from), to: val(to) }, next(to)))
        }
    }

    fn serialize(&self, dest: &mut Vec<u8>) {
        self.from.serialize(dest);
        self.to.serialize(dest);
        proof {
            reveal(<RENAME3args as XDR>::encoding);
            let d0 = old(dest)@;
            let t1 = diropargs3::encoding(self.to@);
            lemma_concat_assoc(d0, diropargs3::encoding(self.from@), t1);
        }
    }

    fn deserialize(&mut self, src: &mut ByteReader) -> (r: Result<(), XdrError>) {
        proof {
            reveal(<RENAME3args as XDR>::decoding);
        }
        self.from.deserialize(src)?;
        self.to.deserialize(src)?;
        Ok(())
    }

    proof fn lemma_decoding_inverts_encoding(v: RENAME3args_view, src: Seq<u8>, pos: int) {
        reveal(<RENAME3args as XDR>::encoding);
        reveal(<RENAME3args as XDR>::decoding);
        let t1 = diropargs3::encoding(v.to);
        lemma_field::<diropargs3>(v.from, t1, src, pos);
        let p1 = pos + diropargs3::encoding(v.from).len();
        diropargs3::lemma_decoding_inverts_encoding(v.to, src, p1);
    }

    open spec fn word_aligned() -> bool {
        true
    }

    proof fn lemma_encoding_aligned(v: RENAME3args_view) {
        reveal(<RENAME3args as XDR>::encoding);
        diropargs3::lemma_encoding_aligned(v.from);
        diropargs3::lemma_encoding_aligned(v.to);
        let n1 = diropargs3::encoding(v.to).len() as int;
        let n0 = diropargs3::encoding(v.from).len() + n1;
        lemma_aligned_sum(diropargs3::encoding(v.from).len() as int, n1);
        assert(Self::encoding(v).len() == n0);
    }
}

/// The arguments of MKDIR.
#[derive(Clone, Debug, PartialEq, Eq)]
pub struct MKDIR3args {
    pub dirops: diropargs3,
    pub attributes: sattr3,
}

/// What a [`MKDIR3args`] holds.
pub struct MKDIR3args_view {
    pub dirops: diropargs3_view,
    pub attributes: sattr3,
}

impl View for MKDIR3args {
    type V = MKDIR3args_view;

    open spec fn view(&self) -> MKDIR3args_view {
        MKDIR3args_view {
            dirops: self.dirops@,
            attributes: self.attributes@,
        }
    }
}

impl Default for MKDIR3args {
    fn default() -> (r: MKDIR3args)
    {
        MKDIR3args {
            dirops: diropargs3::default(),
            attributes: sattr3::default(),
        }
    }
}

impl XDR for MKDIR3args {
    #[verifier::opaque]
    open spec fn encoding(v: MKDIR3args_view) -> Seq<u8> {
        diropargs3::encoding(v.dirops) + (sattr3::encoding(v.attributes))
    }

    open spec fn encodable(v: MKDIR3args_view) -> bool {
        &&& diropargs3::encodable(v.dirops)
        &&& sattr3::encodable(v.attributes)
    }

    #[verifier::opaque]
    open spec fn decoding(src: Seq<u8>, pos: int) -> Result<(MKDIR3args_view, int), XdrError> {
        let dirops = diropargs3::decoding(src, pos);
        let attributes = sattr3::decoding(src, next(dirops));
        if dirops is Err {
            fail(dirops)
        } else if attributes is Err {
            fail(attributes)
        } else {
            Ok(
                (
                    MKDIR3args_view {
                        dirops: val(dirops),
                        attributes: val(attributes),
                    },
                    next(attributes),
                ),
            )
        }
    }

    fn serialize(&self, dest: &mut Vec<u8>) {
        self.dirops.serialize(dest);
        self.attributes.serialize(dest);
        proof {
            reveal(<MKDIR3args as XDR>::encoding);
            let d0 = old(dest)@;
            let t1 = sattr3::encoding(self.attributes@);
            lemma_concat_assoc(d0, diropargs3::encoding(self.dirops@), t1);
        }
    }

    fn deserialize(&mut self, src: &mut ByteReader) -> (r: Result<(), XdrError>) {
        proof {
            reveal(<MKDIR3args as XDR>::decoding);
        }
        self.dirops.deserialize(src)?;
        self.attributes.deserialize(src)?;
        Ok(())
    }

    proof fn lemma_decoding_inverts_encoding(v: MKDIR3args_view, src: Seq<u8>, pos: int) {
        reveal(<MKDIR3args as XDR>::encoding);
        reveal(<MKDIR3args as XDR>::decoding);
        let t1 = sattr3::encoding(v.attributes);
        lemma_field::<diropargs3>(v.dirops, t1, src, pos);
        let p1 = pos + diropargs3::encoding(v.dirops).len();
        sattr3::lemma_decoding_inverts_encoding(v.attributes, src, p1);
    }

    open spec fn word_aligned() -> bool {
        true
    }

    proof fn lemma_encoding_aligned(v: MKDIR3args_view) {
        reveal(<MKDIR3args as XDR>::encoding);
        diropargs3::lemma_encoding_aligned(v.dirops);
        sattr3::lemma_encoding_aligned(v.attributes);
        let n1 = sattr3::encoding(v.attributes).len() as int;
        let n0 = diropargs3::encoding(v.dirops).len() + n1;
        lemma_aligned_sum(diropargs3::encoding(v.dirops).len() as int, n1);
        assert(Self::encoding(v).len() == n0);
    }
}

/// The arguments of SYMLINK.
#[derive(Clone, Debug, PartialEq, Eq)]
pub struct SYMLINK3args {
    pub dirops: diropargs3,
    pub symlink: symlinkdata3,
}

/// What a [`SYMLINK3args`] holds.
pub struct SYMLINK3args_view {
    pub dirops: diropargs3_view,
    pub symlink: symlinkdata3_view,
}

impl View for SYMLINK3args {
    type V = SYMLINK3args_view;

    open spec fn view(&self) -> SYMLINK3args_view {
        SYMLINK3args_view {
            dirops: self.dirops@,
            symlink: self.symlink@,
        }
    }
}

impl Default for SYMLINK3args {
    fn default() -> (r: SYMLINK3args)
    {
        SYMLINK3args {
            dirops: diropargs3::default(),
            symlink: symlinkdata3::default(),
        }
    }
}

impl XDR for SYMLINK3args {
    #[verifier::opaque]
    open spec fn encoding(v: SYMLINK3args_view) -> Seq<u8> {
        diropargs3::encoding(v.dirops) + (symlinkdata3::encoding(v.symlink))
    }

    open spec fn encodable(v: SYMLINK3args_view) -> bool {
        &&& diropargs3::encodable(v.dirops)
        &&& symlinkdata3::encodable(v.symlink)
    }

    #[verifier::opaque]
    open spec fn decoding(src: Seq<u8>, pos: int) -> Result<(SYMLINK3args_view, int), XdrError> {
        let dirops = diropargs3::decoding(src, pos);
        let symlink = symlinkdata3::decoding(src, next(dirops));
        if dirops is Err {
            fail(dirops)
        } else if symlink is Err {
            fail(symlink)
        } else {
            Ok((SYMLINK3args_view { dirops: val(dirops), symlink: val(symlink) }, next(symlink)))
        }
    }

    fn serialize(&self, dest: &mut Vec<u8>) {
        self.dirops.serialize(dest);
        self.symlink.serialize(dest);
        proof {
            reveal(<SYMLINK3args as XDR>::encoding);
            let d0 = old(dest)@;
            let t1 = symlinkdata3::encoding(self.symlink@);
            lemma_concat_assoc(d0, diropargs3::encoding(self.dirops@), t1);
        }
    }

    fn deserialize(&mut self, src: &mut ByteReader) -> (r: Result<(), XdrError>) {
        proof {
            reveal(<SYMLINK3args as XDR>::decoding);
        }
        self.dirops.deserialize(src)?;
        self.symlink.deserialize(src)?;
        Ok(())
    }

    proof fn lemma_decoding_inverts_encoding(v: SYMLINK3args_view, src: Seq<u8>, pos: int) {
        reveal(<SYMLINK3args as XDR>::encoding);
        reveal(<SYMLINK3args as XDR>::decoding);
        let t1 = symlinkdata3::encoding(v.symlink);
        lemma_field::<diropargs3>(v.dirops, t1, src, pos);
        let p1 = pos + diropargs3::encoding(v.dirops).len();
        symlinkdata3::lemma_decoding_inverts_encoding(v.symlink, src, p1);
    }

    open spec fn word_aligned() -> bool {
        true
    }

    proof fn lemma_encoding_aligned(v: SYMLINK3args_view) {
        reveal(<SYMLINK3args as XDR>::encoding);
        diropargs3::lemma_encoding_aligned(v.dirops);
        symlinkdata3::lemma_encoding_aligned(v.symlink);
        let n1 = symlinkdata3::encoding(v.symlink).len() as int;
        let n0 = diropargs3::encoding(v.dirops).len() + n1;
        lemma_aligned_sum(diropargs3::encoding(v.dirops).len() as int, n1);
        assert(Self::encoding(v).len() == n0);
    }
}

/// Read access.
pub const ACCESS3_READ: u32 = 0x0001;

/// Looking up a name in a directory.
pub const ACCESS3_LOOKUP: u32 = 0x0002;

/// Rewriting existing data or attributes.
pub const ACCESS3_MODIFY: u32 = 0x0004;

/// Writing new data or adding directory entries.
pub const ACCESS3_EXTEND: u32 = 0x0008;

/// Deleting a directory entry.
pub const ACCESS3_DELETE: u32 = 0x0010;

/// Executing a file or searching a directory.
pub const ACCESS3_EXECUTE: u32 = 0x0020;

/// `after` is `before` with something appended.
pub open spec fn extends(before: Seq<u8>, after: Seq<u8>) -> bool {
    before.len() <= after.len() && after.subrange(0, before.len() as int) == before
}

/// What was appended to `before` to give `after`.
pub open spec fn appended(before: Seq<u8>, after: Seq<u8>) -> Seq<u8> {
    after.skip(before.len() as int)
}

/// What is appended to a buffer is what it holds more than before.
pub proof fn lemma_appended(before: Seq<u8>, more: Seq<u8>)
    ensures
        extends(before, before + more),
        appended(before, before + more) == more,
{
    assert((before + more).subrange(0, before.len() as int) =~= before);
    assert((before + more).skip(before.len() as int) =~= more);
}

/// Whether a decoding that succeeds ends at `pos`.
pub open spec fn read_to<T>(args: Result<(T, int), XdrError>, pos: int) -> bool {
    args matches Ok((_, end)) ==> pos == end
}

/// Whether the file system `fs` takes changes.
pub open spec fn writable<F: NFSFileSystem>(fs: &F) -> bool {
    fs.capabilities_spec() == VFSCapabilities::ReadWrite
}

/// The attributes to report after an operation: those read, or none where
/// they could not be read.
pub open spec fn post_attr(r: Result<fattr3, nfsstat3>) -> post_op_attr {
    match r {
        Ok(a) => post_op_attr::attributes(a),
        Err(_) => post_op_attr::Void,
    }
}

/// The part of the attributes that a client checks its cache against.
pub open spec fn wcc_of(a: fattr3) -> wcc_attr {
    wcc_attr { size: a.size, mtime: a.mtime, ctime: a.ctime }
}

/// The attributes to report from before an operation: those read, or none
/// where they could not be read.
pub open spec fn pre_attr(r: Result<fattr3, nfsstat3>) -> pre_op_attr {
    match r {
        Ok(a) => pre_op_attr::attributes(wcc_of(a)),
        Err(_) => pre_op_attr::Void,
    }
}

/// No attributes, neither from before nor from after.
pub open spec fn no_wcc() -> wcc_data {
    wcc_data { before: pre_op_attr::Void, after: post_op_attr::Void }
}

/// The status that stands for an outcome.
pub open spec fn status_of<T>(r: Result<T, nfsstat3>) -> nfsstat3 {
    match r {
        Ok(_) => nfsstat3::NFS3_OK,
        Err(stat) => stat,
    }
}

/// A reply that carries a status: the accepted header and the status. What
/// the procedure returns with the status follows.
pub open spec fn status_reply(xid: u32, stat: nfsstat3) -> Seq<u8> {
    success_header(xid) + nfsstat3::encoding(stat)
}

/// A reply of a status and the attributes of the object.
pub open spec fn attr_reply(xid: u32, stat: nfsstat3, attr: post_op_attr) -> Seq<u8> {
    status_reply(xid, stat) + post_op_attr::encoding(attr)
}

/// A reply of a status and weak cache consistency data.
pub open spec fn wcc_reply(xid: u32, stat: nfsstat3, wcc: wcc_data) -> Seq<u8> {
    status_reply(xid, stat) + wcc_data::encoding(wcc)
}

/// The reply that refuses a change to a read-only file system.
pub open spec fn rofs_reply(xid: u32) -> Seq<u8> {
    wcc_reply(xid, nfsstat3::NFS3ERR_ROFS, no_wcc())
}

/// The attributes to report after an operation.
pub fn post_op(r: &Result<fattr3, nfsstat3>) -> (a: post_op_attr)
    ensures
        a == post_attr(*r),
{
    match r {
        Ok(v) => post_op_attr::attributes(*v),
        Err(_) => post_op_attr::Void,
    }
}

/// The attributes to report from before an operation.
pub fn pre_op(v: &fattr3) -> (a: pre_op_attr)
    ensures
        a == pre_op_attr::attributes(wcc_of(*v)),
{
    pre_op_attr::attributes(wcc_attr { size: v.size, mtime: v.mtime, ctime: v.ctime })
}

/// Appends the accepted header and a status.
pub fn write_status(xid: u32, stat: nfsstat3, output: &mut Vec<u8>)
    ensures
        final(output)@ == old(output)@ + status_reply(xid, stat),
{
    write_accepted(xid, accept_body::SUCCESS, output);
    stat.serialize(output);
    assert(output@ =~= old(output)@ + status_reply(xid, stat));
}

/// Appends a reply of a status and the attributes of the object.
pub fn write_attr_reply(xid: u32, stat: nfsstat3, attr: post_op_attr, output: &mut Vec<u8>)
    ensures
        final(output)@ == old(output)@ + attr_reply(xid, stat, attr),
{
    write_status(xid, stat, output);
    attr.serialize(output);
    assert(output@ =~= old(output)@ + attr_reply(xid, stat, attr));
}

/// Appends a reply of a status and weak cache consistency data.
pub fn write_wcc_reply(xid: u32, stat: nfsstat3, wcc: wcc_data, output: &mut Vec<u8>)
    ensures
        final(output)@ == old(output)@ + wcc_reply(xid, stat, wcc),
{
    write_status(xid, stat, output);
    wcc.serialize(output);
    assert(output@ =~= old(output)@ + wcc_reply(xid, stat, wcc));
}

/// Appends the reply that tells the caller that its arguments could not be
/// decoded.
pub fn write_garbage(xid: u32, output: &mut Vec<u8>)
    ensures
        final(output)@ == old(output)@ + garbage_reply(xid),
{
    write_accepted(xid, accept_body::GARBAGE_ARGS, output);
}

/// Whether the file system takes changes.
pub fn can_write<F: NFSFileSystem>(context: &RPCContext<F>) -> (b: bool)
    ensures
        b == writable(&*context.vfs),
{
    match context.vfs.capabilities() {
        VFSCapabilities::ReadWrite => true,
        VFSCapabilities::ReadOnly => false,
    }
}

/// NULL: does nothing and says so.
pub fn nfsproc3_null(xid: u32, input: &mut ByteReader, output: &mut Vec<u8>)
    ensures
        final(output)@ == old(output)@ + success_header(xid),
        *final(input) == *old(input),
{
    write_accepted(xid, accept_body::SUCCESS, output);
}

/// The reply of GETATTR to what the file system answered: the attributes,
/// or the status alone.
pub open spec fn getattr_reply(xid: u32, answer: Result<fattr3, nfsstat3>) -> Seq<u8> {
    match answer {
        Ok(attr) => status_reply(xid, nfsstat3::NFS3_OK) + fattr3::encoding(attr),
        Err(stat) => status_reply(xid, stat),
    }
}

/// What GETATTR may reply to the arguments `args`. Arguments that do not
/// decode are garbage; a handle that names no file of this server instance
/// gets its status; else the reply is to what the file system answers when
/// asked for the attributes of the file.
pub open spec fn getattr_replies<F: NFSFileSystem>(
    fs: &F,
    xid: u32,
    args: Result<(Seq<u8>, int), XdrError>,
    reply: Seq<u8>,
) -> bool {
    match args {
        Err(_) => reply == garbage_reply(xid),
        Ok((fh, _)) => match handle_id(fs.serverid_spec(), fh) {
            Err(stat) => reply == status_reply(xid, stat),
            Ok(id) => exists|answer: Result<fattr3, nfsstat3>|
                #[trigger] fs.getattr_answers(id, answer) && reply == getattr_reply(xid, answer),
        },
    }
}

/// Appends the reply of GETATTR to what the file system answered.
pub fn write_getattr_reply(xid: u32, answer: &Result<fattr3, nfsstat3>, output: &mut Vec<u8>)
    ensures
        final(output)@ == old(output)@ + getattr_reply(xid, *answer),
{
    match answer {
        Ok(attr) => {
            write_status(xid, nfsstat3::NFS3_OK, output);
            attr.serialize(output);
            assert(output@ =~= old(output)@ + getattr_reply(xid, *answer));
        },
        Err(stat) => {
            write_status(xid, *stat, output);
        },
    }
}

/// GETATTR: the attributes of a file.
pub fn nfsproc3_getattr<F: NFSFileSystem>(
    xid: u32,
    input: &mut ByteReader,
    output: &mut Vec<u8>,
    context: &RPCContext<F>,
)
    ensures
        final(input).data@ == old(input).data@,
        extends(old(output)@, final(output)@),
        read_to(nfs_fh3::decoding(old(input).data@, old(input).pos as int), final(input).pos as int),
        getattr_replies(
            &*context.vfs,
            xid,
            nfs_fh3::decoding(old(input).data@, old(input).pos as int),
            appended(old(output)@, final(output)@),
        ),
{
    let mut handle = nfs_fh3::default();
    if handle.deserialize(input).is_err() {
        write_garbage(xid, output);
        proof {
            lemma_appended(old(output)@, garbage_reply(xid));
        }
        return ;
    }
    let id = match context.vfs.fh_to_id(&handle) {
        Ok(id) => id,
        Err(stat) => {
            write_status(xid, stat, output);
            proof {
                lemma_appended(old(output)@, status_reply(xid, stat));
            }
            return ;
        },
    };
    let answer = context.vfs.getattr(id);
    write_getattr_reply(xid, &answer, output);
    proof {
        lemma_appended(old(output)@, getattr_reply(xid, answer));
        assert(context.vfs.getattr_answers(id, answer));
    }
}

/// The reply of LOOKUP to what the file system answered: the attributes of
/// the directory, the file found, and the attributes of that file.
pub open spec fn lookup_reply(
    xid: u32,
    serverid: Seq<u8>,
    dir: Result<fattr3, nfsstat3>,
    found: Result<fileid3, nfsstat3>,
    obj: Result<fattr3, nfsstat3>,
) -> Seq<u8> {
    match found {
        Ok(fid) => status_reply(xid, nfsstat3::NFS3_OK) + nfs_fh3::encoding(
            handle_bytes(serverid, fid),
        ) + post_op_attr::encoding(post_attr(obj)) + post_op_attr::encoding(post_attr(dir)),
        Err(stat) => attr_reply(xid, stat, post_attr(dir)),
    }
}

/// Whether `dir`, `found` and `obj` are what the file system answers when
/// LOOKUP asks it: for the attributes of the directory, for the name in
/// the directory, and for the attributes of the file if it found one.
pub open spec fn lookup_asked<F: NFSFileSystem>(
    fs: &F,
    dirid: fileid3,
    name: Seq<u8>,
    dir: Result<fattr3, nfsstat3>,
    found: Result<fileid3, nfsstat3>,
    obj: Result<fattr3, nfsstat3>,
) -> bool {
    &&& fs.getattr_answers(dirid, dir)
    &&& fs.lookup_answers(dirid, name, found)
    &&& found matches Ok(fid) ==> fs.getattr_answers(fid, obj)
}

/// What LOOKUP may reply to the arguments `args`.
pub open spec fn lookup_replies<F: NFSFileSystem>(
    fs: &F,
    xid: u32,
    args: Result<(diropargs3_view, int), XdrError>,
    reply: Seq<u8>,
) -> bool {
    match args {
        Err(_) => reply == garbage_reply(xid),
        Ok((what, _)) => match handle_id(fs.serverid_spec(), what.dir) {
            Err(stat) => reply == attr_reply(xid, stat, post_op_attr::Void),
            Ok(dirid) => exists|
                dir: Result<fattr3, nfsstat3>,
                found: Result<fileid3, nfsstat3>,
                obj: Result<fattr3, nfsstat3>,
            |
                #[trigger] lookup_asked(fs, dirid, what.name, dir, found, obj) && reply
                    == lookup_reply(xid, fs.serverid_spec(), dir, found, obj),
        },
    }
}

/// Appends the reply of LOOKUP to what the file system answered. What it
/// answered for the attributes of the file counts only where it found one.
pub fn write_lookup_reply<F: NFSFileSystem>(
    xid: u32,
    dir: &Result<fattr3, nfsstat3>,
    found: &Result<fileid3, nfsstat3>,
    obj: &Result<fattr3, nfsstat3>,
    output: &mut Vec<u8>,
    context: &RPCContext<F>,
)
    ensures
        final(output)@ == old(output)@ + lookup_reply(
            xid,
            context.vfs.serverid_spec(),
            *dir,
            *found,
            *obj,
        ),
{
    match found {
        Ok(fid) => {
            write_status(xid, nfsstat3::NFS3_OK, output);
            context.vfs.id_to_fh(*fid).serialize(output);
            post_op(obj).serialize(output);
            post_op(dir).serialize(output);
            assert(output@ =~= old(output)@ + lookup_reply(
                xid,
                context.vfs.serverid_spec(),
                *dir,
                *found,
                *obj,
            ));
        },
        Err(stat) => {
            write_attr_reply(xid, *stat, post_op(dir), output);
        },
    }
}

/// LOOKUP: the file of a name in a directory.
pub fn nfsproc3_lookup<F: NFSFileSystem>(
    xid: u32,
    input: &mut ByteReader,
    output: &mut Vec<u8>,
    context: &RPCContext<F>,
)
    ensures
        final(input).data@ == old(input).data@,
        extends(old(output)@, final(output)@),
        read_to(
            diropargs3::decoding(old(input).data@, old(input).pos as int),
            final(input).pos as int,
        ),
        lookup_replies(
            &*context.vfs,
            xid,
            diropargs3::decoding(old(input).data@, old(input).pos as int),
            appended(old(output)@, final(output)@),
        ),
{
    let ghost serverid = context.vfs.serverid_spec();
    let mut dirops = diropargs3::default();
    if dirops.deserialize(input).is_err() {
        write_garbage(xid, output);
        proof {
            lemma_appended(old(output)@, garbage_reply(xid));
        }
        return ;
    }
    let dirid = match context.vfs.fh_to_id(&dirops.dir) {
        Ok(id) => id,
        Err(stat) => {
            write_attr_reply(xid, stat, post_op_attr::Void, output);
            proof {
                lemma_appended(old(output)@, attr_reply(xid, stat, post_op_attr::Void));
            }
            return ;
        },
    };
    assert(dirops@.name == dirops.name@ && dirops@.dir == dirops.dir@);
    let dir = context.vfs.getattr(dirid);
    let found = context.vfs.lookup(dirid, &dirops.name);
    match found {
        Ok(fid) => {
            let obj = context.vfs.getattr(fid);
            write_lookup_reply(xid, &dir, &found, &obj, output, context);
            proof {
                lemma_appended(old(output)@, lookup_reply(xid, serverid, dir, found, obj));
                assert(lookup_asked(&*context.vfs, dirid, dirops.name@, dir, found, obj));
            }
        },
        Err(_) => {
            write_lookup_reply(xid, &dir, &found, &dir, output, context);
            proof {
                lemma_appended(old(output)@, lookup_reply(xid, serverid, dir, found, dir));
                assert(lookup_asked(&*context.vfs, dirid, dirops.name@, dir, found, dir));
            }
        },
    }
}

/// The access rights that the server grants of those asked about: all of
/// them on a file system that takes changes, else reading and looking up.
pub open spec fn granted(writable: bool, access: u32) -> u32 {
    if writable {
        access
    } else {
        access & 3
    }
}

/// The access rights to grant of those asked about.
pub fn grant_access(writable: bool, access: u32) -> (rights: u32)
    ensures
        rights == granted(writable, access),
        !writable ==> rights <= 3,
{
    if writable {
        access
    } else {
        assert(access & 3 <= 3) by (bit_vector);
        assert(0x1u32 | 0x2u32 == 3u32) by (bit_vector);
        access & (ACCESS3_READ | ACCESS3_LOOKUP)
    }
}

/// The reply of ACCESS: the attributes of the object as the file system
/// answered them, and the rights granted.
pub open spec fn access_reply(
    xid: u32,
    writable: bool,
    access: u32,
    obj: Result<fattr3, nfsstat3>,
) -> Seq<u8> {
    attr_reply(xid, nfsstat3::NFS3_OK, post_attr(obj)) + u32::encoding(granted(writable, access))
}

/// What ACCESS may reply to the arguments `args`.
pub open spec fn access_replies<F: NFSFileSystem>(
    fs: &F,
    xid: u32,
    args: Result<(ACCESS3args_view, int), XdrError>,
    reply: Seq<u8>,
) -> bool {
    match args {
        Err(_) => reply == garbage_reply(xid),
        Ok((a, _)) => match handle_id(fs.serverid_spec(), a.object) {
            Err(stat) => reply == attr_reply(xid, stat, post_op_attr::Void),
            Ok(id) => exists|obj: Result<fattr3, nfsstat3>|
                #[trigger] fs.getattr_answers(id, obj) && reply == access_reply(
                    xid,
                    writable(fs),
                    a.access,
                    obj,
                ),
        },
    }
}

/// ACCESS: which access rights the caller has. The mode bits of the object
/// are not consulted.
pub fn nfsproc3_access<F: NFSFileSystem>(
    xid: u32,
    input: &mut ByteReader,
    output: &mut Vec<u8>,
    context: &RPCContext<F>,
)
    ensures
        final(input).data@ == old(input).data@,
        extends(old(output)@, final(output)@),
        read_to(
            ACCESS3args::decoding(old(input).data@, old(input).pos as int),
            final(input).pos as int,
        ),
        access_replies(
            &*context.vfs,
            xid,
            ACCESS3args::decoding(old(input).data@, old(input).pos as int),
            appended(old(output)@, final(output)@),
        ),
{
    let mut args = ACCESS3args::default();
    if args.deserialize(input).is_err() {
        write_garbage(xid, output);
        proof {
            lemma_appended(old(output)@, garbage_reply(xid));
        }
        return ;
    }
    let id = match context.vfs.fh_to_id(&args.object) {
        Ok(id) => id,
        Err(stat) => {
            write_attr_reply(xid, stat, post_op_attr::Void, output);
            proof {
                lemma_appended(old(output)@, attr_reply(xid, stat, post_op_attr::Void));
            }
            return ;
        },
    };
    let obj = context.vfs.getattr(id);
    let can = can_write(context);
    let rights = grant_access(can, args.access);
    write_attr_reply(xid, nfsstat3::NFS3_OK, post_op(&obj), output);
    rights.serialize(output);
    proof {
        let reply = access_reply(xid, can, args.access, obj);
        assert(args@.access == args.access);
        assert(output@ =~= old(output)@ + reply);
        lemma_appended(old(output)@, reply);
        assert(context.vfs.getattr_answers(id, obj));
    }
}

/// Whether the attributes of an object say that it is no symbolic link.
pub open spec fn not_a_link(attr: Result<fattr3, nfsstat3>) -> bool {
    attr matches Ok(a) && a.ftype != ftype3::NF3LNK
}

/// The reply of READLINK to what the file system answered: the attributes
/// of the object, and where the link points. An object whose attributes
/// say that it is no symbolic link has the wrong type, and the file system
/// is not asked for its target.
pub open spec fn readlink_reply(
    xid: u32,
    attr: Result<fattr3, nfsstat3>,
    target: Result<nfspath3, nfsstat3>,
) -> Seq<u8> {
    if not_a_link(attr) {
        attr_reply(xid, nfsstat3::NFS3ERR_BADTYPE, post_attr(attr))
    } else {
        match target {
            Ok(path) => if path@.len() < u32::MAX {
                attr_reply(xid, nfsstat3::NFS3_OK, post_attr(attr)) + nfsstring::encoding(path@)
            } else {
                attr_reply(xid, nfsstat3::NFS3ERR_SERVERFAULT, post_attr(attr))
            },
            Err(stat) => attr_reply(xid, stat, post_attr(attr)),
        }
    }
}

/// Whether `attr` and `target` are what the file system answers when
/// READLINK asks it: for the attributes of the object and, unless they say
/// that it is no symbolic link, for where the link points.
pub open spec fn readlink_asked<F: NFSFileSystem>(
    fs: &F,
    id: fileid3,
    attr: Result<fattr3, nfsstat3>,
    target: Result<nfspath3, nfsstat3>,
) -> bool {
    &&& fs.getattr_answers(id, attr)
    &&& !not_a_link(attr) ==> fs.readlink_answers(id, target)
}

/// What READLINK may reply to the arguments `args`.
pub open spec fn readlink_replies<F: NFSFileSystem>(
    fs: &F,
    xid: u32,
    args: Result<(Seq<u8>, int), XdrError>,
    reply: Seq<u8>,
) -> bool {
    match args {
        Err(_) => reply == garbage_reply(xid),
        Ok((fh, _)) => match handle_id(fs.serverid_spec(), fh) {
            Err(stat) => reply == attr_reply(xid, stat, post_op_attr::Void),
            Ok(id) => exists|attr: Result<fattr3, nfsstat3>, target: Result<nfspath3, nfsstat3>|
                #[trigger] readlink_asked(fs, id, attr, target) && reply == readlink_reply(
                    xid,
                    attr,
                    target,
                ),
        },
    }
}

/// Whether the attributes of an object say that it is no symbolic link.
pub fn is_not_a_link(attr: &Result<fattr3, nfsstat3>) -> (b: bool)
    ensures
        b == not_a_link(*attr),
{
    match attr {
        Ok(a) => match a.ftype {
            ftype3::NF3LNK => false,
            _ => true,
        },
        Err(_) => false,
    }
}

/// Appends the reply of READLINK to what the file system answered. What it
/// answered for the target counts only for an object that may be a link.
pub fn write_readlink_reply(
    xid: u32,
    attr: &Result<fattr3, nfsstat3>,
    target: &Result<nfspath3, nfsstat3>,
    output: &mut Vec<u8>,
)
    ensures
        final(output)@ == old(output)@ + readlink_reply(xid, *attr, *target),
{
    let symlink_attr = post_op(attr);
    if is_not_a_link(attr) {
        write_attr_reply(xid, nfsstat3::NFS3ERR_BADTYPE, symlink_attr, output);
        return ;
    }
    match target {
        Ok(path) => {
            if path.len() < u32::MAX as usize {
                write_attr_reply(xid, nfsstat3::NFS3_OK, symlink_attr, output);
                path.serialize(output);
                assert(output@ =~= old(output)@ + readlink_reply(xid, *attr, *target));
            } else {
                write_attr_reply(xid, nfsstat3::NFS3ERR_SERVERFAULT, symlink_attr, output);
            }
        },
        Err(stat) => {
            write_attr_reply(xid, *stat, symlink_attr, output);
        },
    }
}

/// READLINK: where a symbolic link points.
pub fn nfsproc3_readlink<F: NFSFileSystem>(
    xid: u32,
    input: &mut ByteReader,
    output: &mut Vec<u8>,
    context: &RPCContext<F>,
)
    ensures
        final(input).data@ == old(input).data@,
        extends(old(output)@, final(output)@),
        read_to(nfs_fh3::decoding(old(input).data@, old(input).pos as int), final(input).pos as int),
        readlink_replies(
            &*context.vfs,
            xid,
            nfs_fh3::decoding(old(input).data@, old(input).pos as int),
            appended(old(output)@, final(output)@),
        ),
{
    let mut handle = nfs_fh3::default();
    if handle.deserialize(input).is_err() {
        write_garbage(xid, output);
        proof {
            lemma_appended(old(output)@, garbage_reply(xid));
        }
        return ;
    }
    let id = match context.vfs.fh_to_id(&handle) {
        Ok(id) => id,
        Err(stat) => {
            write_attr_reply(xid, stat, post_op_attr::Void, output);
            proof {
                lemma_appended(old(output)@, attr_reply(xid, stat, post_op_attr::Void));
            }
            return ;
        },
    };
    let attr = context.vfs.getattr(id);
    let target = if is_not_a_link(&attr) {
        Err(nfsstat3::NFS3ERR_BADTYPE)
    } else {
        context.vfs.readlink(id)
    };
    write_readlink_reply(xid, &attr, &target, output);
    proof {
        lemma_appended(old(output)@, readlink_reply(xid, attr, target));
        assert(readlink_asked(&*context.vfs, id, attr, target));
    }
}

/// The reply of READ to what the file system answered: the attributes of
/// the file, and the bytes read with their number and whether they reach
/// the end of the file.
pub open spec fn read_reply(
    xid: u32,
    attr: Result<fattr3, nfsstat3>,
    data: Result<(Vec<u8>, bool), nfsstat3>,
) -> Seq<u8> {
    match data {
        Ok((bytes, eof)) => if bytes@.len() < u32::MAX {
            status_reply(xid, nfsstat3::NFS3_OK) + READ3resok::encoding(
                READ3resok_view {
                    file_attributes: post_attr(attr),
                    count: bytes@.len() as u32,
                    eof,
                    data: bytes@,
                },
            )
        } else {
            attr_reply(xid, nfsstat3::NFS3ERR_IO, post_attr(attr))
        },
        Err(stat) => attr_reply(xid, stat, post_attr(attr)),
    }
}

/// Whether `attr` and `data` are what the file system answers when READ
/// asks it: for the attributes of the file, and for `count` bytes of it at
/// `offset`.
pub open spec fn read_asked<F: NFSFileSystem>(
    fs: &F,
    id: fileid3,
    offset: u64,
    count: u32,
    attr: Result<fattr3, nfsstat3>,
    data: Result<(Vec<u8>, bool), nfsstat3>,
) -> bool {
    fs.getattr_answers(id, attr) && fs.read_answers(id, offset, count, data)
}

/// What READ may reply to the arguments `args`.
pub open spec fn read_replies<F: NFSFileSystem>(
    fs: &F,
    xid: u32,
    args: Result<(READ3args_view, int), XdrError>,
    reply: Seq<u8>,
) -> bool {
    match args {
        Err(_) => reply == garbage_reply(xid),
        Ok((a, _)) => match handle_id(fs.serverid_spec(), a.file) {
            Err(stat) => reply == attr_reply(xid, stat, post_op_attr::Void),
            Ok(id) => exists|
                attr: Result<fattr3, nfsstat3>,
                data: Result<(Vec<u8>, bool), nfsstat3>,
            |
                #[trigger] read_asked(fs, id, a.offset, a.count, attr, data) && reply
                    == read_reply(xid, attr, data),
        },
    }
}

/// Appends the reply of READ to what the file system answered.
pub fn write_read_reply(
    xid: u32,
    attr: &Result<fattr3, nfsstat3>,
    data: Result<(Vec<u8>, bool), nfsstat3>,
    output: &mut Vec<u8>,
)
    ensures
        final(output)@ == old(output)@ + read_reply(xid, *attr, data),
{
    let obj_attr = post_op(attr);
    match data {
        Ok((bytes, eof)) => {
            if bytes.len() < u32::MAX as usize {
                let res = READ3resok {
                    file_attributes: obj_attr,
                    count: bytes.len() as u32,
                    eof,
                    data: bytes,
                };
                write_status(xid, nfsstat3::NFS3_OK, output);
                res.serialize(output);
                assert(output@ =~= old(output)@ + read_reply(xid, *attr, data));
            } else {
                write_attr_reply(xid, nfsstat3::NFS3ERR_IO, obj_attr, output);
            }
        },
        Err(stat) => {
            write_attr_reply(xid, stat, obj_attr, output);
        },
    }
}

/// READ: bytes of a file.
pub fn nfsproc3_read<F: NFSFileSystem>(
    xid: u32,
    input: &mut ByteReader,
    output: &mut Vec<u8>,
    context: &RPCContext<F>,
)
    ensures
        final(input).data@ == old(input).data@,
        extends(old(output)@, final(output)@),
        read_to(
            READ3args::decoding(old(input).data@, old(input).pos as int),
            final(input).pos as int,
        ),
        read_replies(
            &*context.vfs,
            xid,
            READ3args::decoding(old(input).data@, old(input).pos as int),
            appended(old(output)@, final(output)@),
        ),
{
    let mut args = READ3args::default();
    if args.deserialize(input).is_err() {
        write_garbage(xid, output);
        proof {
            lemma_appended(old(output)@, garbage_reply(xid));
        }
        return ;
    }
    assert(args@.offset == args.offset && args@.count == args.count);
    let id = match context.vfs.fh_to_id(&args.file) {
        Ok(id) => id,
        Err(stat) => {
            write_attr_reply(xid, stat, post_op_attr::Void, output);
            proof {
                lemma_appended(old(output)@, attr_reply(xid, stat, post_op_attr::Void));
            }
            return ;
        },
    };
    let attr = context.vfs.getattr(id);
    let data = context.vfs.read(id, args.offset, args.count);
    let ghost answer = data;
    write_read_reply(xid, &attr, data, output);
    proof {
        lemma_appended(old(output)@, read_reply(xid, attr, answer));
        assert(read_asked(&*context.vfs, id, args.offset, args.count, attr, answer));
    }
}

/// The reply of WRITE to what the file system answered: the attributes of
/// the file from before and after, the number of bytes written, that they
/// are on stable storage, and the identifier of the server instance.
pub open spec fn write_reply(
    xid: u32,
    serverid: Seq<u8>,
    count: u32,
    before: Result<fattr3, nfsstat3>,
    written: Result<fattr3, nfsstat3>,
) -> Seq<u8> {
    match written {
        Ok(after) => status_reply(xid, nfsstat3::NFS3_OK) + WRITE3resok::encoding(
            WRITE3resok_view {
                file_wcc: wcc_data {
                    before: pre_attr(before),
                    after: post_op_attr::attributes(after),
                },
                count,
                committed: stable_how::FILE_SYNC,
                verf: serverid,
            },
        ),
        Err(stat) => wcc_reply(xid, stat, no_wcc()),
    }
}

/// Whether `before` and `written` are what the file system answers when
/// WRITE asks it: for the attributes of the file, and to write `data` into
/// it at `offset`.
pub open spec fn write_asked<F: NFSFileSystem>(
    fs: &F,
    id: fileid3,
    offset: u64,
    data: Seq<u8>,
    before: Result<fattr3, nfsstat3>,
    written: Result<fattr3, nfsstat3>,
) -> bool {
    fs.getattr_answers(id, before) && fs.write_answers(id, offset, data, written)
}

/// What WRITE may reply to the arguments `args`. A read-only file system
/// refuses before anything is decoded; a byte count that is not the length
/// of the data is garbage.
pub open spec fn write_replies<F: NFSFileSystem>(
    fs: &F,
    xid: u32,
    args: Result<(WRITE3args_view, int), XdrError>,
    reply: Seq<u8>,
) -> bool {
    if !writable(fs) {
        reply == rofs_reply(xid)
    } else {
        match args {
            Err(_) => reply == garbage_reply(xid),
            Ok((a, _)) => if a.data.len() != a.count {
                reply == garbage_reply(xid)
            } else {
                match handle_id(fs.serverid_spec(), a.file) {
                    Err(stat) => reply == wcc_reply(xid, stat, no_wcc()),
                    Ok(id) => exists|
                        before: Result<fattr3, nfsstat3>,
                        written: Result<fattr3, nfsstat3>,
                    |
                        #[trigger] write_asked(fs, id, a.offset, a.data, before, written)
                            && reply == write_reply(
                            xid,
                            fs.serverid_spec(),
                            a.count,
                            before,
                            written,
                        ),
                }
            },
        }
    }
}

/// Whether the cursor stands where a procedure that changes the file
/// system leaves it: behind its arguments where they decode, and where it
/// stood where the file system takes no changes.
pub open spec fn read_if<T>(
    takes_changes: bool,
    args: Result<(T, int), XdrError>,
    before: int,
    pos: int,
) -> bool {
    if takes_changes {
        read_to(args, pos)
    } else {
        pos == before
    }
}

/// The attributes to report from before an operation: those read, or none
/// where they could not be read.
pub fn pre_op_of(r: &Result<fattr3, nfsstat3>) -> (a: pre_op_attr)
    ensures
        a == pre_attr(*r),
{
    match r {
        Ok(v) => pre_op(v),
        Err(_) => pre_op_attr::Void,
    }
}

/// Appends the reply that refuses a change to a read-only file system.
pub fn write_rofs(xid: u32, output: &mut Vec<u8>)
    ensures
        final(output)@ == old(output)@ + rofs_reply(xid),
        extends(old(output)@, final(output)@),
        appended(old(output)@, final(output)@) == rofs_reply(xid),
{
    write_wcc_reply(xid, nfsstat3::NFS3ERR_ROFS, wcc_data::default(), output);
    proof {
        lemma_appended(old(output)@, rofs_reply(xid));
    }
}

/// Appends the reply of WRITE to what the file system answered.
pub fn write_write_reply<F: NFSFileSystem>(
    xid: u32,
    count: u32,
    before: &Result<fattr3, nfsstat3>,
    written: &Result<fattr3, nfsstat3>,
    output: &mut Vec<u8>,
    context: &RPCContext<F>,
)
    ensures
        final(output)@ == old(output)@ + write_reply(
            xid,
            context.vfs.serverid_spec(),
            count,
            *before,
            *written,
        ),
{
    match written {
        Ok(fattr) => {
            let res = WRITE3resok {
                file_wcc: wcc_data {
                    before: pre_op_of(before),
                    after: post_op_attr::attributes(*fattr),
                },
                count,
                committed: stable_how::FILE_SYNC,
                verf: context.vfs.serverid(),
            };
            write_status(xid, nfsstat3::NFS3_OK, output);
            res.serialize(output);
            assert(output@ =~= old(output)@ + write_reply(
                xid,
                context.vfs.serverid_spec(),
                count,
                *before,
                *written,
            ));
        },
        Err(stat) => {
            write_wcc_reply(xid, *stat, wcc_data::default(), output);
        },
    }
}

/// WRITE: puts bytes into a file.
pub fn nfsproc3_write<F: NFSFileSystem>(
    xid: u32,
    input: &mut ByteReader,
    output: &mut Vec<u8>,
    context: &RPCContext<F>,
)
    ensures
        final(input).data@ == old(input).data@,
        extends(old(output)@, final(output)@),
        read_if(
            writable(&*context.vfs),
            WRITE3args::decoding(old(input).data@, old(input).pos as int),
            old(input).pos as int,
            final(input).pos as int,
        ),
        write_replies(
            &*context.vfs,
            xid,
            WRITE3args::decoding(old(input).data@, old(input).pos as int),
            appended(old(output)@, final(output)@),
        ),
{
    let ghost serverid = context.vfs.serverid_spec();
    if !can_write(context) {
        write_rofs(xid, output);
        return ;
    }
    let mut args = WRITE3args::default();
    if args.deserialize(input).is_err() {
        write_garbage(xid, output);
        proof {
            lemma_appended(old(output)@, garbage_reply(xid));
        }
        return ;
    }
    assert(args@.count == args.count && args@.offset == args.offset);
    if args.data.len() != args.count as usize {
        write_garbage(xid, output);
        proof {
            lemma_appended(old(output)@, garbage_reply(xid));
        }
        return ;
    }
    let id = match context.vfs.fh_to_id(&args.file) {
        Ok(id) => id,
        Err(stat) => {
            write_wcc_reply(xid, stat, wcc_data::default(), output);
            proof {
                lemma_appended(old(output)@, wcc_reply(xid, stat, no_wcc()));
            }
            return ;
        },
    };
    let before = context.vfs.getattr(id);
    let written = context.vfs.write(id, args.offset, args.data.as_slice());
    write_write_reply(xid, args.count, &before, &written, output, context);
    proof {
        lemma_appended(old(output)@, write_reply(xid, serverid, args.count, before, written));
        assert(write_asked(&*context.vfs, id, args.offset, args.data@, before, written));
    }
}

/// The reply that reports a new object, or the failure to make one: on
/// success its handle and attributes, and in both cases the attributes of
/// the directory from before and after.
pub open spec fn made_reply(
    xid: u32,
    serverid: Seq<u8>,
    made: Result<(fileid3, post_op_attr), nfsstat3>,
    dir_wcc: wcc_data,
) -> Seq<u8> {
    match made {
        Ok((fid, attr)) => status_reply(xid, nfsstat3::NFS3_OK) + post_op_fh3::encoding(
            post_op_fh3_view::handle(handle_bytes(serverid, fid)),
        ) + post_op_attr::encoding(attr) + wcc_data::encoding(dir_wcc),
        Err(stat) => wcc_reply(xid, stat, dir_wcc),
    }
}

/// Appends the reply that reports a new object, or the failure to make one.
pub fn write_made_reply<F: NFSFileSystem>(
    xid: u32,
    made: Result<(fileid3, post_op_attr), nfsstat3>,
    dir_wcc: wcc_data,
    output: &mut Vec<u8>,
    context: &RPCContext<F>,
)
    ensures
        final(output)@ == old(output)@ + made_reply(
            xid,
            context.vfs.serverid_spec(),
            made,
            dir_wcc,
        ),
{
    match made {
        Ok((fid, attr)) => {
            write_status(xid, nfsstat3::NFS3_OK, output);
            let fh = context.vfs.id_to_fh(fid);
            post_op_fh3::handle(fh).serialize(output);
            attr.serialize(output);
            dir_wcc.serialize(output);
            assert(output@ =~= old(output)@ + made_reply(
                xid,
                context.vfs.serverid_spec(),
                made,
                dir_wcc,
            ));
        },
        Err(stat) => {
            write_wcc_reply(xid, stat, dir_wcc, output);
        },
    }
}

/// A new object with its attributes, as the reply reports them.
pub open spec fn with_attr(made: Result<(fileid3, fattr3), nfsstat3>) -> Result<
    (fileid3, post_op_attr),
    nfsstat3,
> {
    match made {
        Ok((fid, attr)) => Ok((fid, post_op_attr::attributes(attr))),
        Err(stat) => Err(stat),
    }
}

/// The arguments of CREATE: the directory and name, how to treat a file
/// that exists, and the attributes to give the file. An exclusive CREATE
/// carries no attributes, and its verifier is not read.
pub open spec fn create_args(src: Seq<u8>, pos: int) -> Result<
    ((diropargs3_view, createmode3, sattr3), int),
    XdrError,
> {
    let place = diropargs3::decoding(src, pos);
    let how = createmode3::decoding(src, next(place));
    let attr = sattr3::decoding(src, next(how));
    if place is Err {
        Err(place->Err_0)
    } else if how is Err {
        Err(how->Err_0)
    } else if val(how) == createmode3::EXCLUSIVE {
        Ok(((val(place), val(how), unset_attributes()), next(how)))
    } else if attr is Err {
        Err(attr->Err_0)
    } else {
        Ok(((val(place), val(how), val(attr)), next(attr)))
    }
}

/// The request to set no attribute.
pub open spec fn unset_attributes() -> sattr3 {
    sattr3 {
        mode: crate::nfs::set_mode3::Void,
        uid: crate::nfs::set_uid3::Void,
        gid: crate::nfs::set_gid3::Void,
        size: crate::nfs::set_size3::Void,
        atime: crate::nfs::set_atime::DONT_CHANGE,
        mtime: crate::nfs::set_mtime::DONT_CHANGE,
    }
}

/// Reads the arguments of CREATE.
pub fn read_create_args(input: &mut ByteReader) -> (r: Result<
    (diropargs3, createmode3, sattr3),
    XdrError,
>)
    ensures
        final(input).data@ == old(input).data@,
        match create_args(old(input).data@, old(input).pos as int) {
            Ok(((place, how, attr), end)) => r matches Ok((p, h, a)) && p@ == place && h == how
                && a == attr && final(input).pos == end,
            Err(e) => r == Err::<(diropargs3, createmode3, sattr3), XdrError>(e),
        },
{
    let mut place = diropargs3::default();
    place.deserialize(input)?;
    let mut how = createmode3::default();
    how.deserialize(input)?;
    let mut attr = sattr3::default();
    match how {
        createmode3::EXCLUSIVE => {},
        _ => {
            attr.deserialize(input)?;
        },
    }
    Ok((place, how, attr))
}

/// A new object without attributes, as the reply reports it.
pub open spec fn without_attr(made: Result<fileid3, nfsstat3>) -> Result<
    (fileid3, post_op_attr),
    nfsstat3,
> {
    match made {
        Ok(fid) => Ok((fid, post_op_attr::Void)),
        Err(stat) => Err(stat),
    }
}

/// Whether `made` reports what the file system answers when CREATE asks it
/// to make the file: exclusively, which applies no attributes and reports
/// none, or else with the attributes of the arguments.
pub open spec fn create_made<F: NFSFileSystem>(
    fs: &F,
    how: createmode3,
    dirid: fileid3,
    name: Seq<u8>,
    attr: sattr3,
    made: Result<(fileid3, post_op_attr), nfsstat3>,
) -> bool {
    if how == createmode3::EXCLUSIVE {
        exists|answer: Result<fileid3, nfsstat3>|
            #[trigger] fs.create_exclusive_answers(dirid, name, answer) && made == without_attr(
                answer,
            )
    } else {
        exists|answer: Result<(fileid3, fattr3), nfsstat3>|
            #[trigger] fs.create_answers(dirid, name, attr, answer) && made == with_attr(answer)
    }
}

/// Whether a guarded CREATE finds its name taken.
pub open spec fn name_taken(how: createmode3, taken: Result<fileid3, nfsstat3>) -> bool {
    how == createmode3::GUARDED && taken is Ok
}

/// Whether `before`, `taken`, `made` and `after` are what the file system
/// answers when CREATE asks it: for the attributes of the directory; if
/// the CREATE is guarded, for the name in the directory; unless the name
/// is taken, to make the file; and for the attributes of the directory
/// again.
pub open spec fn create_asked<F: NFSFileSystem>(
    fs: &F,
    how: createmode3,
    dirid: fileid3,
    name: Seq<u8>,
    attr: sattr3,
    before: Result<fattr3, nfsstat3>,
    taken: Result<fileid3, nfsstat3>,
    made: Result<(fileid3, post_op_attr), nfsstat3>,
    after: Result<fattr3, nfsstat3>,
) -> bool {
    &&& fs.getattr_answers(dirid, before)
    &&& how == createmode3::GUARDED ==> fs.lookup_answers(dirid, name, taken)
    &&& !name_taken(how, taken) ==> create_made(fs, how, dirid, name, attr, made)
    &&& fs.getattr_answers(dirid, after)
}

/// The reply of CREATE to what the file system answered: the attributes of
/// the directory before, whether the name is taken (asked only for a
/// guarded CREATE), the file made, and the attributes of the directory
/// after.
pub open spec fn create_reply(
    xid: u32,
    serverid: Seq<u8>,
    how: createmode3,
    before: Result<fattr3, nfsstat3>,
    taken: Result<fileid3, nfsstat3>,
    made: Result<(fileid3, post_op_attr), nfsstat3>,
    after: Result<fattr3, nfsstat3>,
) -> Seq<u8> {
    let dir_wcc = wcc_data { before: pre_attr(before), after: post_attr(after) };
    if name_taken(how, taken) {
        wcc_reply(xid, nfsstat3::NFS3ERR_EXIST, dir_wcc)
    } else {
        made_reply(xid, serverid, made, dir_wcc)
    }
}

/// What CREATE may reply to the arguments `args`.
pub open spec fn create_replies<F: NFSFileSystem>(
    fs: &F,
    xid: u32,
    args: Result<((diropargs3_view, createmode3, sattr3), int), XdrError>,
    reply: Seq<u8>,
) -> bool {
    if !writable(fs) {
        reply == rofs_reply(xid)
    } else {
        match args {
            Err(_) => reply == garbage_reply(xid),
            Ok(((place, how, attr), _)) => match handle_id(fs.serverid_spec(), place.dir) {
                Err(stat) => reply == wcc_reply(xid, stat, no_wcc()),
                Ok(dirid) => exists|
                    before: Result<fattr3, nfsstat3>,
                    taken: Result<fileid3, nfsstat3>,
                    made: Result<(fileid3, post_op_attr), nfsstat3>,
                    after: Result<fattr3, nfsstat3>,
                |
                    #[trigger] create_asked(
                        fs,
                        how,
                        dirid,
                        place.name,
                        attr,
                        before,
                        taken,
                        made,
                        after,
                    ) && reply == create_reply(
                        xid,
                        fs.serverid_spec(),
                        how,
                        before,
                        taken,
                        made,
                        after,
                    ),
            },
        }
    }
}

/// Asks the file system to make the file of a CREATE.
pub fn make_file<F: NFSFileSystem>(
    how: createmode3,
    dirid: fileid3,
    name: &filename3,
    attr: sattr3,
    context: &RPCContext<F>,
) -> (made: Result<(fileid3, post_op_attr), nfsstat3>)
    requires
        writable(&*context.vfs),
    ensures
        create_made(&*context.vfs, how, dirid, name@, attr, made),
{
    match how {
        createmode3::EXCLUSIVE => {
            let answer = context.vfs.create_exclusive(dirid, name);
            let made = match answer {
                Ok(fid) => Ok((fid, post_op_attr::Void)),
                Err(stat) => Err(stat),
            };
            assert(context.vfs.create_exclusive_answers(dirid, name@, answer) && made
                == without_attr(answer));
            made
        },
        _ => {
            let answer = context.vfs.create(dirid, name, attr);
            let made = report_made(&answer);
            assert(context.vfs.create_answers(dirid, name@, attr, answer) && made == with_attr(
                answer,
            ));
            made
        },
    }
}

/// CREATE: makes a regular file.
pub fn nfsproc3_create<F: NFSFileSystem>(
    xid: u32,
    input: &mut ByteReader,
    output: &mut Vec<u8>,
    context: &RPCContext<F>,
)
    ensures
        final(input).data@ == old(input).data@,
        extends(old(output)@, final(output)@),
        read_if(
            writable(&*context.vfs),
            create_args(old(input).data@, old(input).pos as int),
            old(input).pos as int,
            final(input).pos as int,
        ),
        create_replies(
            &*context.vfs,
            xid,
            create_args(old(input).data@, old(input).pos as int),
            appended(old(output)@, final(output)@),
        ),
{
    let ghost serverid = context.vfs.serverid_spec();
    if !can_write(context) {
        write_rofs(xid, output);
        return ;
    }
    let (dirops, createhow, target_attributes) = match read_create_args(input) {
        Ok(args) => args,
        Err(_) => {
            write_garbage(xid, output);
            proof {
                lemma_appended(old(output)@, garbage_reply(xid));
            }
            return ;
        },
    };
    let dirid = match context.vfs.fh_to_id(&dirops.dir) {
        Ok(id) => id,
        Err(stat) => {
            write_wcc_reply(xid, stat, wcc_data::default(), output);
            proof {
                lemma_appended(old(output)@, wcc_reply(xid, stat, no_wcc()));
            }
            return ;
        },
    };
    assert(dirops@.name == dirops.name@ && dirops@.dir == dirops.dir@);
    let before = context.vfs.getattr(dirid);
    let pre_dir_attr = pre_op_of(&before);
    let mut taken: Result<fileid3, nfsstat3> = Err(nfsstat3::NFS3ERR_NOENT);
    match createhow {
        createmode3::GUARDED => {
            taken = context.vfs.lookup(dirid, &dirops.name);
            if taken.is_ok() {
                let after = context.vfs.getattr(dirid);
                let dir_wcc = wcc_data { before: pre_dir_attr, after: post_op(&after) };
                write_wcc_reply(xid, nfsstat3::NFS3ERR_EXIST, dir_wcc, output);
                proof {
                    let none = Err::<(fileid3, post_op_attr), nfsstat3>(
                        nfsstat3::NFS3ERR_EXIST,
                    );
                    let reply = create_reply(
                        xid,
                        serverid,
                        createhow,
                        before,
                        taken,
                        none,
                        after,
                    );
                    lemma_appended(old(output)@, reply);
                    assert(create_asked(
                        &*context.vfs,
                        createhow,
                        dirid,
                        dirops.name@,
                        target_attributes,
                        before,
                        taken,
                        none,
                        after,
                    ));
                }
                return ;
            }
        },
        _ => {},
    }
    let made = make_file(createhow, dirid, &dirops.name, target_attributes, context);
    let after = context.vfs.getattr(dirid);
    let dir_wcc = wcc_data { before: pre_dir_attr, after: post_op(&after) };
    write_made_reply(xid, made, dir_wcc, output, context);
    proof {
        let reply = create_reply(xid, serverid, createhow, before, taken, made, after);
        lemma_appended(old(output)@, reply);
        assert(create_asked(
            &*context.vfs,
            createhow,
            dirid,
            dirops.name@,
            target_attributes,
            before,
            taken,
            made,
            after,
        ));
    }
}

/// The reply of MKDIR and of SYMLINK to what the file system answered: the
/// attributes of the directory before, the object made, and the attributes
/// of the directory after.
pub open spec fn dirop_reply(
    xid: u32,
    serverid: Seq<u8>,
    before: Result<fattr3, nfsstat3>,
    made: Result<(fileid3, fattr3), nfsstat3>,
    after: Result<fattr3, nfsstat3>,
) -> Seq<u8> {
    made_reply(
        xid,
        serverid,
        with_attr(made),
        wcc_data { before: pre_attr(before), after: post_attr(after) },
    )
}

/// Whether `before`, `made` and `after` are what the file system answers
/// when MKDIR asks it: for the attributes of the directory above, to make
/// the directory, and for the attributes again.
pub open spec fn mkdir_asked<F: NFSFileSystem>(
    fs: &F,
    dirid: fileid3,
    name: Seq<u8>,
    before: Result<fattr3, nfsstat3>,
    made: Result<(fileid3, fattr3), nfsstat3>,
    after: Result<fattr3, nfsstat3>,
) -> bool {
    &&& fs.getattr_answers(dirid, before)
    &&& fs.mkdir_answers(dirid, name, made)
    &&& fs.getattr_answers(dirid, after)
}

/// What MKDIR may reply to the arguments `args`.
pub open spec fn mkdir_replies<F: NFSFileSystem>(
    fs: &F,
    xid: u32,
    args: Result<(MKDIR3args_view, int), XdrError>,
    reply: Seq<u8>,
) -> bool {
    if !writable(fs) {
        reply == rofs_reply(xid)
    } else {
        match args {
            Err(_) => reply == garbage_reply(xid),
            Ok((a, _)) => match handle_id(fs.serverid_spec(), a.dirops.dir) {
                Err(stat) => reply == wcc_reply(xid, stat, no_wcc()),
                Ok(dirid) => exists|
                    before: Result<fattr3, nfsstat3>,
                    made: Result<(fileid3, fattr3), nfsstat3>,
                    after: Result<fattr3, nfsstat3>,
                |
                    #[trigger] mkdir_asked(fs, dirid, a.dirops.name, before, made, after)
                        && reply == dirop_reply(xid, fs.serverid_spec(), before, made, after),
            },
        }
    }
}

/// Whether `before`, `made` and `after` are what the file system answers
/// when SYMLINK asks it: for the attributes of the directory, to make the
/// link with the target and attributes of the arguments, and for the
/// attributes of the directory again.
pub open spec fn symlink_asked<F: NFSFileSystem>(
    fs: &F,
    dirid: fileid3,
    name: Seq<u8>,
    target: Seq<u8>,
    attr: sattr3,
    before: Result<fattr3, nfsstat3>,
    made: Result<(fileid3, fattr3), nfsstat3>,
    after: Result<fattr3, nfsstat3>,
) -> bool {
    &&& fs.getattr_answers(dirid, before)
    &&& fs.symlink_answers(dirid, name, target, attr, made)
    &&& fs.getattr_answers(dirid, after)
}

/// What SYMLINK may reply to the arguments `args`.
pub open spec fn symlink_replies<F: NFSFileSystem>(
    fs: &F,
    xid: u32,
    args: Result<(SYMLINK3args_view, int), XdrError>,
    reply: Seq<u8>,
) -> bool {
    if !writable(fs) {
        reply == rofs_reply(xid)
    } else {
        match args {
            Err(_) => reply == garbage_reply(xid),
            Ok((a, _)) => match handle_id(fs.serverid_spec(), a.dirops.dir) {
                Err(stat) => reply == wcc_reply(xid, stat, no_wcc()),
                Ok(dirid) => exists|
                    before: Result<fattr3, nfsstat3>,
                    made: Result<(fileid3, fattr3), nfsstat3>,
                    after: Result<fattr3, nfsstat3>,
                |
                    #[trigger] symlink_asked(
                        fs,
                        dirid,
                        a.dirops.name,
                        a.symlink.symlink_data,
                        a.symlink.symlink_attributes,
                        before,
                        made,
                        after,
                    ) && reply == dirop_reply(xid, fs.serverid_spec(), before, made, after),
            },
        }
    }
}

/// What a new object and its attributes are reported as.
pub fn report_made(made: &Result<(fileid3, fattr3), nfsstat3>) -> (r: Result<
    (fileid3, post_op_attr),
    nfsstat3,
>)
    ensures
        r == with_attr(*made),
{
    match made {
        Ok((fid, fattr)) => Ok((*fid, post_op_attr::attributes(*fattr))),
        Err(stat) => Err(*stat),
    }
}

/// MKDIR: makes a directory.
pub fn nfsproc3_mkdir<F: NFSFileSystem>(
    xid: u32,
    input: &mut ByteReader,
    output: &mut Vec<u8>,
    context: &RPCContext<F>,
)
    ensures
        final(input).data@ == old(input).data@,
        extends(old(output)@, final(output)@),
        read_if(
            writable(&*context.vfs),
            MKDIR3args::decoding(old(input).data@, old(input).pos as int),
            old(input).pos as int,
            final(input).pos as int,
        ),
        mkdir_replies(
            &*context.vfs,
            xid,
            MKDIR3args::decoding(old(input).data@, old(input).pos as int),
            appended(old(output)@, final(output)@),
        ),
{
    let ghost serverid = context.vfs.serverid_spec();
    if !can_write(context) {
        write_rofs(xid, output);
        return ;
    }
    let mut args = MKDIR3args::default();
    if args.deserialize(input).is_err() {
        write_garbage(xid, output);
        proof {
            lemma_appended(old(output)@, garbage_reply(xid));
        }
        return ;
    }
    let dirid = match context.vfs.fh_to_id(&args.dirops.dir) {
        Ok(id) => id,
        Err(stat) => {
            write_wcc_reply(xid, stat, wcc_data::default(), output);
            proof {
                lemma_appended(old(output)@, wcc_reply(xid, stat, no_wcc()));
            }
            return ;
        },
    };
    let before = context.vfs.getattr(dirid);
    let pre_dir_attr = pre_op_of(&before);
    assert(args@.dirops.name == args.dirops.name@ && args@.dirops.dir == args.dirops.dir@);
    let made = context.vfs.mkdir(dirid, &args.dirops.name);
    let after = context.vfs.getattr(dirid);
    let dir_wcc = wcc_data { before: pre_dir_attr, after: post_op(&after) };
    write_made_reply(xid, report_made(&made), dir_wcc, output, context);
    proof {
        let reply = dirop_reply(xid, serverid, before, made, after);
        lemma_appended(old(output)@, reply);
        assert(mkdir_asked(&*context.vfs, dirid, args.dirops.name@, before, made, after));
    }
}

/// SYMLINK: makes a symbolic link.
pub fn nfsproc3_symlink<F: NFSFileSystem>(
    xid: u32,
    input: &mut ByteReader,
    output: &mut Vec<u8>,
    context: &RPCContext<F>,
)
    ensures
        final(input).data@ == old(input).data@,
        extends(old(output)@, final(output)@),
        read_if(
            writable(&*context.vfs),
            SYMLINK3args::decoding(old(input).data@, old(input).pos as int),
            old(input).pos as int,
            final(input).pos as int,
        ),
        symlink_replies(
            &*context.vfs,
            xid,
            SYMLINK3args::decoding(old(input).data@, old(input).pos as int),
            appended(old(output)@, final(output)@),
        ),
{
    let ghost serverid = context.vfs.serverid_spec();
    if !can_write(context) {
        write_rofs(xid, output);
        return ;
    }
    let mut args = SYMLINK3args::default();
    if args.deserialize(input).is_err() {
        write_garbage(xid, output);
        proof {
            lemma_appended(old(output)@, garbage_reply(xid));
        }
        return ;
    }
    let dirid = match context.vfs.fh_to_id(&args.dirops.dir) {
        Ok(id) => id,
        Err(stat) => {
            write_wcc_reply(xid, stat, wcc_data::default(), output);
            proof {
                lemma_appended(old(output)@, wcc_reply(xid, stat, no_wcc()));
            }
            return ;
        },
    };
    let before = context.vfs.getattr(dirid);
    let pre_dir_attr = pre_op_of(&before);
    let made = context.vfs.symlink(
        dirid,
        &args.dirops.name,
        &args.symlink.symlink_data,
        &args.symlink.symlink_attributes,
    );
    let after = context.vfs.getattr(dirid);
    let dir_wcc = wcc_data { before: pre_dir_attr, after: post_op(&after) };
    write_made_reply(xid, report_made(&made), dir_wcc, output, context);
    proof {
        let reply = dirop_reply(xid, serverid, before, made, after);
        lemma_appended(old(output)@, reply);
        assert(args@.symlink.symlink_attributes == args.symlink.symlink_attributes);
        assert(args@.dirops.name == args.dirops.name@ && args@.dirops.dir == args.dirops.dir@);
        assert(args@.symlink.symlink_data == args.symlink.symlink_data@);
        assert(symlink_asked(
            &*context.vfs,
            dirid,
            args.dirops.name@,
            args.symlink.symlink_data@,
            args.symlink.symlink_attributes,
            before,
            made,
            after,
        ));
    }
}

/// The reply of REMOVE and of RMDIR to what the file system answered: the
/// attributes of the directory before, the outcome, and the attributes of
/// the directory after.
pub open spec fn remove_reply(
    xid: u32,
    before: Result<fattr3, nfsstat3>,
    removed: Result<(), nfsstat3>,
    after: Result<fattr3, nfsstat3>,
) -> Seq<u8> {
    wcc_reply(
        xid,
        status_of(removed),
        wcc_data { before: pre_attr(before), after: post_attr(after) },
    )
}

/// Whether `before`, `removed` and `after` are what the file system answers
/// when REMOVE or RMDIR asks it: for the attributes of the directory, to
/// remove the name from it, and for the attributes again.
pub open spec fn remove_asked<F: NFSFileSystem>(
    fs: &F,
    dirid: fileid3,
    name: Seq<u8>,
    before: Result<fattr3, nfsstat3>,
    removed: Result<(), nfsstat3>,
    after: Result<fattr3, nfsstat3>,
) -> bool {
    &&& fs.getattr_answers(dirid, before)
    &&& fs.remove_answers(dirid, name, removed)
    &&& fs.getattr_answers(dirid, after)
}

/// What REMOVE and RMDIR may reply to the arguments `args`.
pub open spec fn remove_replies<F: NFSFileSystem>(
    fs: &F,
    xid: u32,
    args: Result<(diropargs3_view, int), XdrError>,
    reply: Seq<u8>,
) -> bool {
    if !writable(fs) {
        reply == rofs_reply(xid)
    } else {
        match args {
            Err(_) => reply == garbage_reply(xid),
            Ok((object, _)) => match handle_id(fs.serverid_spec(), object.dir) {
                Err(stat) => reply == wcc_reply(xid, stat, no_wcc()),
                Ok(dirid) => exists|
                    before: Result<fattr3, nfsstat3>,
                    removed: Result<(), nfsstat3>,
                    after: Result<fattr3, nfsstat3>,
                |
                    #[trigger] remove_asked(fs, dirid, object.name, before, removed, after)
                        && reply == remove_reply(xid, before, removed, after),
            },
        }
    }
}

/// The status that stands for an outcome.
pub fn status<T>(r: &Result<T, nfsstat3>) -> (stat: nfsstat3)
    ensures
        stat == status_of(*r),
{
    match r {
        Ok(_) => nfsstat3::NFS3_OK,
        Err(stat) => *stat,
    }
}

/// REMOVE and RMDIR: removes a file or a directory. The file system tells
/// which by the object.
pub fn nfsproc3_remove<F: NFSFileSystem>(
    xid: u32,
    input: &mut ByteReader,
    output: &mut Vec<u8>,
    context: &RPCContext<F>,
)
    ensures
        final(input).data@ == old(input).data@,
        extends(old(output)@, final(output)@),
        read_if(
            writable(&*context.vfs),
            diropargs3::decoding(old(input).data@, old(input).pos as int),
            old(input).pos as int,
            final(input).pos as int,
        ),
        remove_replies(
            &*context.vfs,
            xid,
            diropargs3::decoding(old(input).data@, old(input).pos as int),
            appended(old(output)@, final(output)@),
        ),
{
    if !can_write(context) {
        write_rofs(xid, output);
        return ;
    }
    let mut dirops = diropargs3::default();
    if dirops.deserialize(input).is_err() {
        write_garbage(xid, output);
        proof {
            lemma_appended(old(output)@, garbage_reply(xid));
        }
        return ;
    }
    let dirid = match context.vfs.fh_to_id(&dirops.dir) {
        Ok(id) => id,
        Err(stat) => {
            write_wcc_reply(xid, stat, wcc_data::default(), output);
            proof {
                lemma_appended(old(output)@, wcc_reply(xid, stat, no_wcc()));
            }
            return ;
        },
    };
    let before = context.vfs.getattr(dirid);
    let pre_dir_attr = pre_op_of(&before);
    assert(dirops@.name == dirops.name@ && dirops@.dir == dirops.dir@);
    let removed = context.vfs.remove(dirid, &dirops.name);
    let after = context.vfs.getattr(dirid);
    let dir_wcc = wcc_data { before: pre_dir_attr, after: post_op(&after) };
    write_wcc_reply(xid, status(&removed), dir_wcc, output);
    proof {
        let reply = remove_reply(xid, before, removed, after);
        lemma_appended(old(output)@, reply);
        assert(remove_asked(&*context.vfs, dirid, dirops.name@, before, removed, after));
    }
}

/// A reply of a status and the weak cache consistency data of two
/// directories.
pub open spec fn two_wcc_reply(xid: u32, stat: nfsstat3, from: wcc_data, to: wcc_data) -> Seq<u8> {
    status_reply(xid, stat) + wcc_data::encoding(from) + wcc_data::encoding(to)
}

/// Appends a reply of a status and the weak cache consistency data of two
/// directories.
pub fn write_two_wcc_reply(
    xid: u32,
    stat: nfsstat3,
    from: wcc_data,
    to: wcc_data,
    output: &mut Vec<u8>,
)
    ensures
        final(output)@ == old(output)@ + two_wcc_reply(xid, stat, from, to),
        extends(old(output)@, final(output)@),
        appended(old(output)@, final(output)@) == two_wcc_reply(xid, stat, from, to),
{
    write_status(xid, stat, output);
    from.serialize(output);
    to.serialize(output);
    assert(output@ =~= old(output)@ + two_wcc_reply(xid, stat, from, to));
    proof {
        lemma_appended(old(output)@, two_wcc_reply(xid, stat, from, to));
    }
}

/// The reply of RENAME to what the file system answered: the attributes of
/// both directories before, the outcome, and their attributes after.
pub open spec fn rename_reply(
    xid: u32,
    from_before: Result<fattr3, nfsstat3>,
    to_before: Result<fattr3, nfsstat3>,
    renamed: Result<(), nfsstat3>,
    from_after: Result<fattr3, nfsstat3>,
    to_after: Result<fattr3, nfsstat3>,
) -> Seq<u8> {
    two_wcc_reply(
        xid,
        status_of(renamed),
        wcc_data { before: pre_attr(from_before), after: post_attr(from_after) },
        wcc_data { before: pre_attr(to_before), after: post_attr(to_after) },
    )
}

/// Whether the answers are what the file system gives when RENAME asks
/// it: for the attributes of the directory to move from and of the one to
/// move to, to move the name of the first into the second under its new
/// name, and for the attributes of both again.
pub open spec fn rename_asked<F: NFSFileSystem>(
    fs: &F,
    from_dirid: fileid3,
    from_name: Seq<u8>,
    to_dirid: fileid3,
    to_name: Seq<u8>,
    from_before: Result<fattr3, nfsstat3>,
    to_before: Result<fattr3, nfsstat3>,
    renamed: Result<(), nfsstat3>,
    from_after: Result<fattr3, nfsstat3>,
    to_after: Result<fattr3, nfsstat3>,
) -> bool {
    &&& fs.getattr_answers(from_dirid, from_before)
    &&& fs.getattr_answers(to_dirid, to_before)
    &&& fs.rename_answers(from_dirid, from_name, to_dirid, to_name, renamed)
    &&& fs.getattr_answers(from_dirid, from_after)
    &&& fs.getattr_answers(to_dirid, to_after)
}

/// What RENAME may reply to the arguments `args`. The handle of the
/// directory to move from is validated first.
pub open spec fn rename_replies<F: NFSFileSystem>(
    fs: &F,
    xid: u32,
    args: Result<(RENAME3args_view, int), XdrError>,
    reply: Seq<u8>,
) -> bool {
    if !writable(fs) {
        reply == two_wcc_reply(xid, nfsstat3::NFS3ERR_ROFS, no_wcc(), no_wcc())
    } else {
        match args {
            Err(_) => reply == garbage_reply(xid),
            Ok((a, _)) => match handle_id(fs.serverid_spec(), a.from.dir) {
                Err(stat) => reply == two_wcc_reply(xid, stat, no_wcc(), no_wcc()),
                Ok(from_dirid) => match handle_id(fs.serverid_spec(), a.to.dir) {
                    Err(stat) => reply == two_wcc_reply(xid, stat, no_wcc(), no_wcc()),
                    Ok(to_dirid) => exists|
                        from_before: Result<fattr3, nfsstat3>,
                        to_before: Result<fattr3, nfsstat3>,
                        renamed: Result<(), nfsstat3>,
                        from_after: Result<fattr3, nfsstat3>,
                        to_after: Result<fattr3, nfsstat3>,
                    |
                        #[trigger] rename_asked(
                            fs,
                            from_dirid,
                            a.from.name,
                            to_dirid,
                            a.to.name,
                            from_before,
                            to_before,
                            renamed,
                            from_after,
                            to_after,
                        ) && reply == rename_reply(
                            xid,
                            from_before,
                            to_before,
                            renamed,
                            from_after,
                            to_after,
                        ),
                },
            },
        }
    }
}

/// RENAME: moves a file from one directory and name to another.
pub fn nfsproc3_rename<F: NFSFileSystem>(
    xid: u32,
    input: &mut ByteReader,
    output: &mut Vec<u8>,
    context: &RPCContext<F>,
)
    ensures
        final(input).data@ == old(input).data@,
        extends(old(output)@, final(output)@),
        read_if(
            writable(&*context.vfs),
            RENAME3args::decoding(old(input).data@, old(input).pos as int),
            old(input).pos as int,
            final(input).pos as int,
        ),
        rename_replies(
            &*context.vfs,
            xid,
            RENAME3args::decoding(old(input).data@, old(input).pos as int),
            appended(old(output)@, final(output)@),
        ),
{
    let none = wcc_data::default();
    if !can_write(context) {
        write_two_wcc_reply(xid, nfsstat3::NFS3ERR_ROFS, none, none, output);
        return ;
    }
    let mut args = RENAME3args::default();
    if args.deserialize(input).is_err() {
        write_garbage(xid, output);
        proof {
            lemma_appended(old(output)@, garbage_reply(xid));
        }
        return ;
    }
    let from_dirid = match context.vfs.fh_to_id(&args.from.dir) {
        Ok(id) => id,
        Err(stat) => {
            write_two_wcc_reply(xid, stat, none, none, output);
            return ;
        },
    };
    let to_dirid = match context.vfs.fh_to_id(&args.to.dir) {
        Ok(id) => id,
        Err(stat) => {
            write_two_wcc_reply(xid, stat, none, none, output);
            return ;
        },
    };
    let from_before = context.vfs.getattr(from_dirid);
    let pre_from_dir_attr = pre_op_of(&from_before);
    let to_before = context.vfs.getattr(to_dirid);
    let pre_to_dir_attr = pre_op_of(&to_before);
    assert(args@.from.name == args.from.name@ && args@.from.dir == args.from.dir@);
    assert(args@.to.name == args.to.name@ && args@.to.dir == args.to.dir@);
    let renamed = context.vfs.rename(from_dirid, &args.from.name, to_dirid, &args.to.name);
    let from_after = context.vfs.getattr(from_dirid);
    let to_after = context.vfs.getattr(to_dirid);
    let from_wcc = wcc_data { before: pre_from_dir_attr, after: post_op(&from_after) };
    let to_wcc = wcc_data { before: pre_to_dir_attr, after: post_op(&to_after) };
    write_two_wcc_reply(xid, status(&renamed), from_wcc, to_wcc, output);
    assert(two_wcc_reply(xid, status_of(renamed), from_wcc, to_wcc) == rename_reply(
        xid,
        from_before,
        to_before,
        renamed,
        from_after,
        to_after,
    ));
    assert(rename_asked(
        &*context.vfs,
        from_dirid,
        args.from.name@,
        to_dirid,
        args.to.name@,
        from_before,
        to_before,
        renamed,
        from_after,
        to_after,
    ));
}

/// Whether a guard lets SETATTR go ahead on a file whose attributes last
/// changed at `ctime`.
pub open spec fn guard_passes(guard: sattrguard3, ctime: nfstime3) -> bool {
    match guard {
        sattrguard3::Void => true,
        sattrguard3::obj_ctime(c) => c == ctime,
    }
}

/// Whether a guard stops SETATTR on a file with the attributes `before`:
/// it does if the attributes were read and last changed at another time.
pub open spec fn guard_stops(guard: sattrguard3, before: Result<fattr3, nfsstat3>) -> bool {
    before matches Ok(a) && !guard_passes(guard, a.ctime)
}

/// The reply of SETATTR to what the file system answered: the attributes
/// of the object before, and those after the change.
pub open spec fn setattr_reply(
    xid: u32,
    guard: sattrguard3,
    before: Result<fattr3, nfsstat3>,
    changed: Result<fattr3, nfsstat3>,
) -> Seq<u8> {
    if guard_stops(guard, before) {
        wcc_reply(xid, nfsstat3::NFS3ERR_NOT_SYNC, no_wcc())
    } else {
        match changed {
            Ok(after) => wcc_reply(
                xid,
                nfsstat3::NFS3_OK,
                wcc_data { before: pre_attr(before), after: post_op_attr::attributes(after) },
            ),
            Err(stat) => wcc_reply(xid, stat, no_wcc()),
        }
    }
}

/// Whether `before` and `changed` are what the file system answers when
/// SETATTR asks it: for the attributes of the object and, unless the guard
/// stops the call, to set the attributes of the arguments.
pub open spec fn setattr_asked<F: NFSFileSystem>(
    fs: &F,
    id: fileid3,
    attr: sattr3,
    guard: sattrguard3,
    before: Result<fattr3, nfsstat3>,
    changed: Result<fattr3, nfsstat3>,
) -> bool {
    &&& fs.getattr_answers(id, before)
    &&& !guard_stops(guard, before) ==> fs.setattr_answers(id, attr, changed)
}

/// What SETATTR may reply to the arguments `args`.
pub open spec fn setattr_replies<F: NFSFileSystem>(
    fs: &F,
    xid: u32,
    args: Result<(SETATTR3args_view, int), XdrError>,
    reply: Seq<u8>,
) -> bool {
    if !writable(fs) {
        reply == rofs_reply(xid)
    } else {
        match args {
            Err(_) => reply == garbage_reply(xid),
            Ok((a, _)) => match handle_id(fs.serverid_spec(), a.object) {
                Err(stat) => reply == wcc_reply(xid, stat, no_wcc()),
                Ok(id) => exists|before: Result<fattr3, nfsstat3>, changed: Result<fattr3, nfsstat3>|
                    #[trigger] setattr_asked(fs, id, a.new_attribute, a.guard, before, changed)
                        && reply == setattr_reply(xid, a.guard, before, changed),
            },
        }
    }
}

/// Whether a guard stops SETATTR on a file with the attributes `before`.
pub fn guard_stops_call(guard: &sattrguard3, before: &Result<fattr3, nfsstat3>) -> (b: bool)
    ensures
        b == guard_stops(*guard, *before),
{
    match before {
        Ok(v) => !check_guard(guard, &v.ctime),
        Err(_) => false,
    }
}

/// Appends the reply of SETATTR to what the file system answered. What it
/// answered to the change counts only where the guard let the call go on.
pub fn write_setattr_reply(
    xid: u32,
    guard: &sattrguard3,
    before: &Result<fattr3, nfsstat3>,
    changed: &Result<fattr3, nfsstat3>,
    output: &mut Vec<u8>,
)
    ensures
        final(output)@ == old(output)@ + setattr_reply(xid, *guard, *before, *changed),
{
    if guard_stops_call(guard, before) {
        write_wcc_reply(xid, nfsstat3::NFS3ERR_NOT_SYNC, wcc_data::default(), output);
        return ;
    }
    match changed {
        Ok(after) => {
            let wcc = wcc_data {
                before: pre_op_of(before),
                after: post_op_attr::attributes(*after),
            };
            write_wcc_reply(xid, nfsstat3::NFS3_OK, wcc, output);
        },
        Err(stat) => {
            write_wcc_reply(xid, *stat, wcc_data::default(), output);
        },
    }
}

/// Whether a guard lets SETATTR go ahead.
pub fn check_guard(guard: &sattrguard3, ctime: &nfstime3) -> (b: bool)
    ensures
        b == guard_passes(*guard, *ctime),
{
    match guard {
        sattrguard3::Void => true,
        sattrguard3::obj_ctime(c) => c.seconds == ctime.seconds && c.nseconds == ctime.nseconds,
    }
}

/// SETATTR: changes attributes of a file.
pub fn nfsproc3_setattr<F: NFSFileSystem>(
    xid: u32,
    input: &mut ByteReader,
    output: &mut Vec<u8>,
    context: &RPCContext<F>,
)
    ensures
        final(input).data@ == old(input).data@,
        extends(old(output)@, final(output)@),
        read_if(
            writable(&*context.vfs),
            SETATTR3args::decoding(old(input).data@, old(input).pos as int),
            old(input).pos as int,
            final(input).pos as int,
        ),
        setattr_replies(
            &*context.vfs,
            xid,
            SETATTR3args::decoding(old(input).data@, old(input).pos as int),
            appended(old(output)@, final(output)@),
        ),
{
    if !can_write(context) {
        write_rofs(xid, output);
        return ;
    }
    let mut args = SETATTR3args::default();
    if args.deserialize(input).is_err() {
        write_garbage(xid, output);
        proof {
            lemma_appended(old(output)@, garbage_reply(xid));
        }
        return ;
    }
    assert(args@.guard == args.guard && args@.new_attribute == args.new_attribute);
    let id = match context.vfs.fh_to_id(&args.object) {
        Ok(id) => id,
        Err(stat) => {
            write_wcc_reply(xid, stat, wcc_data::default(), output);
            proof {
                lemma_appended(old(output)@, wcc_reply(xid, stat, no_wcc()));
            }
            return ;
        },
    };
    let before = context.vfs.getattr(id);
    let changed = if guard_stops_call(&args.guard, &before) {
        Err(nfsstat3::NFS3ERR_NOT_SYNC)
    } else {
        context.vfs.setattr(id, args.new_attribute)
    };
    write_setattr_reply(xid, &args.guard, &before, &changed, output);
    proof {
        lemma_appended(old(output)@, setattr_reply(xid, args.guard, before, changed));
        assert(setattr_asked(
            &*context.vfs,
            id,
            args.new_attribute,
            args.guard,
            before,
            changed,
        ));
    }
}

/// The results of FSINFO for an object with the attributes `obj_attributes`:
/// what the engine reports of every file system.
pub open spec fn fsinfo_results(obj_attributes: post_op_attr) -> fsinfo3 {
    standard_fsinfo(obj_attributes)
}

/// The reply of FSINFO to what the file system answered when asked for the
/// attributes of the object.
pub open spec fn fsinfo_reply(xid: u32, attr: Result<fattr3, nfsstat3>) -> Seq<u8> {
    status_reply(xid, nfsstat3::NFS3_OK) + fsinfo3::encoding(fsinfo_results(post_attr(attr)))
}

/// What FSINFO may reply to the arguments `args`.
pub open spec fn fsinfo_replies<F: NFSFileSystem>(
    fs: &F,
    xid: u32,
    args: Result<(Seq<u8>, int), XdrError>,
    reply: Seq<u8>,
) -> bool {
    match args {
        Err(_) => reply == garbage_reply(xid),
        Ok((fh, _)) => match handle_id(fs.serverid_spec(), fh) {
            Err(stat) => reply == attr_reply(xid, stat, post_op_attr::Void),
            Ok(id) => exists|attr: Result<fattr3, nfsstat3>|
                #[trigger] fs.getattr_answers(id, attr) && reply == fsinfo_reply(xid, attr),
        },
    }
}

/// FSINFO: static information on the file system.
pub fn nfsproc3_fsinfo<F: NFSFileSystem>(
    xid: u32,
    input: &mut ByteReader,
    output: &mut Vec<u8>,
    context: &RPCContext<F>,
)
    ensures
        final(input).data@ == old(input).data@,
        extends(old(output)@, final(output)@),
        read_to(nfs_fh3::decoding(old(input).data@, old(input).pos as int), final(input).pos as int),
        fsinfo_replies(
            &*context.vfs,
            xid,
            nfs_fh3::decoding(old(input).data@, old(input).pos as int),
            appended(old(output)@, final(output)@),
        ),
{
    let mut handle = nfs_fh3::default();
    if handle.deserialize(input).is_err() {
        write_garbage(xid, output);
        proof {
            lemma_appended(old(output)@, garbage_reply(xid));
        }
        return ;
    }
    let id = match context.vfs.fh_to_id(&handle) {
        Ok(id) => id,
        Err(stat) => {
            write_attr_reply(xid, stat, post_op_attr::Void, output);
            proof {
                lemma_appended(old(output)@, attr_reply(xid, stat, post_op_attr::Void));
            }
            return ;
        },
    };
    let attr = context.vfs.getattr(id);
    let res = make_fsinfo(post_op(&attr));
    write_status(xid, nfsstat3::NFS3_OK, output);
    res.serialize(output);
    proof {
        let reply = fsinfo_reply(xid, attr);
        assert(output@ =~= old(output)@ + reply);
        lemma_appended(old(output)@, reply);
        assert(context.vfs.getattr_answers(id, attr));
    }
}

/// The results of PATHCONF for an object with the attributes `obj_attributes`:
/// names of up to 32768 bytes that are not cut, kept as they are
/// and told apart by case, and owners that only a privileged user changes.
pub open spec fn pathconf_results(obj_attributes: post_op_attr) -> PATHCONF3resok {
    PATHCONF3resok {
        obj_attributes,
        linkmax: 0,
        name_max: 32768,
        no_trunc: true,
        chown_restricted: true,
        case_insensitive: false,
        case_preserving: true,
    }
}

/// The reply of PATHCONF to what the file system answered when asked for the
/// attributes of the object.
pub open spec fn pathconf_reply(xid: u32, attr: Result<fattr3, nfsstat3>) -> Seq<u8> {
    status_reply(xid, nfsstat3::NFS3_OK) + PATHCONF3resok::encoding(
        pathconf_results(post_attr(attr)),
    )
}

/// What PATHCONF may reply to the arguments `args`.
pub open spec fn pathconf_replies<F: NFSFileSystem>(
    fs: &F,
    xid: u32,
    args: Result<(Seq<u8>, int), XdrError>,
    reply: Seq<u8>,
) -> bool {
    match args {
        Err(_) => reply == garbage_reply(xid),
        Ok((fh, _)) => match handle_id(fs.serverid_spec(), fh) {
            Err(stat) => reply == attr_reply(xid, stat, post_op_attr::Void),
            Ok(id) => exists|attr: Result<fattr3, nfsstat3>|
                #[trigger] fs.getattr_answers(id, attr) && reply == pathconf_reply(xid, attr),
        },
    }
}

/// PATHCONF: what POSIX asks about a file system.
pub fn nfsproc3_pathconf<F: NFSFileSystem>(
    xid: u32,
    input: &mut ByteReader,
    output: &mut Vec<u8>,
    context: &RPCContext<F>,
)
    ensures
        final(input).data@ == old(input).data@,
        extends(old(output)@, final(output)@),
        read_to(nfs_fh3::decoding(old(input).data@, old(input).pos as int), final(input).pos as int),
        pathconf_replies(
            &*context.vfs,
            xid,
            nfs_fh3::decoding(old(input).data@, old(input).pos as int),
            appended(old(output)@, final(output)@),
        ),
{
    let mut handle = nfs_fh3::default();
    if handle.deserialize(input).is_err() {
        write_garbage(xid, output);
        proof {
            lemma_appended(old(output)@, garbage_reply(xid));
        }
        return ;
    }
    let id = match context.vfs.fh_to_id(&handle) {
        Ok(id) => id,
        Err(stat) => {
            write_attr_reply(xid, stat, post_op_attr::Void, output);
            proof {
                lemma_appended(old(output)@, attr_reply(xid, stat, post_op_attr::Void));
            }
            return ;
        },
    };
    let attr = context.vfs.getattr(id);
    let res = PATHCONF3resok {
        obj_attributes: post_op(&attr),
        linkmax: 0,
        name_max: 32768,
        no_trunc: true,
        chown_restricted: true,
        case_insensitive: false,
        case_preserving: true,
    };
    write_status(xid, nfsstat3::NFS3_OK, output);
    res.serialize(output);
    proof {
        let reply = pathconf_reply(xid, attr);
        assert(output@ =~= old(output)@ + reply);
        lemma_appended(old(output)@, reply);
        assert(context.vfs.getattr_answers(id, attr));
    }
}

/// The results of FSSTAT for an object with the attributes `obj_attributes`:
/// a tebibyte in all, free and available, as many file slots as
/// two to the thirtieth, and no promise that nothing changes.
pub open spec fn fsstat_results(obj_attributes: post_op_attr) -> FSSTAT3resok {
    FSSTAT3resok {
        obj_attributes,
        tbytes: 0x100_0000_0000,
        fbytes: 0x100_0000_0000,
        abytes: 0x100_0000_0000,
        tfiles: 0x4000_0000,
        ffiles: 0x4000_0000,
        afiles: 0x4000_0000,
        invarsec: u32::MAX,
    }
}

/// The reply of FSSTAT to what the file system answered when asked for the
/// attributes of the object.
pub open spec fn fsstat_reply(xid: u32, attr: Result<fattr3, nfsstat3>) -> Seq<u8> {
    status_reply(xid, nfsstat3::NFS3_OK) + FSSTAT3resok::encoding(fsstat_results(post_attr(attr)))
}

/// What FSSTAT may reply to the arguments `args`.
pub open spec fn fsstat_replies<F: NFSFileSystem>(
    fs: &F,
    xid: u32,
    args: Result<(Seq<u8>, int), XdrError>,
    reply: Seq<u8>,
) -> bool {
    match args {
        Err(_) => reply == garbage_reply(xid),
        Ok((fh, _)) => match handle_id(fs.serverid_spec(), fh) {
            Err(stat) => reply == attr_reply(xid, stat, post_op_attr::Void),
            Ok(id) => exists|attr: Result<fattr3, nfsstat3>|
                #[trigger] fs.getattr_answers(id, attr) && reply == fsstat_reply(xid, attr),
        },
    }
}

/// FSSTAT: how full the file system is. The numbers are made up.
pub fn nfsproc3_fsstat<F: NFSFileSystem>(
    xid: u32,
    input: &mut ByteReader,
    output: &mut Vec<u8>,
    context: &RPCContext<F>,
)
    ensures
        final(input).data@ == old(input).data@,
        extends(old(output)@, final(output)@),
        read_to(nfs_fh3::decoding(old(input).data@, old(input).pos as int), final(input).pos as int),
        fsstat_replies(
            &*context.vfs,
            xid,
            nfs_fh3::decoding(old(input).data@, old(input).pos as int),
            appended(old(output)@, final(output)@),
        ),
{
    let mut handle = nfs_fh3::default();
    if handle.deserialize(input).is_err() {
        write_garbage(xid, output);
        proof {
            lemma_appended(old(output)@, garbage_reply(xid));
        }
        return ;
    }
    let id = match context.vfs.fh_to_id(&handle) {
        Ok(id) => id,
        Err(stat) => {
            write_attr_reply(xid, stat, post_op_attr::Void, output);
            proof {
                lemma_appended(old(output)@, attr_reply(xid, stat, post_op_attr::Void));
            }
            return ;
        },
    };
    let attr = context.vfs.getattr(id);
    let res = FSSTAT3resok {
        obj_attributes: post_op(&attr),
        tbytes: 1024 * 1024 * 1024 * 1024,
        fbytes: 1024 * 1024 * 1024 * 1024,
        abytes: 1024 * 1024 * 1024 * 1024,
        tfiles: 1024 * 1024 * 1024,
        ffiles: 1024 * 1024 * 1024,
        afiles: 1024 * 1024 * 1024,
        invarsec: u32::MAX,
    };
    write_status(xid, nfsstat3::NFS3_OK, output);
    res.serialize(output);
    proof {
        let reply = fsstat_reply(xid, attr);
        assert(output@ =~= old(output)@ + reply);
        lemma_appended(old(output)@, reply);
        assert(context.vfs.getattr_answers(id, attr));
    }
}

/// An entry of a directory listing as the reply holds it: its bytes, and
/// what it counts towards the limit on the informative part.
pub struct Item {
    pub bytes: Seq<u8>,
    pub weight: int,
}

/// How many of `items` a listing takes, in order, when `written` bytes are
/// written and `weighed` is the weight so far. An entry is taken if with it
/// the bytes stay under `max_bytes` and the weight under `max_weight`; the
/// first entry that is not taken ends the listing.
pub open spec fn accepted(
    items: Seq<Item>,
    written: int,
    weighed: int,
    max_bytes: int,
    max_weight: int,
) -> nat
    decreases items.len(),
{
    if items.len() == 0 {
        0
    } else if items[0].bytes.len() + written < max_bytes && items[0].weight + weighed < max_weight {
        1 + accepted(
            items.skip(1),
            written + items[0].bytes.len(),
            weighed + items[0].weight,
            max_bytes,
            max_weight,
        )
    } else {
        0
    }
}

/// The bytes of the first `k` items, one after the other.
pub open spec fn joined(items: Seq<Item>, k: int) -> Seq<u8>
    decreases k,
{
    if k <= 0 {
        Seq::empty()
    } else {
        joined(items, k - 1) + items[k - 1].bytes
    }
}

/// A directory listing: what stands before the entries, the entries that
/// fit, the word that ends the list, and whether the directory ends with
/// it. The directory ends with the listing only if the file system says
/// that its page reaches the end and every entry of the page was taken.
pub open spec fn listing_reply(
    prefix: Seq<u8>,
    items: Seq<Item>,
    end: bool,
    max_bytes: int,
    max_weight: int,
) -> Seq<u8> {
    let m = accepted(items, prefix.len() as int, 0, max_bytes, max_weight);
    prefix + joined(items, m as int) + bool::encoding(false) + bool::encoding(
        m == items.len() && end,
    )
}

/// The bytes of the first `k` items are those of the first, then those of
/// the next `k - 1`.
pub proof fn lemma_joined_front(items: Seq<Item>, k: int)
    requires
        1 <= k <= items.len(),
    ensures
        joined(items, k) == items[0].bytes + joined(items.skip(1), k - 1),
    decreases k,
{
    if k == 1 {
        assert(joined(items, 0) =~= Seq::<u8>::empty());
        assert(joined(items.skip(1), 0) =~= Seq::<u8>::empty());
        assert(joined(items, 1) =~= items[0].bytes + joined(items.skip(1), 0));
    } else {
        lemma_joined_front(items, k - 1);
        assert(items.skip(1)[k - 2] == items[k - 1]);
        assert(joined(items, k) =~= items[0].bytes + joined(items.skip(1), k - 1));
    }
}

/// A listing takes no more entries than there are, and with those it takes
/// the bytes stay under the limit.
pub proof fn lemma_accepted_fits(
    items: Seq<Item>,
    written: int,
    weighed: int,
    max_bytes: int,
    max_weight: int,
)
    ensures
        accepted(items, written, weighed, max_bytes, max_weight) <= items.len(),
        accepted(items, written, weighed, max_bytes, max_weight) > 0 ==> written + joined(
            items,
            accepted(items, written, weighed, max_bytes, max_weight) as int,
        ).len() < max_bytes,
    decreases items.len(),
{
    let m = accepted(items, written, weighed, max_bytes, max_weight);
    if m > 0 {
        let rest = items.skip(1);
        let w = written + items[0].bytes.len();
        let d = weighed + items[0].weight;
        lemma_accepted_fits(rest, w, d, max_bytes, max_weight);
        lemma_joined_front(items, m as int);
        if m == 1 {
            assert(joined(rest, 0) =~= Seq::<u8>::empty());
        }
    }
}

/// A listing is no longer than what stands before the entries and the
/// eight bytes behind them, or else is less than eight bytes over the
/// limit on the bytes. If it leaves out an entry, it does not say that the
/// directory ends.
pub proof fn lemma_listing_fits(
    prefix: Seq<u8>,
    items: Seq<Item>,
    end: bool,
    max_bytes: int,
    max_weight: int,
)
    ensures
        listing_reply(prefix, items, end, max_bytes, max_weight).len() == prefix.len() + 8
            || listing_reply(prefix, items, end, max_bytes, max_weight).len() < max_bytes + 8,
        accepted(items, prefix.len() as int, 0, max_bytes, max_weight) < items.len()
            ==> listing_reply(prefix, items, end, max_bytes, max_weight) == prefix + joined(
            items,
            accepted(items, prefix.len() as int, 0, max_bytes, max_weight) as int,
        ) + bool::encoding(false) + bool::encoding(false),
{
    lemma_accepted_fits(items, prefix.len() as int, 0, max_bytes, max_weight);
    let m = accepted(items, prefix.len() as int, 0, max_bytes, max_weight);
    if m == 0 {
        assert(joined(items, 0) =~= Seq::<u8>::empty());
    }
}

/// The cookie verifier of a directory: the time of its last modification,
/// seconds then nanoseconds, or zeros where its attributes cannot be read.
pub open spec fn cookie_verifier(attr: Result<fattr3, nfsstat3>) -> Seq<u8> {
    match attr {
        Ok(a) => be32_bytes(a.mtime.seconds) + be32_bytes(a.mtime.nseconds),
        Err(_) => crate::xdr::zeros(8),
    }
}

/// What stands before the entries of a listing: the status, the attributes
/// of the directory and the cookie verifier.
pub open spec fn listing_prefix(xid: u32, attr: Result<fattr3, nfsstat3>) -> Seq<u8> {
    attr_reply(xid, nfsstat3::NFS3_OK, post_attr(attr)) + cookie_verifier(attr)
}

/// An entry of a READDIRPLUS reply: the word that says an entry follows,
/// and the entry with its attributes and handle. Its cookie is its file
/// identifier.
pub open spec fn plus_entry_bytes(serverid: Seq<u8>, e: DirEntry) -> Seq<u8> {
    bool::encoding(true) + entryplus3::encoding(
        entryplus3_view {
            fileid: e.fileid,
            name: e.name@,
            cookie: e.fileid,
            name_attributes: post_op_attr::attributes(e.attr),
            name_handle: post_op_fh3_view::handle(handle_bytes(serverid, e.fileid)),
        },
    )
}

/// An entry of a READDIR reply: the word that says an entry follows, and
/// the entry. Its cookie is its file identifier.
pub open spec fn simple_entry_bytes(e: DirEntrySimple) -> Seq<u8> {
    bool::encoding(true) + entry3::encoding(
        entry3_view { fileid: e.fileid, name: e.name@, cookie: e.fileid },
    )
}

/// What an entry counts towards the limit on the informative part of a
/// READDIRPLUS reply: its file identifier, the length word and the bytes of
/// its name, and its cookie.
pub open spec fn entry_weight(name: Seq<u8>) -> int {
    8 + 4 + name.len() as int + 8
}

/// The entries of a page as a READDIRPLUS reply holds them.
pub open spec fn plus_items(serverid: Seq<u8>, entries: Seq<DirEntry>) -> Seq<Item> {
    Seq::new(
        entries.len(),
        |i: int|
            Item {
                bytes: plus_entry_bytes(serverid, entries[i]),
                weight: entry_weight(entries[i].name@),
            },
    )
}

/// The entries of a page as a READDIR reply holds them. They weigh nothing:
/// READDIR limits the bytes only.
pub open spec fn simple_items(entries: Seq<DirEntrySimple>) -> Seq<Item> {
    Seq::new(entries.len(), |i: int| Item { bytes: simple_entry_bytes(entries[i]), weight: 0 })
}

/// The reply of READDIRPLUS to what the file system answered: the
/// attributes of the directory and a page of it. The reply stays 128 bytes
/// under `maxcount`, and the informative part under `dircount`.
pub open spec fn readdirplus_reply(
    xid: u32,
    serverid: Seq<u8>,
    dircount: u32,
    maxcount: u32,
    attr: Result<fattr3, nfsstat3>,
    page: Result<ReadDirResult, nfsstat3>,
) -> Seq<u8> {
    match page {
        Ok(result) => listing_reply(
            listing_prefix(xid, attr),
            plus_items(serverid, result.entries@),
            result.end,
            maxcount - 128,
            dircount as int,
        ),
        Err(stat) => attr_reply(xid, stat, post_attr(attr)),
    }
}

/// The reply of READDIR to what the file system answered: the attributes
/// of the directory and a page of it. The reply stays 128 bytes under
/// `dircount`.
pub open spec fn readdir_reply(
    xid: u32,
    dircount: u32,
    attr: Result<fattr3, nfsstat3>,
    page: Result<ReadDirSimpleResult, nfsstat3>,
) -> Seq<u8> {
    match page {
        Ok(result) => listing_reply(
            listing_prefix(xid, attr),
            simple_items(result.entries@),
            result.end,
            dircount - 128,
            1,
        ),
        Err(stat) => attr_reply(xid, stat, post_attr(attr)),
    }
}

/// What stands before the entries of a listing.
pub fn listing_head(xid: u32, attr: &Result<fattr3, nfsstat3>) -> (head: Vec<u8>)
    ensures
        head@ == listing_prefix(xid, *attr),
{
    let mut head: Vec<u8> = Vec::new();
    write_attr_reply(xid, nfsstat3::NFS3_OK, post_op(attr), &mut head);
    match attr {
        Ok(a) => {
            a.mtime.seconds.serialize(&mut head);
            a.mtime.nseconds.serialize(&mut head);
        },
        Err(_) => {
            crate::xdr::append_zeros(&mut head, 8);
        },
    }
    assert(head@ =~= listing_prefix(xid, *attr));
    head
}

/// Offers an entry to a listing: the entry is written if with it the bytes
/// and the weight stay under their limits.
pub fn offer_entry(
    counting: &mut WriteCounter,
    scratch: &Vec<u8>,
    weight: u64,
    weighed: &mut u64,
    max_bytes: usize,
    max_weight: u64,
) -> (taken: bool)
    requires
        weight <= 0x2_0000_0000,
        *old(weighed) <= 0x1_0000_0000,
        max_weight <= 0x1_0000_0000,
    ensures
        taken == (scratch@.len() + old(counting).written() < max_bytes && weight + *old(weighed)
            < max_weight),
        taken ==> final(counting).contents() == old(counting).contents() + scratch@,
        taken ==> final(counting).written() == old(counting).written() + scratch@.len(),
        taken ==> *final(weighed) == *old(weighed) + weight,
        !taken ==> *final(counting) == *old(counting) && *final(weighed) == *old(weighed),
{
    let written: usize = counting.bytes_written();
    if written < max_bytes && scratch.len() < max_bytes - written && weight + *weighed
        < max_weight {
        counting.write(scratch.as_slice());
        *weighed = *weighed + weight;
        true
    } else {
        false
    }
}

/// Ends a listing: the word that says no entry follows, and whether the
/// directory ends here.
pub fn finish_listing(counting: WriteCounter, eof: bool) -> (reply: Vec<u8>)
    ensures
        reply@ == counting.contents() + bool::encoding(false) + bool::encoding(eof),
{
    let mut reply = counting.into_inner();
    false.serialize(&mut reply);
    eof.serialize(&mut reply);
    reply
}

/// The limit on the bytes of a listing: 128 under what the client allows.
pub fn byte_limit(count: u32) -> (limit: usize)
    ensures
        limit == if count >= 128 { count - 128 } else { 0 },
{
    if count >= 128 {
        (count - 128) as usize
    } else {
        0
    }
}

/// The listing of READDIRPLUS for a page of a directory.
pub fn readdirplus_listing<F: NFSFileSystem>(
    xid: u32,
    attr: &Result<fattr3, nfsstat3>,
    result: &ReadDirResult,
    dircount: u32,
    maxcount: u32,
    context: &RPCContext<F>,
) -> (reply: Vec<u8>)
    ensures
        reply@ == listing_reply(
            listing_prefix(xid, *attr),
            plus_items(context.vfs.serverid_spec(), result.entries@),
            result.end,
            maxcount - 128,
            dircount as int,
        ),
{
    let ghost serverid = context.vfs.serverid_spec();
    let ghost items = plus_items(serverid, result.entries@);
    let ghost prefix = listing_prefix(xid, *attr);
    let ghost mb = maxcount - 128;
    let ghost mw = dircount as int;
    let max_bytes_allowed: usize = byte_limit(maxcount);
    let max_dircount_bytes: u64 = dircount as u64;
    let head = listing_head(xid, attr);
    let mut counting_output = WriteCounter::new(Vec::new());
    counting_output.write(head.as_slice());
    assert(counting_output.contents() =~= prefix);
    let mut accumulated_dircount: u64 = 0;
    let mut all_entries_written = true;
    let n: usize = result.entries.len();
    let mut i: usize = 0;
    proof {
        assert(items.skip(0) =~= items);
        assert(joined(items, 0) =~= Seq::<u8>::empty());
    }
    while i < n && all_entries_written
        invariant
            i <= n,
            n == result.entries@.len(),
            items == plus_items(serverid, result.entries@),
            serverid == context.vfs.serverid_spec(),
            prefix == listing_prefix(xid, *attr),
            mb == maxcount - 128,
            mw == dircount as int,
            max_bytes_allowed == if maxcount >= 128 { maxcount - 128 } else { 0 },
            max_dircount_bytes == dircount,
            accumulated_dircount <= 0x1_0000_0000,
            counting_output.contents() == prefix + joined(items, i as int),
            counting_output.written() == counting_output.contents().len(),
            all_entries_written ==> accepted(items, prefix.len() as int, 0, mb, mw) == i + accepted(
                items.skip(i as int),
                counting_output.written() as int,
                accumulated_dircount as int,
                mb,
                mw,
            ),
            !all_entries_written ==> accepted(items, prefix.len() as int, 0, mb, mw) == i && i < n,
        decreases n - i + if all_entries_written { 1int } else { 0int },
    {
        let entry = &result.entries[i];
        let ghost rest = items.skip(i as int);
        assert(rest[0] == items[i as int]);
        assert(rest.skip(1) =~= items.skip(i + 1));
        if entry.name.len() >= u32::MAX as usize {
            proof {
                reveal(<entryplus3 as XDR>::encoding);
                let v = entryplus3_view {
                    fileid: entry.fileid,
                    name: entry.name@,
                    cookie: entry.fileid,
                    name_attributes: post_op_attr::attributes(entry.attr),
                    name_handle: post_op_fh3_view::handle(handle_bytes(serverid, entry.fileid)),
                };
                assert(entryplus3::encoding(v).len() >= entry.name@.len());
            }
            all_entries_written = false;
        } else {
            let handle = post_op_fh3::handle(context.vfs.id_to_fh(entry.fileid));
            let e = entryplus3 {
                fileid: entry.fileid,
                name: entry.name.duplicate(),
                cookie: entry.fileid,
                name_attributes: post_op_attr::attributes(entry.attr),
                name_handle: handle,
            };
            let mut write_buf: Vec<u8> = Vec::new();
            true.serialize(&mut write_buf);
            e.serialize(&mut write_buf);
            assert(write_buf@ =~= items[i as int].bytes);
            let added_dircount: u64 = 8 + 4 + entry.name.len() as u64 + 8;
            let taken = offer_entry(
                &mut counting_output,
                &write_buf,
                added_dircount,
                &mut accumulated_dircount,
                max_bytes_allowed,
                max_dircount_bytes,
            );
            if taken {
                i = i + 1;
            } else {
                all_entries_written = false;
            }
        }
    }
    let eof = all_entries_written && result.end;
    let reply = finish_listing(counting_output, eof);
    reply
}

/// The listing of READDIR for a page of a directory.
pub fn readdir_listing(
    xid: u32,
    attr: &Result<fattr3, nfsstat3>,
    result: &ReadDirSimpleResult,
    dircount: u32,
) -> (reply: Vec<u8>)
    ensures
        reply@ == listing_reply(
            listing_prefix(xid, *attr),
            simple_items(result.entries@),
            result.end,
            dircount - 128,
            1,
        ),
{
    let ghost items = simple_items(result.entries@);
    let ghost prefix = listing_prefix(xid, *attr);
    let ghost mb = dircount - 128;
    let max_bytes_allowed: usize = byte_limit(dircount);
    let head = listing_head(xid, attr);
    let mut counting_output = WriteCounter::new(Vec::new());
    counting_output.write(head.as_slice());
    assert(counting_output.contents() =~= prefix);
    let mut weighed: u64 = 0;
    let mut all_entries_written = true;
    let n: usize = result.entries.len();
    let mut i: usize = 0;
    proof {
        assert(items.skip(0) =~= items);
        assert(joined(items, 0) =~= Seq::<u8>::empty());
    }
    while i < n && all_entries_written
        invariant
            i <= n,
            n == result.entries@.len(),
            items == simple_items(result.entries@),
            prefix == listing_prefix(xid, *attr),
            mb == dircount - 128,
            max_bytes_allowed == if dircount >= 128 { dircount - 128 } else { 0 },
            weighed == 0,
            counting_output.contents() == prefix + joined(items, i as int),
            counting_output.written() == counting_output.contents().len(),
            all_entries_written ==> accepted(items, prefix.len() as int, 0, mb, 1) == i + accepted(
                items.skip(i as int),
                counting_output.written() as int,
                0,
                mb,
                1,
            ),
            !all_entries_written ==> accepted(items, prefix.len() as int, 0, mb, 1) == i && i < n,
        decreases n - i + if all_entries_written { 1int } else { 0int },
    {
        let entry = &result.entries[i];
        let ghost rest = items.skip(i as int);
        assert(rest[0] == items[i as int]);
        assert(rest.skip(1) =~= items.skip(i + 1));
        if entry.name.len() >= u32::MAX as usize {
            proof {
                reveal(<entry3 as XDR>::encoding);
                let v = entry3_view {
                    fileid: entry.fileid,
                    name: entry.name@,
                    cookie: entry.fileid,
                };
                assert(entry3::encoding(v).len() >= entry.name@.len());
            }
            all_entries_written = false;
        } else {
            let e = entry3 {
                fileid: entry.fileid,
                name: entry.name.duplicate(),
                cookie: entry.fileid,
            };
            let mut write_buf: Vec<u8> = Vec::new();
            true.serialize(&mut write_buf);
            e.serialize(&mut write_buf);
            assert(write_buf@ =~= items[i as int].bytes);
            let taken = offer_entry(
                &mut counting_output,
                &write_buf,
                0,
                &mut weighed,
                max_bytes_allowed,
                1,
            );
            if taken {
                i = i + 1;
            } else {
                all_entries_written = false;
            }
        }
    }
    let eof = all_entries_written && result.end;
    let reply = finish_listing(counting_output, eof);
    reply
}

/// Whether `attr` and `page` are what the file system answers when
/// READDIRPLUS asks it: for the attributes of the directory, and for the
/// entries of the directory behind the cookie, one for every sixteen bytes
/// of `dircount`.
pub open spec fn readdirplus_asked<F: NFSFileSystem>(
    fs: &F,
    dirid: fileid3,
    cookie: cookie3,
    dircount: u32,
    attr: Result<fattr3, nfsstat3>,
    page: Result<ReadDirResult, nfsstat3>,
) -> bool {
    &&& fs.getattr_answers(dirid, attr)
    &&& fs.readdir_answers(dirid, cookie, (dircount / 16) as usize, page)
}

/// What READDIRPLUS may reply to the arguments `args`. The cookie verifier
/// in the arguments is not looked at.
pub open spec fn readdirplus_replies<F: NFSFileSystem>(
    fs: &F,
    xid: u32,
    args: Result<(READDIRPLUS3args_view, int), XdrError>,
    reply: Seq<u8>,
) -> bool {
    match args {
        Err(_) => reply == garbage_reply(xid),
        Ok((a, _)) => match handle_id(fs.serverid_spec(), a.dir) {
            Err(stat) => reply == attr_reply(xid, stat, post_op_attr::Void),
            Ok(dirid) => exists|
                attr: Result<fattr3, nfsstat3>,
                page: Result<ReadDirResult, nfsstat3>,
            |
                #[trigger] readdirplus_asked(fs, dirid, a.cookie, a.dircount, attr, page)
                    && reply == readdirplus_reply(
                    xid,
                    fs.serverid_spec(),
                    a.dircount,
                    a.maxcount,
                    attr,
                    page,
                ),
        },
    }
}

/// Whether `attr` and `page` are what the file system answers when READDIR
/// asks it: for the attributes of the directory, and for the entries of
/// the directory behind the cookie, one for every sixteen bytes of
/// `dircount`, of which `page` keeps identifier and name.
pub open spec fn readdir_asked<F: NFSFileSystem>(
    fs: &F,
    dirid: fileid3,
    cookie: cookie3,
    dircount: u32,
    attr: Result<fattr3, nfsstat3>,
    page: Result<ReadDirSimpleResult, nfsstat3>,
) -> bool {
    &&& fs.getattr_answers(dirid, attr)
    &&& exists|answer: Result<ReadDirResult, nfsstat3>|
        #[trigger] fs.readdir_answers(dirid, cookie, (dircount / 16) as usize, answer)
            && plain_answer(answer, page)
}

/// What READDIR may reply to the arguments `args`. The cookie verifier in
/// the arguments is not looked at.
pub open spec fn readdir_replies<F: NFSFileSystem>(
    fs: &F,
    xid: u32,
    args: Result<(READDIR3args_view, int), XdrError>,
    reply: Seq<u8>,
) -> bool {
    match args {
        Err(_) => reply == garbage_reply(xid),
        Ok((a, _)) => match handle_id(fs.serverid_spec(), a.dir) {
            Err(stat) => reply == attr_reply(xid, stat, post_op_attr::Void),
            Ok(dirid) => exists|
                attr: Result<fattr3, nfsstat3>,
                page: Result<ReadDirSimpleResult, nfsstat3>,
            |
                #[trigger] readdir_asked(fs, dirid, a.cookie, a.dircount, attr, page) && reply
                    == readdir_reply(xid, a.dircount, attr, page),
        },
    }
}

/// How many entries to ask the file system for: one for every sixteen
/// bytes that the client allows for identifiers, names and cookies.
pub fn estimated_entries(dircount: u32) -> (n: usize)
    ensures
        n == dircount / 16,
{
    (dircount / 16) as usize
}

/// READDIRPLUS: a page of a directory, with the attributes and handles of
/// the entries. The file system is asked for the entries behind the
/// cookie.
pub fn nfsproc3_readdirplus<F: NFSFileSystem>(
    xid: u32,
    input: &mut ByteReader,
    output: &mut Vec<u8>,
    context: &RPCContext<F>,
)
    ensures
        final(input).data@ == old(input).data@,
        extends(old(output)@, final(output)@),
        read_to(
            READDIRPLUS3args::decoding(old(input).data@, old(input).pos as int),
            final(input).pos as int,
        ),
        readdirplus_replies(
            &*context.vfs,
            xid,
            READDIRPLUS3args::decoding(old(input).data@, old(input).pos as int),
            appended(old(output)@, final(output)@),
        ),
{
    let ghost serverid = context.vfs.serverid_spec();
    let mut args = READDIRPLUS3args::default();
    if args.deserialize(input).is_err() {
        write_garbage(xid, output);
        proof {
            lemma_appended(old(output)@, garbage_reply(xid));
        }
        return ;
    }
    assert(args@.dircount == args.dircount && args@.maxcount == args.maxcount && args@.cookie
        == args.cookie);
    let dirid = match context.vfs.fh_to_id(&args.dir) {
        Ok(id) => id,
        Err(stat) => {
            write_attr_reply(xid, stat, post_op_attr::Void, output);
            proof {
                lemma_appended(old(output)@, attr_reply(xid, stat, post_op_attr::Void));
            }
            return ;
        },
    };
    let attr = context.vfs.getattr(dirid);
    let page = context.vfs.readdir(dirid, args.cookie, estimated_entries(args.dircount));
    match &page {
        Ok(result) => {
            let reply = readdirplus_listing(
                xid,
                &attr,
                result,
                args.dircount,
                args.maxcount,
                context,
            );
            crate::xdr::append_bytes(output, reply.as_slice());
        },
        Err(stat) => {
            write_attr_reply(xid, *stat, post_op(&attr), output);
        },
    }
    proof {
        let reply = readdirplus_reply(xid, serverid, args.dircount, args.maxcount, attr, page);
        lemma_appended(old(output)@, reply);
        assert(readdirplus_asked(&*context.vfs, dirid, args.cookie, args.dircount, attr, page));
    }
}

/// READDIR: a page of a directory. The file system is asked for the
/// entries behind the cookie.
pub fn nfsproc3_readdir<F: NFSFileSystem>(
    xid: u32,
    input: &mut ByteReader,
    output: &mut Vec<u8>,
    context: &RPCContext<F>,
)
    ensures
        final(input).data@ == old(input).data@,
        extends(old(output)@, final(output)@),
        read_to(
            READDIR3args::decoding(old(input).data@, old(input).pos as int),
            final(input).pos as int,
        ),
        readdir_replies(
            &*context.vfs,
            xid,
            READDIR3args::decoding(old(input).data@, old(input).pos as int),
            appended(old(output)@, final(output)@),
        ),
{
    let mut args = READDIR3args::default();
    if args.deserialize(input).is_err() {
        write_garbage(xid, output);
        proof {
            lemma_appended(old(output)@, garbage_reply(xid));
        }
        return ;
    }
    assert(args@.dircount == args.dircount && args@.cookie == args.cookie);
    let dirid = match context.vfs.fh_to_id(&args.dir) {
        Ok(id) => id,
        Err(stat) => {
            write_attr_reply(xid, stat, post_op_attr::Void, output);
            proof {
                lemma_appended(old(output)@, attr_reply(xid, stat, post_op_attr::Void));
            }
            return ;
        },
    };
    let attr = context.vfs.getattr(dirid);
    let count = estimated_entries(args.dircount);
    let page = context.vfs.readdir_simple(dirid, args.cookie, count);
    match &page {
        Ok(result) => {
            let reply = readdir_listing(xid, &attr, result, args.dircount);
            crate::xdr::append_bytes(output, reply.as_slice());
        },
        Err(stat) => {
            write_attr_reply(xid, *stat, post_op(&attr), output);
        },
    }
    proof {
        let reply = readdir_reply(xid, args.dircount, attr, page);
        lemma_appended(old(output)@, reply);
        let answer = choose|answer: Result<ReadDirResult, nfsstat3>|
            #[trigger] context.vfs.readdir_answers(dirid, args.cookie, count, answer)
                && plain_answer(answer, page);
        assert(count == (args.dircount / 16) as usize);
        assert(context.vfs.readdir_answers(
            dirid,
            args.cookie,
            (args.dircount / 16) as usize,
            answer,
        ) && plain_answer(answer, page));
        assert(readdir_asked(&*context.vfs, dirid, args.cookie, args.dircount, attr, page));
    }
}

/// The attributes of a file take 84 bytes on the wire.
pub proof fn lemma_fattr3_len(a: fattr3)
    ensures
        fattr3::encoding(a).len() == 84,
{
    reveal(<fattr3 as XDR>::encoding);
    reveal(<ftype3 as XDR>::encoding);
    reveal(<crate::nfs::specdata3 as XDR>::encoding);
    reveal(<nfstime3 as XDR>::encoding);
}

/// Attributes from after an operation take four bytes where there are
/// none, and 88 where there are.
pub proof fn lemma_post_op_attr_len(a: post_op_attr)
    ensures
        post_op_attr::encoding(a).len() == if a is Void { 4int } else { 88int },
{
    reveal(<post_op_attr as XDR>::encoding);
    match a {
        post_op_attr::Void => {},
        post_op_attr::attributes(x) => {
            lemma_fattr3_len(x);
        },
    }
}

/// The accepted header and a status take 28 bytes.
pub proof fn lemma_status_reply_len(xid: u32, stat: nfsstat3)
    ensures
        status_reply(xid, stat).len() == 28,
{
    lemma_accepted_bytes(xid, accept_body::SUCCESS);
    reveal(<nfsstat3 as XDR>::encoding);
}

/// What stands before the entries of a listing takes at most 124 bytes.
pub proof fn lemma_listing_prefix_len(xid: u32, attr: Result<fattr3, nfsstat3>)
    ensures
        listing_prefix(xid, attr).len() <= 124,
{
    lemma_status_reply_len(xid, nfsstat3::NFS3_OK);
    lemma_post_op_attr_len(post_attr(attr));
}

/// The reply of READDIRPLUS is never longer than `maxcount`, when that is
/// at least the 132 bytes of a listing without entries.
pub proof fn lemma_readdirplus_within_maxcount(
    xid: u32,
    serverid: Seq<u8>,
    dircount: u32,
    maxcount: u32,
    attr: Result<fattr3, nfsstat3>,
    page: Result<ReadDirResult, nfsstat3>,
)
    requires
        maxcount >= 132,
    ensures
        readdirplus_reply(xid, serverid, dircount, maxcount, attr, page).len() <= maxcount,
{
    lemma_listing_prefix_len(xid, attr);
    match page {
        Ok(result) => {
            lemma_listing_fits(
                listing_prefix(xid, attr),
                plus_items(serverid, result.entries@),
                result.end,
                maxcount - 128,
                dircount as int,
            );
        },
        Err(stat) => {
            lemma_status_reply_len(xid, stat);
            lemma_post_op_attr_len(post_attr(attr));
        },
    }
}

/// The reply of READDIRPLUS that leaves out an entry of the page does not
/// say that the directory ends: its last word is zero.
pub proof fn lemma_readdirplus_dropped_entry(
    xid: u32,
    serverid: Seq<u8>,
    dircount: u32,
    maxcount: u32,
    attr: Result<fattr3, nfsstat3>,
    result: ReadDirResult,
)
    requires
        accepted(
            plus_items(serverid, result.entries@),
            listing_prefix(xid, attr).len() as int,
            0,
            maxcount - 128,
            dircount as int,
        ) < result.entries@.len(),
    ensures
        ({
            let reply = readdirplus_reply(xid, serverid, dircount, maxcount, attr, Ok(result));
            reply.len() >= 4 && reply.subrange(reply.len() - 4, reply.len() as int) == be32_bytes(0)
        }),
{
    let prefix = listing_prefix(xid, attr);
    let items = plus_items(serverid, result.entries@);
    lemma_listing_fits(prefix, items, result.end, maxcount - 128, dircount as int);
    let reply = readdirplus_reply(xid, serverid, dircount, maxcount, attr, Ok(result));
    assert(reply.subrange(reply.len() - 4, reply.len() as int) =~= be32_bytes(0));
}

/// On a file system that takes no changes, SETATTR, WRITE, CREATE, MKDIR,
/// SYMLINK, REMOVE and RMDIR reply that it is read-only, whatever their
/// arguments; so does RENAME, for both directories.
pub proof fn lemma_read_only_refuses<F: NFSFileSystem>(
    fs: &F,
    xid: u32,
    procedure: u32,
    src: Seq<u8>,
    pos: int,
    reply: Seq<u8>,
)
    requires
        procedure == 2 || procedure == 7 || procedure == 8 || procedure == 9 || procedure == 10
            || procedure == 12 || procedure == 13 || procedure == 14,
        !writable(fs),
        nfs_replies(fs, xid, 3, procedure, src, pos, reply),
    ensures
        procedure != 14 ==> reply == rofs_reply(xid),
        procedure == 14 ==> reply == two_wcc_reply(xid, nfsstat3::NFS3ERR_ROFS, no_wcc(), no_wcc()),
        reply.len() >= 32 && reply.subrange(24, 28) == be32_bytes(30),
{
    lemma_status_reply_len(xid, nfsstat3::NFS3ERR_ROFS);
    lemma_accepted_bytes(xid, accept_body::SUCCESS);
    reveal(<nfsstat3 as XDR>::encoding);
    reveal(<wcc_data as XDR>::encoding);
    reveal(<pre_op_attr as XDR>::encoding);
    reveal(<post_op_attr as XDR>::encoding);
    let status = status_reply(xid, nfsstat3::NFS3ERR_ROFS);
    assert(status.subrange(24, 28) =~= be32_bytes(30));
    assert(reply.subrange(24, 28) =~= status.subrange(24, 28));
}

/// The rights that ACCESS grants on a file system that takes no changes
/// are among reading and looking up.
pub proof fn lemma_read_only_access(access: u32)
    ensures
        granted(false, access) & !3u32 == 0,
        granted(false, access) <= 3,
{
    assert((access & 3) & !3u32 == 0 && access & 3 <= 3) by (bit_vector);
}

/// What WRITE reports of a successful write: the size and the times that
/// the file had before, as the file system told them, and its attributes
/// after, as the file system returned them.
pub proof fn lemma_write_reports_both_sides(
    xid: u32,
    serverid: Seq<u8>,
    count: u32,
    before: fattr3,
    after: fattr3,
)
    ensures
        write_reply(xid, serverid, count, Ok(before), Ok(after)) == status_reply(
            xid,
            nfsstat3::NFS3_OK,
        ) + WRITE3resok::encoding(
            WRITE3resok_view {
                file_wcc: wcc_data {
                    before: pre_op_attr::attributes(
                        wcc_attr { size: before.size, mtime: before.mtime, ctime: before.ctime },
                    ),
                    after: post_op_attr::attributes(after),
                },
                count,
                committed: stable_how::FILE_SYNC,
                verf: serverid,
            },
        ),
{
}

/// The identifiers of the entries of a page.
pub open spec fn page_ids(entries: Seq<DirEntry>) -> Seq<fileid3> {
    Seq::new(entries.len(), |i: int| entries[i].fileid)
}

/// The identifiers of the entries of a plain page.
pub open spec fn plain_ids(entries: Seq<DirEntrySimple>) -> Seq<fileid3> {
    Seq::new(entries.len(), |i: int| entries[i].fileid)
}

/// Whether the file system lists the directory `dirid` as `dir`: whatever
/// it answers to `readdir` behind a cookie is a page of the entries of
/// `dir` behind that cookie, as many as it is asked for or all that are
/// left, and the page ends the directory if none is left behind it.
pub open spec fn lists<F: NFSFileSystem>(fs: &F, dirid: fileid3, dir: Seq<fileid3>) -> bool {
    forall|cookie: fileid3, max: usize, answer: Result<ReadDirResult, nfsstat3>|
        #[trigger] fs.readdir_answers(dirid, cookie, max, answer) ==> {
            &&& answer matches Ok(result)
            &&& page_ids(result.entries@) == page_behind(dir, cookie, max as nat)
            &&& result.end <==> max >= entries_behind(dir, cookie).len()
        }
}

/// How many entries of a plain page the reply of READDIR holds.
pub open spec fn readdir_taken(
    xid: u32,
    dircount: u32,
    attr: Result<fattr3, nfsstat3>,
    page: ReadDirSimpleResult,
) -> nat {
    accepted(
        simple_items(page.entries@),
        listing_prefix(xid, attr).len() as int,
        0,
        dircount - 128,
        1,
    )
}

/// How many entries of a page the reply of READDIRPLUS holds.
pub open spec fn readdirplus_taken(
    xid: u32,
    serverid: Seq<u8>,
    dircount: u32,
    maxcount: u32,
    attr: Result<fattr3, nfsstat3>,
    page: ReadDirResult,
) -> nat {
    accepted(
        plus_items(serverid, page.entries@),
        listing_prefix(xid, attr).len() as int,
        0,
        maxcount - 128,
        dircount as int,
    )
}

/// Of a directory that the file system lists as `dir`, the reply of READDIR
/// resumed at `cookie` holds the entries of `dir` behind the cookie, in
/// order, as many as fit: none at the cookie or before it. If the reply
/// says that the directory ends, it holds all that lie behind the cookie.
/// So the replies of a chain of calls, each resumed at the last cookie of
/// the one before, are the pages of which `lemma_pages_enumerate` speaks.
pub proof fn lemma_readdir_lists_behind_cookie<F: NFSFileSystem>(
    fs: &F,
    dirid: fileid3,
    dir: Seq<fileid3>,
    xid: u32,
    cookie: cookie3,
    dircount: u32,
    attr: Result<fattr3, nfsstat3>,
    page: ReadDirSimpleResult,
)
    requires
        lists(fs, dirid, dir),
        readdir_asked(fs, dirid, cookie, dircount, attr, Ok(page)),
    ensures
        readdir_taken(xid, dircount, attr, page) <= page.entries@.len(),
        plain_ids(page.entries@).take(readdir_taken(xid, dircount, attr, page) as int)
            == page_behind(dir, cookie, readdir_taken(xid, dircount, attr, page)),
        readdir_taken(xid, dircount, attr, page) == page.entries@.len() && page.end
            ==> plain_ids(page.entries@) == entries_behind(dir, cookie),
{
    let answer = choose|answer: Result<ReadDirResult, nfsstat3>|
        #[trigger] fs.readdir_answers(dirid, cookie, (dircount / 16) as usize, answer)
            && plain_answer(answer, Ok(page));
    let result = answer->Ok_0;
    let m = readdir_taken(xid, dircount, attr, page);
    lemma_accepted_fits(
        simple_items(page.entries@),
        listing_prefix(xid, attr).len() as int,
        0,
        dircount - 128,
        1,
    );
    assert(plain_ids(page.entries@) =~= page_ids(result.entries@));
    let max = ((dircount / 16) as usize) as nat;
    assert(fs.readdir_answers(dirid, cookie, (dircount / 16) as usize, answer));
    assert(page_ids(result.entries@) == page_behind(dir, cookie, max));
    assert(m <= page_behind(dir, cookie, max).len());
    assert(page_behind(dir, cookie, max).take(m as int) =~= page_behind(dir, cookie, m));
    if m == page.entries@.len() && page.end {
        assert(page_behind(dir, cookie, max) =~= entries_behind(dir, cookie));
    }
}

/// Of a directory that the file system lists as `dir`, the reply of
/// READDIRPLUS resumed at `cookie` holds the entries of `dir` behind the
/// cookie, in order, as many as fit. If the reply says that the directory
/// ends, it holds all that lie behind the cookie.
pub proof fn lemma_readdirplus_lists_behind_cookie<F: NFSFileSystem>(
    fs: &F,
    dirid: fileid3,
    dir: Seq<fileid3>,
    xid: u32,
    cookie: cookie3,
    dircount: u32,
    maxcount: u32,
    attr: Result<fattr3, nfsstat3>,
    page: ReadDirResult,
)
    requires
        lists(fs, dirid, dir),
        readdirplus_asked(fs, dirid, cookie, dircount, attr, Ok(page)),
    ensures
        ({
            let m = readdirplus_taken(xid, fs.serverid_spec(), dircount, maxcount, attr, page);
            &&& m <= page.entries@.len()
            &&& page_ids(page.entries@).take(m as int) == page_behind(dir, cookie, m)
            &&& m == page.entries@.len() && page.end ==> page_ids(page.entries@)
                == entries_behind(dir, cookie)
        }),
{
    let m = readdirplus_taken(xid, fs.serverid_spec(), dircount, maxcount, attr, page);
    lemma_accepted_fits(
        plus_items(fs.serverid_spec(), page.entries@),
        listing_prefix(xid, attr).len() as int,
        0,
        maxcount - 128,
        dircount as int,
    );
    let max = ((dircount / 16) as usize) as nat;
    assert(fs.readdir_answers(dirid, cookie, (dircount / 16) as usize, Ok(page)));
    assert(page_ids(page.entries@) == page_behind(dir, cookie, max));
    assert(m <= page_behind(dir, cookie, max).len());
    assert(page_behind(dir, cookie, max).take(m as int) =~= page_behind(dir, cookie, m));
    if m == page.entries@.len() && page.end {
        assert(page_behind(dir, cookie, max) =~= entries_behind(dir, cookie));
    }
}

/// LOOKUP of a name to which the file system answers nothing but the
/// failure `stat` replies that status as it is, with the attributes that
/// the file system answered for the directory, and no handle.
pub proof fn lemma_lookup_reports_failure<F: NFSFileSystem>(
    fs: &F,
    xid: u32,
    what: diropargs3_view,
    end: int,
    dirid: fileid3,
    stat: nfsstat3,
    reply: Seq<u8>,
)
    requires
        handle_id(fs.serverid_spec(), what.dir) == Ok::<fileid3, nfsstat3>(dirid),
        forall|found: Result<fileid3, nfsstat3>| #[trigger]
            fs.lookup_answers(dirid, what.name, found) ==> found == Err::<fileid3, nfsstat3>(stat),
        lookup_replies(fs, xid, Ok((what, end)), reply),
    ensures
        exists|dir: Result<fattr3, nfsstat3>| #[trigger]
            fs.getattr_answers(dirid, dir) && reply == attr_reply(xid, stat, post_attr(dir)),
{
    let (dir, found, obj) = choose|
        dir: Result<fattr3, nfsstat3>,
        found: Result<fileid3, nfsstat3>,
        obj: Result<fattr3, nfsstat3>,
    |
        #[trigger] lookup_asked(fs, dirid, what.name, dir, found, obj) && reply == lookup_reply(
            xid,
            fs.serverid_spec(),
            dir,
            found,
            obj,
        );
    assert(fs.getattr_answers(dirid, dir) && reply == attr_reply(xid, stat, post_attr(dir)));
}

/// READ of a range to which the file system answers nothing but the bytes
/// `bytes` and the flag `eof` replies those bytes, their number and the
/// flag, with the attributes that the file system answered for the file.
pub proof fn lemma_read_reports_what_was_read<F: NFSFileSystem>(
    fs: &F,
    xid: u32,
    a: READ3args_view,
    end: int,
    id: fileid3,
    bytes: Vec<u8>,
    eof: bool,
    reply: Seq<u8>,
)
    requires
        handle_id(fs.serverid_spec(), a.file) == Ok::<fileid3, nfsstat3>(id),
        bytes@.len() < u32::MAX,
        forall|data: Result<(Vec<u8>, bool), nfsstat3>| #[trigger]
            fs.read_answers(id, a.offset, a.count, data) ==> data == Ok::<
                (Vec<u8>, bool),
                nfsstat3,
            >((bytes, eof)),
        read_replies(fs, xid, Ok((a, end)), reply),
    ensures
        exists|attr: Result<fattr3, nfsstat3>| #[trigger]
            fs.getattr_answers(id, attr) && reply == status_reply(xid, nfsstat3::NFS3_OK)
                + READ3resok::encoding(
                READ3resok_view {
                    file_attributes: post_attr(attr),
                    count: bytes@.len() as u32,
                    eof,
                    data: bytes@,
                },
            ),
{
    let (attr, data) = choose|
        attr: Result<fattr3, nfsstat3>,
        data: Result<(Vec<u8>, bool), nfsstat3>,
    |
        #[trigger] read_asked(fs, id, a.offset, a.count, attr, data) && reply == read_reply(
            xid,
            attr,
            data,
        );
    assert(fs.getattr_answers(id, attr));
}

/// WRITE of data to which the file system answers nothing but the
/// attributes `after` replies success, those attributes as the ones from
/// after, the number of bytes of the arguments, that they are on stable
/// storage, and the identifier of the server instance; the attributes from
/// before are what the file system answered for the file, or none.
pub proof fn lemma_write_reports_what_was_written<F: NFSFileSystem>(
    fs: &F,
    xid: u32,
    a: WRITE3args_view,
    end: int,
    id: fileid3,
    after: fattr3,
    reply: Seq<u8>,
)
    requires
        writable(fs),
        a.data.len() == a.count,
        handle_id(fs.serverid_spec(), a.file) == Ok::<fileid3, nfsstat3>(id),
        forall|written: Result<fattr3, nfsstat3>| #[trigger]
            fs.write_answers(id, a.offset, a.data, written) ==> written == Ok::<fattr3, nfsstat3>(
                after,
            ),
        write_replies(fs, xid, Ok((a, end)), reply),
    ensures
        exists|before: Result<fattr3, nfsstat3>| #[trigger]
            fs.getattr_answers(id, before) && reply == status_reply(xid, nfsstat3::NFS3_OK)
                + WRITE3resok::encoding(
                WRITE3resok_view {
                    file_wcc: wcc_data {
                        before: pre_attr(before),
                        after: post_op_attr::attributes(after),
                    },
                    count: a.count,
                    committed: stable_how::FILE_SYNC,
                    verf: fs.serverid_spec(),
                },
            ),
{
    let (before, written) = choose|
        before: Result<fattr3, nfsstat3>,
        written: Result<fattr3, nfsstat3>,
    |
        #[trigger] write_asked(fs, id, a.offset, a.data, before, written) && reply == write_reply(
            xid,
            fs.serverid_spec(),
            a.count,
            before,
            written,
        );
    assert(fs.getattr_answers(id, before));
}

/// CREATE that is neither guarded nor exclusive, of a name to which the
/// file system answers nothing but the file `fid` with the attributes
/// `attr`, replies success, the handle of that file and those attributes,
/// whatever the file system answered for the attributes of the directory:
/// they stand before and after, or are left out where it failed.
pub proof fn lemma_create_reports_the_file_made<F: NFSFileSystem>(
    fs: &F,
    xid: u32,
    place: diropargs3_view,
    attributes: sattr3,
    end: int,
    dirid: fileid3,
    fid: fileid3,
    attr: fattr3,
    reply: Seq<u8>,
)
    requires
        writable(fs),
        handle_id(fs.serverid_spec(), place.dir) == Ok::<fileid3, nfsstat3>(dirid),
        forall|made: Result<(fileid3, fattr3), nfsstat3>| #[trigger]
            fs.create_answers(dirid, place.name, attributes, made) ==> made == Ok::<
                (fileid3, fattr3),
                nfsstat3,
            >((fid, attr)),
        create_replies(fs, xid, Ok(((place, createmode3::UNCHECKED, attributes), end)), reply),
    ensures
        exists|before: Result<fattr3, nfsstat3>, after: Result<fattr3, nfsstat3>|
            #![trigger fs.getattr_answers(dirid, before), fs.getattr_answers(dirid, after)]
            fs.getattr_answers(dirid, before) && fs.getattr_answers(dirid, after) && reply
                == status_reply(xid, nfsstat3::NFS3_OK) + post_op_fh3::encoding(
                post_op_fh3_view::handle(handle_bytes(fs.serverid_spec(), fid)),
            ) + post_op_attr::encoding(post_op_attr::attributes(attr)) + wcc_data::encoding(
                wcc_data { before: pre_attr(before), after: post_attr(after) },
            ),
{
    let how = createmode3::UNCHECKED;
    let (before, taken, made, after) = choose|
        before: Result<fattr3, nfsstat3>,
        taken: Result<fileid3, nfsstat3>,
        made: Result<(fileid3, post_op_attr), nfsstat3>,
        after: Result<fattr3, nfsstat3>,
    |
        #[trigger] create_asked(fs, how, dirid, place.name, attributes, before, taken, made, after)
            && reply == create_reply(xid, fs.serverid_spec(), how, before, taken, made, after);
    assert(create_made(fs, how, dirid, place.name, attributes, made));
    assert(fs.getattr_answers(dirid, before) && fs.getattr_answers(dirid, after));
}

/// An exclusive CREATE of a name to which the file system answers, asked
/// to make it exclusively, nothing but the file `fid`, replies success and
/// the handle of that file without attributes, whatever attributes the
/// arguments held.
pub proof fn lemma_create_exclusive_reports_the_file_made<F: NFSFileSystem>(
    fs: &F,
    xid: u32,
    place: diropargs3_view,
    attributes: sattr3,
    end: int,
    dirid: fileid3,
    fid: fileid3,
    reply: Seq<u8>,
)
    requires
        writable(fs),
        handle_id(fs.serverid_spec(), place.dir) == Ok::<fileid3, nfsstat3>(dirid),
        forall|made: Result<fileid3, nfsstat3>| #[trigger]
            fs.create_exclusive_answers(dirid, place.name, made) ==> made == Ok::<
                fileid3,
                nfsstat3,
            >(fid),
        create_replies(fs, xid, Ok(((place, createmode3::EXCLUSIVE, attributes), end)), reply),
    ensures
        exists|before: Result<fattr3, nfsstat3>, after: Result<fattr3, nfsstat3>|
            #![trigger fs.getattr_answers(dirid, before), fs.getattr_answers(dirid, after)]
            fs.getattr_answers(dirid, before) && fs.getattr_answers(dirid, after) && reply
                == status_reply(xid, nfsstat3::NFS3_OK) + post_op_fh3::encoding(
                post_op_fh3_view::handle(handle_bytes(fs.serverid_spec(), fid)),
            ) + post_op_attr::encoding(post_op_attr::Void) + wcc_data::encoding(
                wcc_data { before: pre_attr(before), after: post_attr(after) },
            ),
{
    let how = createmode3::EXCLUSIVE;
    let (before, taken, made, after) = choose|
        before: Result<fattr3, nfsstat3>,
        taken: Result<fileid3, nfsstat3>,
        made: Result<(fileid3, post_op_attr), nfsstat3>,
        after: Result<fattr3, nfsstat3>,
    |
        #[trigger] create_asked(fs, how, dirid, place.name, attributes, before, taken, made, after)
            && reply == create_reply(xid, fs.serverid_spec(), how, before, taken, made, after);
    assert(create_made(fs, how, dirid, place.name, attributes, made));
    assert(fs.getattr_answers(dirid, before) && fs.getattr_answers(dirid, after));
}

/// RENAME replies the outcome of moving the name `from` of the first
/// directory to the name `to` of the second, where the file system answers
/// nothing but `renamed` to that: success, or its failure as it is. Around
/// it stand the attributes that the file system answered for the first
/// directory and then for the second, before and after.
pub proof fn lemma_rename_reports_its_outcome<F: NFSFileSystem>(
    fs: &F,
    xid: u32,
    a: RENAME3args_view,
    end: int,
    from_dirid: fileid3,
    to_dirid: fileid3,
    renamed: Result<(), nfsstat3>,
    reply: Seq<u8>,
)
    requires
        writable(fs),
        handle_id(fs.serverid_spec(), a.from.dir) == Ok::<fileid3, nfsstat3>(from_dirid),
        handle_id(fs.serverid_spec(), a.to.dir) == Ok::<fileid3, nfsstat3>(to_dirid),
        forall|answer: Result<(), nfsstat3>| #[trigger]
            fs.rename_answers(from_dirid, a.from.name, to_dirid, a.to.name, answer) ==> answer
                == renamed,
        rename_replies(fs, xid, Ok((a, end)), reply),
    ensures
        exists|
            from_before: Result<fattr3, nfsstat3>,
            to_before: Result<fattr3, nfsstat3>,
            from_after: Result<fattr3, nfsstat3>,
            to_after: Result<fattr3, nfsstat3>,
        |
            #![trigger
                fs.getattr_answers(from_dirid, from_before),
                fs.getattr_answers(to_dirid, to_before),
                fs.getattr_answers(from_dirid, from_after),
                fs.getattr_answers(to_dirid, to_after),
            ]
            {
                &&& fs.getattr_answers(from_dirid, from_before)
                &&& fs.getattr_answers(to_dirid, to_before)
                &&& fs.getattr_answers(from_dirid, from_after)
                &&& fs.getattr_answers(to_dirid, to_after)
                &&& reply == two_wcc_reply(
                    xid,
                    status_of(renamed),
                    wcc_data { before: pre_attr(from_before), after: post_attr(from_after) },
                    wcc_data { before: pre_attr(to_before), after: post_attr(to_after) },
                )
            },
{
    let (from_before, to_before, answer, from_after, to_after) = choose|
        from_before: Result<fattr3, nfsstat3>,
        to_before: Result<fattr3, nfsstat3>,
        answer: Result<(), nfsstat3>,
        from_after: Result<fattr3, nfsstat3>,
        to_after: Result<fattr3, nfsstat3>,
    |
        #[trigger] rename_asked(
            fs,
            from_dirid,
            a.from.name,
            to_dirid,
            a.to.name,
            from_before,
            to_before,
            answer,
            from_after,
            to_after,
        ) && reply == rename_reply(xid, from_before, to_before, answer, from_after, to_after);
    assert(fs.getattr_answers(from_dirid, from_before) && fs.getattr_answers(to_dirid, to_before)
        && fs.getattr_answers(from_dirid, from_after) && fs.getattr_answers(to_dirid, to_after));
}

/// One call of READDIR in a chain of calls on one directory: its
/// transaction, the cookie it resumed at, the byte count it allowed, and
/// what the file system answered for the attributes of the directory and
/// for the page.
pub struct ListingCall {
    pub xid: u32,
    pub cookie: cookie3,
    pub dircount: u32,
    pub attr: Result<fattr3, nfsstat3>,
    pub page: ReadDirSimpleResult,
}

/// The identifiers of the entries that the reply to a call holds, in order.
pub open spec fn call_ids(call: ListingCall) -> Seq<fileid3> {
    plain_ids(call.page.entries@).take(
        readdir_taken(call.xid, call.dircount, call.attr, call.page) as int,
    )
}

/// Whether the reply to a call says that the directory ends.
pub open spec fn call_ends(call: ListingCall) -> bool {
    readdir_taken(call.xid, call.dircount, call.attr, call.page) == call.page.entries@.len()
        && call.page.end
}

/// Whether `calls` is a chain of READDIR calls on the directory `dirid`:
/// the first resumes at `cookie`, each later one at the cookie of the last
/// entry of the reply before it, and each reply is built from what the
/// file system answered to its call.
pub open spec fn chained<F: NFSFileSystem>(
    fs: &F,
    dirid: fileid3,
    cookie: cookie3,
    calls: Seq<ListingCall>,
) -> bool
    decreases calls.len(),
{
    calls.len() > 0 ==> {
        &&& calls[0].cookie == cookie
        &&& readdir_asked(fs, dirid, cookie, calls[0].dircount, calls[0].attr, Ok(calls[0].page))
        &&& chained(fs, dirid, cookie_after(cookie, call_ids(calls[0])), calls.skip(1))
    }
}

/// The identifiers of the entries that the replies to a chain of calls
/// hold, one reply after the other.
pub open spec fn chain_ids(calls: Seq<ListingCall>) -> Seq<fileid3>
    decreases calls.len(),
{
    if calls.len() == 0 {
        Seq::empty()
    } else {
        call_ids(calls[0]) + chain_ids(calls.skip(1))
    }
}

/// A chain of READDIR calls that starts behind the first `done` entries of
/// a directory returns the entries behind them, in order and each once; if
/// the last reply says that the directory ends, none is left.
pub proof fn lemma_readdir_chain_from<F: NFSFileSystem>(
    fs: &F,
    dirid: fileid3,
    dir: Seq<fileid3>,
    cookie: cookie3,
    done: int,
    calls: Seq<ListingCall>,
)
    requires
        lists(fs, dirid, dir),
        listable(dir),
        0 <= done <= dir.len(),
        entries_behind(dir, cookie) == dir.skip(done),
        chained(fs, dirid, cookie, calls),
    ensures
        done + chain_ids(calls).len() <= dir.len(),
        chain_ids(calls) == dir.subrange(done, done + chain_ids(calls).len()),
        calls.len() > 0 && call_ends(calls.last()) ==> done + chain_ids(calls).len() == dir.len(),
    decreases calls.len(),
{
    if calls.len() == 0 {
        assert(chain_ids(calls) =~= dir.subrange(done, done));
    } else {
        let call = calls[0];
        let rest = calls.skip(1);
        let page = call_ids(call);
        let m = page.len() as int;
        lemma_readdir_lists_behind_cookie(
            fs,
            dirid,
            dir,
            call.xid,
            cookie,
            call.dircount,
            call.attr,
            call.page,
        );
        assert(page =~= dir.subrange(done, done + m));
        let next = cookie_after(cookie, page);
        if m > 0 {
            assert(page.last() == dir[done + m - 1]);
            lemma_place_of(dir, done + m - 1);
        }
        assert(entries_behind(dir, next) =~= dir.skip(done + m));
        lemma_readdir_chain_from(fs, dirid, dir, next, done + m, rest);
        assert(chain_ids(calls) =~= dir.subrange(done, done + chain_ids(calls).len()));
        if rest.len() == 0 {
            if call_ends(call) {
                assert(plain_ids(call.page.entries@).take(call.page.entries@.len() as int)
                    =~= plain_ids(call.page.entries@));
            }
        } else {
            assert(calls.last() == rest.last());
        }
    }
}

/// READDIR calls on a directory that the file system lists as `dir`, the
/// first from the cookie zero and each later one from the last cookie of
/// the reply before, return the entries of `dir` from its first on, in
/// order, none twice and none left out between them; when a reply says
/// that the directory ends, they have returned all of `dir`.
pub proof fn lemma_readdir_chain_enumerates<F: NFSFileSystem>(
    fs: &F,
    dirid: fileid3,
    dir: Seq<fileid3>,
    calls: Seq<ListingCall>,
)
    requires
        lists(fs, dirid, dir),
        listable(dir),
        chained(fs, dirid, 0, calls),
    ensures
        chain_ids(calls).len() <= dir.len(),
        chain_ids(calls) == dir.take(chain_ids(calls).len() as int),
        calls.len() > 0 && call_ends(calls.last()) ==> chain_ids(calls) == dir,
{
    assert(dir.skip(0) =~= dir);
    lemma_readdir_chain_from(fs, dirid, dir, 0, 0, calls);
    assert(dir.subrange(0, chain_ids(calls).len() as int) =~= dir.take(
        chain_ids(calls).len() as int,
    ));
    assert(dir.take(dir.len() as int) =~= dir);
}

/// The bytes that tell the caller of `xid` that the program has no such
/// procedure.
pub open spec fn proc_unavail_reply(xid: u32) -> Seq<u8> {
    rpc_msg::encoding(accepted_message(xid, accept_body::PROC_UNAVAIL))
}

/// The bytes that tell the caller of `xid` that the program is served in
/// version `version` only.
pub open spec fn prog_mismatch_reply(xid: u32, version: u32) -> Seq<u8> {
    rpc_msg::encoding(
        accepted_message(
            xid,
            accept_body::PROG_MISMATCH(mismatch_info { low: version, high: version }),
        ),
    )
}

/// What the NFS program may reply to procedure `procedure` of version
/// `vers` with the arguments at `pos` in `src`. Another version than 3 is a
/// mismatch; MKNOD, LINK, COMMIT and numbers past them are unavailable.
pub open spec fn nfs_replies<F: NFSFileSystem>(
    fs: &F,
    xid: u32,
    vers: u32,
    procedure: u32,
    src: Seq<u8>,
    pos: int,
    reply: Seq<u8>,
) -> bool {
    if vers != 3 {
        reply == prog_mismatch_reply(xid, 3)
    } else if procedure == 0 {
        reply == success_header(xid)
    } else if procedure == 1 {
        getattr_replies(fs, xid, nfs_fh3::decoding(src, pos), reply)
    } else if procedure == 2 {
        setattr_replies(fs, xid, SETATTR3args::decoding(src, pos), reply)
    } else if procedure == 3 {
        lookup_replies(fs, xid, diropargs3::decoding(src, pos), reply)
    } else if procedure == 4 {
        access_replies(fs, xid, ACCESS3args::decoding(src, pos), reply)
    } else if procedure == 5 {
        readlink_replies(fs, xid, nfs_fh3::decoding(src, pos), reply)
    } else if procedure == 6 {
        read_replies(fs, xid, READ3args::decoding(src, pos), reply)
    } else if procedure == 7 {
        write_replies(fs, xid, WRITE3args::decoding(src, pos), reply)
    } else if procedure == 8 {
        create_replies(fs, xid, create_args(src, pos), reply)
    } else if procedure == 9 {
        mkdir_replies(fs, xid, MKDIR3args::decoding(src, pos), reply)
    } else if procedure == 10 {
        symlink_replies(fs, xid, SYMLINK3args::decoding(src, pos), reply)
    } else if procedure == 12 || procedure == 13 {
        remove_replies(fs, xid, diropargs3::decoding(src, pos), reply)
    } else if procedure == 14 {
        rename_replies(fs, xid, RENAME3args::decoding(src, pos), reply)
    } else if procedure == 16 {
        readdir_replies(fs, xid, READDIR3args::decoding(src, pos), reply)
    } else if procedure == 17 {
        readdirplus_replies(fs, xid, READDIRPLUS3args::decoding(src, pos), reply)
    } else if procedure == 18 {
        fsstat_replies(fs, xid, nfs_fh3::decoding(src, pos), reply)
    } else if procedure == 19 {
        fsinfo_replies(fs, xid, nfs_fh3::decoding(src, pos), reply)
    } else if procedure == 20 {
        pathconf_replies(fs, xid, nfs_fh3::decoding(src, pos), reply)
    } else {
        reply == proc_unavail_reply(xid)
    }
}

/// Whether `end` is where the NFS program leaves the cursor that stood at
/// `pos`: behind the arguments of the procedure where they decode, and at
/// `pos` where the procedure reads none. What follows the arguments is not
/// consumed.
pub open spec fn nfs_reads(
    vers: u32,
    procedure: u32,
    takes_changes: bool,
    src: Seq<u8>,
    pos: int,
    end: int,
) -> bool {
    if vers != 3 {
        end == pos
    } else if procedure == 1 || procedure == 5 || procedure == 18 || procedure == 19 || procedure
        == 20 {
        read_to(nfs_fh3::decoding(src, pos), end)
    } else if procedure == 2 {
        read_if(takes_changes, SETATTR3args::decoding(src, pos), pos, end)
    } else if procedure == 3 {
        read_to(diropargs3::decoding(src, pos), end)
    } else if procedure == 4 {
        read_to(ACCESS3args::decoding(src, pos), end)
    } else if procedure == 6 {
        read_to(READ3args::decoding(src, pos), end)
    } else if procedure == 7 {
        read_if(takes_changes, WRITE3args::decoding(src, pos), pos, end)
    } else if procedure == 8 {
        read_if(takes_changes, create_args(src, pos), pos, end)
    } else if procedure == 9 {
        read_if(takes_changes, MKDIR3args::decoding(src, pos), pos, end)
    } else if procedure == 10 {
        read_if(takes_changes, SYMLINK3args::decoding(src, pos), pos, end)
    } else if procedure == 12 || procedure == 13 {
        read_if(takes_changes, diropargs3::decoding(src, pos), pos, end)
    } else if procedure == 14 {
        read_if(takes_changes, RENAME3args::decoding(src, pos), pos, end)
    } else if procedure == 16 {
        read_to(READDIR3args::decoding(src, pos), end)
    } else if procedure == 17 {
        read_to(READDIRPLUS3args::decoding(src, pos), end)
    } else {
        end == pos
    }
}

/// Serves a call of the NFS program.
pub fn handle_nfs<F: NFSFileSystem>(
    xid: u32,
    call: call_body,
    input: &mut ByteReader,
    output: &mut Vec<u8>,
    context: &RPCContext<F>,
)
    ensures
        final(input).data@ == old(input).data@,
        extends(old(output)@, final(output)@),
        nfs_reads(
            call.vers,
            call.proc,
            writable(&*context.vfs),
            old(input).data@,
            old(input).pos as int,
            final(input).pos as int,
        ),
        nfs_replies(
            &*context.vfs,
            xid,
            call.vers,
            call.proc,
            old(input).data@,
            old(input).pos as int,
            appended(old(output)@, final(output)@),
        ),
{
    if call.vers != VERSION {
        write_accepted(
            xid,
            accept_body::PROG_MISMATCH(mismatch_info { low: VERSION, high: VERSION }),
            output,
        );
        proof {
            lemma_appended(old(output)@, prog_mismatch_reply(xid, 3));
        }
        return ;
    }
    match call.proc {
        0 => {
            nfsproc3_null(xid, input, output);
            proof {
                lemma_appended(old(output)@, success_header(xid));
            }
        },
        1 => nfsproc3_getattr(xid, input, output, context),
        2 => nfsproc3_setattr(xid, input, output, context),
        3 => nfsproc3_lookup(xid, input, output, context),
        4 => nfsproc3_access(xid, input, output, context),
        5 => nfsproc3_readlink(xid, input, output, context),
        6 => nfsproc3_read(xid, input, output, context),
        7 => nfsproc3_write(xid, input, output, context),
        8 => nfsproc3_create(xid, input, output, context),
        9 => nfsproc3_mkdir(xid, input, output, context),
        10 => nfsproc3_symlink(xid, input, output, context),
        12 => nfsproc3_remove(xid, input, output, context),
        13 => nfsproc3_remove(xid, input, output, context),
        14 => nfsproc3_rename(xid, input, output, context),
        16 => nfsproc3_readdir(xid, input, output, context),
        17 => nfsproc3_readdirplus(xid, input, output, context),
        18 => nfsproc3_fsstat(xid, input, output, context),
        19 => nfsproc3_fsinfo(xid, input, output, context),
        20 => nfsproc3_pathconf(xid, input, output, context),
        _ => {
            write_accepted(xid, accept_body::PROC_UNAVAIL, output);
            proof {
                lemma_appended(old(output)@, proc_unavail_reply(xid));
            }
        },
    }
}

/// `reply` begins as the reply that accepts call `xid` does: the
/// transaction identifier, the words for "reply" and "accepted", and an
/// empty verifier. The outcome follows.
pub open spec fn accepts(xid: u32, reply: Seq<u8>) -> bool {
    reply.len() >= 24 && reply.subrange(0, 20) == be32_bytes(xid) + be32_bytes(1) + be32_bytes(0)
        + be32_bytes(0) + be32_bytes(0)
}

/// What begins as an accepted reply still does with more behind it.
pub proof fn lemma_accepts_more(xid: u32, reply: Seq<u8>, more: Seq<u8>)
    requires
        accepts(xid, reply),
    ensures
        accepts(xid, reply + more),
{
    assert((reply + more).subrange(0, 20) =~= reply.subrange(0, 20));
}

/// The replies that the server makes up itself are accepted replies.
pub proof fn lemma_accepts_message(xid: u32, body: accept_body)
    ensures
        accepts(xid, rpc_msg::encoding(accepted_message(xid, body))),
{
    lemma_accepted_bytes(xid, body);
    reveal(<accept_body as XDR>::encoding);
    reveal(<mismatch_info as XDR>::encoding);
    let head = be32_bytes(xid) + be32_bytes(1) + be32_bytes(0) + be32_bytes(0) + be32_bytes(0);
    let reply = rpc_msg::encoding(accepted_message(xid, body));
    assert(reply.subrange(0, 20) =~= head);
}

/// A reply that carries a status is an accepted reply, whatever follows the
/// status.
pub proof fn lemma_accepts_status(xid: u32, stat: nfsstat3)
    ensures
        accepts(xid, status_reply(xid, stat)),
        forall|a: post_op_attr| accepts(xid, #[trigger] attr_reply(xid, stat, a)),
        forall|w: wcc_data| accepts(xid, #[trigger] wcc_reply(xid, stat, w)),
        forall|v: wcc_data, w: wcc_data| accepts(xid, #[trigger] two_wcc_reply(xid, stat, v, w)),
{
    lemma_accepts_message(xid, accept_body::SUCCESS);
    lemma_accepts_more(xid, success_header(xid), nfsstat3::encoding(stat));
    assert forall|a: post_op_attr| accepts(xid, #[trigger] attr_reply(xid, stat, a)) by {
        lemma_accepts_more(xid, status_reply(xid, stat), post_op_attr::encoding(a));
    }
    assert forall|w: wcc_data| accepts(xid, #[trigger] wcc_reply(xid, stat, w)) by {
        lemma_accepts_more(xid, status_reply(xid, stat), wcc_data::encoding(w));
    }
    assert forall|v: wcc_data, w: wcc_data|
        accepts(xid, #[trigger] two_wcc_reply(xid, stat, v, w)) by {
        lemma_accepts_more(xid, status_reply(xid, stat), wcc_data::encoding(v));
        lemma_accepts_more(
            xid,
            status_reply(xid, stat) + wcc_data::encoding(v),
            wcc_data::encoding(w),
        );
    }
}

/// The reply that reports a new object is an accepted reply.
pub proof fn lemma_accepts_made(
    xid: u32,
    serverid: Seq<u8>,
    made: Result<(fileid3, post_op_attr), nfsstat3>,
    dir_wcc: wcc_data,
)
    ensures
        accepts(xid, made_reply(xid, serverid, made, dir_wcc)),
{
    match made {
        Ok((fid, attr)) => {
            lemma_accepts_status(xid, nfsstat3::NFS3_OK);
            let a = status_reply(xid, nfsstat3::NFS3_OK);
            let b = post_op_fh3::encoding(post_op_fh3_view::handle(handle_bytes(serverid, fid)));
            lemma_accepts_more(xid, a, b);
            lemma_accepts_more(xid, a + b, post_op_attr::encoding(attr));
            lemma_accepts_more(
                xid,
                a + b + post_op_attr::encoding(attr),
                wcc_data::encoding(dir_wcc),
            );
        },
        Err(stat) => {
            lemma_accepts_status(xid, stat);
        },
    }
}

/// A directory listing is an accepted reply.
pub proof fn lemma_accepts_listing(
    xid: u32,
    attr: Result<fattr3, nfsstat3>,
    items: Seq<Item>,
    end: bool,
    max_bytes: int,
    max_weight: int,
)
    ensures
        accepts(xid, listing_reply(listing_prefix(xid, attr), items, end, max_bytes, max_weight)),
{
    lemma_accepts_status(xid, nfsstat3::NFS3_OK);
    let prefix = listing_prefix(xid, attr);
    lemma_accepts_more(
        xid,
        attr_reply(xid, nfsstat3::NFS3_OK, post_attr(attr)),
        cookie_verifier(attr),
    );
    let m = accepted(items, prefix.len() as int, 0, max_bytes, max_weight);
    lemma_accepts_more(xid, prefix, joined(items, m as int));
    lemma_accepts_more(xid, prefix + joined(items, m as int), bool::encoding(false));
    lemma_accepts_more(
        xid,
        prefix + joined(items, m as int) + bool::encoding(false),
        bool::encoding(m == items.len() && end),
    );
}

/// Every reply of a procedure is an accepted reply, whatever the file
/// system answered.
pub proof fn lemma_accepts_replies(xid: u32, serverid: Seq<u8>)
    ensures
        forall|answer: Result<fattr3, nfsstat3>| accepts(xid, #[trigger] getattr_reply(xid, answer)),
        forall|
            dir: Result<fattr3, nfsstat3>,
            found: Result<fileid3, nfsstat3>,
            obj: Result<fattr3, nfsstat3>,
        | accepts(xid, #[trigger] lookup_reply(xid, serverid, dir, found, obj)),
        forall|takes_changes: bool, access: u32, obj: Result<fattr3, nfsstat3>|
            accepts(xid, #[trigger] access_reply(xid, takes_changes, access, obj)),
        forall|attr: Result<fattr3, nfsstat3>, target: Result<nfspath3, nfsstat3>|
            accepts(xid, #[trigger] readlink_reply(xid, attr, target)),
        forall|attr: Result<fattr3, nfsstat3>, data: Result<(Vec<u8>, bool), nfsstat3>|
            accepts(xid, #[trigger] read_reply(xid, attr, data)),
        forall|count: u32, before: Result<fattr3, nfsstat3>, written: Result<fattr3, nfsstat3>|
            accepts(xid, #[trigger] write_reply(xid, serverid, count, before, written)),
        forall|made: Result<(fileid3, post_op_attr), nfsstat3>, w: wcc_data|
            accepts(xid, #[trigger] made_reply(xid, serverid, made, w)),
        forall|stat: nfsstat3, a: post_op_attr| accepts(xid, #[trigger] attr_reply(xid, stat, a)),
        forall|stat: nfsstat3, w: wcc_data| accepts(xid, #[trigger] wcc_reply(xid, stat, w)),
        forall|stat: nfsstat3, v: wcc_data, w: wcc_data|
            accepts(xid, #[trigger] two_wcc_reply(xid, stat, v, w)),
        forall|dircount: u32, attr: Result<fattr3, nfsstat3>, page: Result<ReadDirSimpleResult, nfsstat3>|
            accepts(xid, #[trigger] readdir_reply(xid, dircount, attr, page)),
        forall|
            dircount: u32,
            maxcount: u32,
            attr: Result<fattr3, nfsstat3>,
            page: Result<ReadDirResult, nfsstat3>,
        | accepts(xid, #[trigger] readdirplus_reply(xid, serverid, dircount, maxcount, attr, page)),
        forall|attr: Result<fattr3, nfsstat3>| accepts(xid, #[trigger] fsstat_reply(xid, attr)),
        forall|attr: Result<fattr3, nfsstat3>| accepts(xid, #[trigger] fsinfo_reply(xid, attr)),
        forall|attr: Result<fattr3, nfsstat3>| accepts(xid, #[trigger] pathconf_reply(xid, attr)),
{
    let ok = status_reply(xid, nfsstat3::NFS3_OK);
    assert forall|stat: nfsstat3, a: post_op_attr|
        accepts(xid, #[trigger] attr_reply(xid, stat, a)) by {
        lemma_accepts_status(xid, stat);
    }
    assert forall|stat: nfsstat3, w: wcc_data| accepts(xid, #[trigger] wcc_reply(xid, stat, w)) by {
        lemma_accepts_status(xid, stat);
    }
    assert forall|stat: nfsstat3, v: wcc_data, w: wcc_data|
        accepts(xid, #[trigger] two_wcc_reply(xid, stat, v, w)) by {
        lemma_accepts_status(xid, stat);
    }
    assert forall|made: Result<(fileid3, post_op_attr), nfsstat3>, w: wcc_data|
        accepts(xid, #[trigger] made_reply(xid, serverid, made, w)) by {
        lemma_accepts_made(xid, serverid, made, w);
    }
    assert forall|answer: Result<fattr3, nfsstat3>|
        accepts(xid, #[trigger] getattr_reply(xid, answer)) by {
        lemma_accepts_status(xid, status_of(answer));
        if answer is Ok {
            lemma_accepts_more(xid, ok, fattr3::encoding(answer->Ok_0));
        }
    }
    assert forall|
        dir: Result<fattr3, nfsstat3>,
        found: Result<fileid3, nfsstat3>,
        obj: Result<fattr3, nfsstat3>,
    | accepts(xid, #[trigger] lookup_reply(xid, serverid, dir, found, obj)) by {
        lemma_accepts_status(xid, status_of(found));
        if found is Ok {
            let b = nfs_fh3::encoding(handle_bytes(serverid, found->Ok_0));
            lemma_accepts_more(xid, ok, b);
            lemma_accepts_more(xid, ok + b, post_op_attr::encoding(post_attr(obj)));
            lemma_accepts_more(
                xid,
                ok + b + post_op_attr::encoding(post_attr(obj)),
                post_op_attr::encoding(post_attr(dir)),
            );
        }
    }
    assert forall|takes_changes: bool, access: u32, obj: Result<fattr3, nfsstat3>|
        accepts(xid, #[trigger] access_reply(xid, takes_changes, access, obj)) by {
        lemma_accepts_more(
            xid,
            attr_reply(xid, nfsstat3::NFS3_OK, post_attr(obj)),
            u32::encoding(granted(takes_changes, access)),
        );
    }
    assert forall|attr: Result<fattr3, nfsstat3>, target: Result<nfspath3, nfsstat3>|
        accepts(xid, #[trigger] readlink_reply(xid, attr, target)) by {
        if target is Ok {
            lemma_accepts_more(
                xid,
                attr_reply(xid, nfsstat3::NFS3_OK, post_attr(attr)),
                nfsstring::encoding(target->Ok_0@),
            );
        }
    }
    assert forall|attr: Result<fattr3, nfsstat3>, data: Result<(Vec<u8>, bool), nfsstat3>|
        accepts(xid, #[trigger] read_reply(xid, attr, data)) by {
        lemma_accepts_status(xid, nfsstat3::NFS3_OK);
        if data is Ok {
            lemma_accepts_more(
                xid,
                ok,
                READ3resok::encoding(
                    READ3resok_view {
                        file_attributes: post_attr(attr),
                        count: data->Ok_0.0@.len() as u32,
                        eof: data->Ok_0.1,
                        data: data->Ok_0.0@,
                    },
                ),
            );
        }
    }
    assert forall|count: u32, before: Result<fattr3, nfsstat3>, written: Result<fattr3, nfsstat3>|
        accepts(xid, #[trigger] write_reply(xid, serverid, count, before, written)) by {
        lemma_accepts_status(xid, nfsstat3::NFS3_OK);
        if written is Ok {
            lemma_accepts_more(
                xid,
                ok,
                WRITE3resok::encoding(
                    WRITE3resok_view {
                        file_wcc: wcc_data {
                            before: pre_attr(before),
                            after: post_op_attr::attributes(written->Ok_0),
                        },
                        count,
                        committed: stable_how::FILE_SYNC,
                        verf: serverid,
                    },
                ),
            );
        }
    }
    assert forall|
        dircount: u32,
        attr: Result<fattr3, nfsstat3>,
        page: Result<ReadDirSimpleResult, nfsstat3>,
    | accepts(xid, #[trigger] readdir_reply(xid, dircount, attr, page)) by {
        if page is Ok {
            lemma_accepts_listing(
                xid,
                attr,
                simple_items(page->Ok_0.entries@),
                page->Ok_0.end,
                dircount - 128,
                1,
            );
        }
    }
    assert forall|
        dircount: u32,
        maxcount: u32,
        attr: Result<fattr3, nfsstat3>,
        page: Result<ReadDirResult, nfsstat3>,
    | accepts(xid, #[trigger] readdirplus_reply(xid, serverid, dircount, maxcount, attr, page)) by {
        if page is Ok {
            lemma_accepts_listing(
                xid,
                attr,
                plus_items(serverid, page->Ok_0.entries@),
                page->Ok_0.end,
                maxcount - 128,
                dircount as int,
            );
        }
    }
    assert forall|attr: Result<fattr3, nfsstat3>|
        accepts(xid, #[trigger] fsstat_reply(xid, attr)) by {
        lemma_accepts_status(xid, nfsstat3::NFS3_OK);
        lemma_accepts_more(xid, ok, FSSTAT3resok::encoding(fsstat_results(post_attr(attr))));
    }
    assert forall|attr: Result<fattr3, nfsstat3>|
        accepts(xid, #[trigger] fsinfo_reply(xid, attr)) by {
        lemma_accepts_status(xid, nfsstat3::NFS3_OK);
        lemma_accepts_more(xid, ok, fsinfo3::encoding(fsinfo_results(post_attr(attr))));
    }
    assert forall|attr: Result<fattr3, nfsstat3>|
        accepts(xid, #[trigger] pathconf_reply(xid, attr)) by {
        lemma_accepts_status(xid, nfsstat3::NFS3_OK);
        lemma_accepts_more(xid, ok, PATHCONF3resok::encoding(pathconf_results(post_attr(attr))));
    }
}

/// Whatever the NFS program replies to a call is an accepted reply to that
/// call: it begins with the transaction identifier of the call.
pub proof fn lemma_nfs_reply_answers_call<F: NFSFileSystem>(
    fs: &F,
    xid: u32,
    vers: u32,
    procedure: u32,
    src: Seq<u8>,
    pos: int,
    reply: Seq<u8>,
)
    requires
        nfs_replies(fs, xid, vers, procedure, src, pos, reply),
    ensures
        accepts(xid, reply),
{
    lemma_accepts_message(xid, accept_body::SUCCESS);
    lemma_accepts_message(xid, accept_body::GARBAGE_ARGS);
    lemma_accepts_message(xid, accept_body::PROC_UNAVAIL);
    lemma_accepts_message(
        xid,
        accept_body::PROG_MISMATCH(mismatch_info { low: 3, high: 3 }),
    );
    assert forall|stat: nfsstat3| accepts(xid, #[trigger] status_reply(xid, stat)) by {
        lemma_accepts_status(xid, stat);
    }
    lemma_accepts_replies(xid, fs.serverid_spec());
}

} // verus!
