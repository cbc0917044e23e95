//! The messages of ONC RPC version 2 (RFC 1057), each with its wire form,
//! and the replies that the server sends without running a procedure.

use crate::xdr::{
    be32_bytes, fail, lemma_aligned_sum, lemma_concat_assoc, lemma_field, next, opaque_encoding,
    val, ByteReader, XdrError, XDR,
};
use vstd::prelude::*;

verus! {

/// Why authentication failed.
#[derive(Copy, Clone, Debug, PartialEq, Eq, Structural)]
pub enum auth_stat {
    /// Bad credentials (seal broken).
    AUTH_BADCRED,
    /// Client must begin a new session.
    AUTH_REJECTEDCRED,
    /// Bad verifier (seal broken).
    AUTH_BADVERF,
    /// Verifier expired or replayed.
    AUTH_REJECTEDVERF,
    /// Rejected for security reasons.
    AUTH_TOOWEAK,
}

impl View for auth_stat {
    type V = auth_stat;

    open spec fn view(&self) -> auth_stat {
        *self
    }
}

impl auth_stat {
    /// The number that stands for the value on the wire.
    pub open spec fn wire(self) -> u32 {
        match self {
            auth_stat::AUTH_BADCRED => 1,
            auth_stat::AUTH_REJECTEDCRED => 2,
            auth_stat::AUTH_BADVERF => 3,
            auth_stat::AUTH_REJECTEDVERF => 4,
            auth_stat::AUTH_TOOWEAK => 5,
        }
    }

    /// The value that a number on the wire stands for, if any.
    pub open spec fn of_wire(w: u32) -> Option<auth_stat> {
        if w == 1 {
            Some(auth_stat::AUTH_BADCRED)
        } else if w == 2 {
            Some(auth_stat::AUTH_REJECTEDCRED)
        } else if w == 3 {
            Some(auth_stat::AUTH_BADVERF)
        } else if w == 4 {
            Some(auth_stat::AUTH_REJECTEDVERF)
        } else if w == 5 {
            Some(auth_stat::AUTH_TOOWEAK)
        } else {
            None
        }
    }

    pub fn to_u32(&self) -> (w: u32)
        ensures
            w == self.wire(),
    {
        match self {
            auth_stat::AUTH_BADCRED => 1,
            auth_stat::AUTH_REJECTEDCRED => 2,
            auth_stat::AUTH_BADVERF => 3,
            auth_stat::AUTH_REJECTEDVERF => 4,
            auth_stat::AUTH_TOOWEAK => 5,
        }
    }

    pub fn from_u32(w: u32) -> (r: Option<auth_stat>)
        ensures
            r == Self::of_wire(w),
    {
        if w == 1 {
            Some(auth_stat::AUTH_BADCRED)
        } else if w == 2 {
            Some(auth_stat::AUTH_REJECTEDCRED)
        } else if w == 3 {
            Some(auth_stat::AUTH_BADVERF)
        } else if w == 4 {
            Some(auth_stat::AUTH_REJECTEDVERF)
        } else if w == 5 {
            Some(auth_stat::AUTH_TOOWEAK)
        } else {
            None
        }
    }
}

impl Default for auth_stat {
    fn default() -> (r: auth_stat)
        ensures
            r == auth_stat::AUTH_BADCRED,
    {
        auth_stat::AUTH_BADCRED
    }
}

impl XDR for auth_stat {
    #[verifier::opaque]
    open spec fn encoding(v: auth_stat) -> Seq<u8> {
        u32::encoding(v.wire())
    }

    open spec fn encodable(v: auth_stat) -> bool {
        true
    }

    #[verifier::opaque]
    open spec fn decoding(src: Seq<u8>, pos: int) -> Result<(auth_stat, int), XdrError> {
        let w = u32::decoding(src, pos);
        if w is Err {
            fail(w)
        } else {
            match auth_stat::of_wire(val(w)) {
                Some(v) => Ok((v, next(w))),
                None => Err(XdrError::InvalidData),
            }
        }
    }

    fn serialize(&self, dest: &mut Vec<u8>) {
        proof {
            reveal(<auth_stat as XDR>::encoding);
        }
        self.to_u32().serialize(dest);
    }

    fn deserialize(&mut self, src: &mut ByteReader) -> (r: Result<(), XdrError>) {
        proof {
            reveal(<auth_stat as XDR>::decoding);
        }
        let mut w: u32 = 0;
        w.deserialize(src)?;
        match auth_stat::from_u32(w) {
            Some(v) => {
                *self = v;
                Ok(())
            },
            None => Err(XdrError::InvalidData),
        }
    }

    proof fn lemma_decoding_inverts_encoding(v: auth_stat, src: Seq<u8>, pos: int) {
        reveal(<auth_stat as XDR>::encoding);
        reveal(<auth_stat as XDR>::decoding);
        u32::lemma_decoding_inverts_encoding(v.wire(), src, pos);
    }

    open spec fn word_aligned() -> bool {
        true
    }

    proof fn lemma_encoding_aligned(v: auth_stat) {
        reveal(<auth_stat as XDR>::encoding);
    }
}

/// The kind of an authentication field.
#[derive(Copy, Clone, Debug, PartialEq, Eq, Structural)]
#[non_exhaustive]
pub enum auth_flavor {
    AUTH_NULL,
    AUTH_UNIX,
    AUTH_SHORT,
    AUTH_DES,
}

impl View for auth_flavor {
    type V = auth_flavor;

    open spec fn view(&self) -> auth_flavor {
        *self
    }
}

impl auth_flavor {
    /// The number that stands for the value on the wire.
    pub open spec fn wire(self) -> u32 {
        match self {
            auth_flavor::AUTH_NULL => 0,
            auth_flavor::AUTH_UNIX => 1,
            auth_flavor::AUTH_SHORT => 2,
            auth_flavor::AUTH_DES => 3,
        }
    }

    /// The value that a number on the wire stands for, if any.
    pub open spec fn of_wire(w: u32) -> Option<auth_flavor> {
        if w == 0 {
            Some(auth_flavor::AUTH_NULL)
        } else if w == 1 {
            Some(auth_flavor::AUTH_UNIX)
        } else if w == 2 {
            Some(auth_flavor::AUTH_SHORT)
        } else if w == 3 {
            Some(auth_flavor::AUTH_DES)
        } else {
            None
        }
    }

    pub fn to_u32(&self) -> (w: u32)
        ensures
            w == self.wire(),
    {
        match self {
            auth_flavor::AUTH_NULL => 0,
            auth_flavor::AUTH_UNIX => 1,
            auth_flavor::AUTH_SHORT => 2,
            auth_flavor::AUTH_DES => 3,
        }
    }

    pub fn from_u32(w: u32) -> (r: Option<auth_flavor>)
        ensures
            r == Self::of_wire(w),
    {
        if w == 0 {
            Some(auth_flavor::AUTH_NULL)
        } else if w == 1 {
            Some(auth_flavor::AUTH_UNIX)
        } else if w == 2 {
            Some(auth_flavor::AUTH_SHORT)
        } else if w == 3 {
            Some(auth_flavor::AUTH_DES)
        } else {
            None
        }
    }
}

impl XDR for auth_flavor {
    #[verifier::opaque]
    open spec fn encoding(v: auth_flavor) -> Seq<u8> {
        u32::encoding(v.wire())
    }

    open spec fn encodable(v: auth_flavor) -> bool {
        true
    }

    #[verifier::opaque]
    open spec fn decoding(src: Seq<u8>, pos: int) -> Result<(auth_flavor, int), XdrError> {
        let w = u32::decoding(src, pos);
        if w is Err {
            fail(w)
        } else {
            match auth_flavor::of_wire(val(w)) {
                Some(v) => Ok((v, next(w))),
                None => Err(XdrError::InvalidData),
            }
        }
    }

    fn serialize(&self, dest: &mut Vec<u8>) {
        proof {
            reveal(<auth_flavor as XDR>::encoding);
        }
        self.to_u32().serialize(dest);
    }

    fn deserialize(&mut self, src: &mut ByteReader) -> (r: Result<(), XdrError>) {
        proof {
            reveal(<auth_flavor as XDR>::decoding);
        }
        let mut w: u32 = 0;
        w.deserialize(src)?;
        match auth_flavor::from_u32(w) {
            Some(v) => {
                *self = v;
                Ok(())
            },
            None => Err(XdrError::InvalidData),
        }
    }

    proof fn lemma_decoding_inverts_encoding(v: auth_flavor, src: Seq<u8>, pos: int) {
        reveal(<auth_flavor as XDR>::encoding);
        reveal(<auth_flavor as XDR>::decoding);
        u32::lemma_decoding_inverts_encoding(v.wire(), src, pos);
    }

    open spec fn word_aligned() -> bool {
        true
    }

    proof fn lemma_encoding_aligned(v: auth_flavor) {
        reveal(<auth_flavor as XDR>::encoding);
    }
}

/// The body of credentials of flavor `AUTH_UNIX`: who the caller says it is.
#[derive(Clone, Debug, PartialEq, Eq)]
pub struct auth_unix {
    pub stamp: u32,
    pub machinename: Vec<u8>,
    pub uid: u32,
    pub gid: u32,
    pub gids: Vec<u32>,
}

/// What a [`auth_unix`] holds.
pub struct auth_unix_view {
    pub stamp: u32,
    pub machinename: Seq<u8>,
    pub uid: u32,
    pub gid: u32,
    pub gids: Seq<u32>,
}

impl View for auth_unix {
    type V = auth_unix_view;

    open spec fn view(&self) -> auth_unix_view {
        auth_unix_view {
            stamp: self.stamp@,
            machinename: self.machinename@,
            uid: self.uid@,
            gid: self.gid@,
            gids: self.gids@,
        }
    }
}

impl Default for auth_unix {
    fn default() -> (r: auth_unix)
        ensures
            r.stamp == 0,
            r.machinename@.len() == 0,
            r.uid == 0,
            r.gid == 0,
            r.gids@.len() == 0,
    {
        auth_unix {
            stamp: 0,
            machinename: Vec::new(),
            uid: 0,
            gid: 0,
            gids: Vec::new(),
        }
    }
}

impl XDR for auth_unix {
    #[verifier::opaque]
    open spec fn encoding(v: auth_unix_view) -> Seq<u8> {
        u32::encoding(v.stamp) + (
            <Vec<u8>>::encoding(v.machinename) + (
            u32::encoding(v.uid) + (
            u32::encoding(v.gid) + (
            <Vec<u32>>::encoding(v.gids)))))
    }

    open spec fn encodable(v: auth_unix_view) -> bool {
        &&& u32::encodable(v.stamp)
        &&& <Vec<u8>>::encodable(v.machinename)
        &&& u32::encodable(v.uid)
        &&& u32::encodable(v.gid)
        &&& <Vec<u32>>::encodable(v.gids)
    }

    #[verifier::opaque]
    open spec fn decoding(src: Seq<u8>, pos: int) -> Result<(auth_unix_view, int), XdrError> {
        let stamp = u32::decoding(src, pos);
        let machinename = <Vec<u8>>::decoding(src, next(stamp));
        let uid = u32::decoding(src, next(machinename));
        let gid = u32::decoding(src, next(uid));
        let gids = <Vec<u32>>::decoding(src, next(gid));
        if stamp is Err {
            fail(stamp)
        } else if machinename is Err {
            fail(machinename)
        } else if uid is Err {
            fail(uid)
        } else if gid is Err {
            fail(gid)
        } else if gids is Err {
            fail(gids)
        } else {
            Ok(
                (
                    auth_unix_view {
                        stamp: val(stamp),
                        machinename: val(machinename),
                        uid: val(uid),
                        gid: val(gid),
                        gids: val(gids),
                    },
                    next(gids),
                ),
            )
        }
    }

    fn serialize(&self, dest: &mut Vec<u8>) {
        self.stamp.serialize(dest);
        self.machinename.serialize(dest);
        self.uid.serialize(dest);
        self.gid.serialize(dest);
        self.gids.serialize(dest);
        proof {
            reveal(<auth_unix as XDR>::encoding);
            let d0 = old(dest)@;
            let d1 = d0 + u32::encoding(self.stamp@);
            let d2 = d1 + <Vec<u8>>::encoding(self.machinename@);
            let d3 = d2 + u32::encoding(self.uid@);
            let t4 = <Vec<u32>>::encoding(self.gids@);
            let t3 = u32::encoding(self.gid@) + t4;
            let t2 = u32::encoding(self.uid@) + t3;
            let t1 = <Vec<u8>>::encoding(self.machinename@) + t2;
            lemma_concat_assoc(d3, u32::encoding(self.gid@), t4);
            lemma_concat_assoc(d2, u32::encoding(self.uid@), t3);
            lemma_concat_assoc(d1, <Vec<u8>>::encoding(self.machinename@), t2);
            lemma_concat_assoc(d0, u32::encoding(self.stamp@), t1);
        }
    }

    fn deserialize(&mut self, src: &mut ByteReader) -> (r: Result<(), XdrError>) {
        proof {
            reveal(<auth_unix as XDR>::decoding);
        }
        self.stamp.deserialize(src)?;
        self.machinename.deserialize(src)?;
        self.uid.deserialize(src)?;
        self.gid.deserialize(src)?;
        self.gids.deserialize(src)?;
        Ok(())
    }

    proof fn lemma_decoding_inverts_encoding(v: auth_unix_view, src: Seq<u8>, pos: int) {
        reveal(<auth_unix as XDR>::encoding);
        reveal(<auth_unix as XDR>::decoding);
        let t4 = <Vec<u32>>::encoding(v.gids);
        let t3 = u32::encoding(v.gid) + t4;
        let t2 = u32::encoding(v.uid) + t3;
        let t1 = <Vec<u8>>::encoding(v.machinename) + t2;
        lemma_field::<u32>(v.stamp, t1, src, pos);
        let p1 = pos + u32::encoding(v.stamp).len();
        lemma_field::<Vec<u8>>(v.machinename, t2, src, p1);
        let p2 = p1 + <Vec<u8>>::encoding(v.machinename).len();
        lemma_field::<u32>(v.uid, t3, src, p2);
        let p3 = p2 + u32::encoding(v.uid).len();
        lemma_field::<u32>(v.gid, t4, src, p3);
        let p4 = p3 + u32::encoding(v.gid).len();
        <Vec<u32>>::lemma_decoding_inverts_encoding(v.gids, src, p4);
    }

    open spec fn word_aligned() -> bool {
        true
    }

    proof fn lemma_encoding_aligned(v: auth_unix_view) {
        reveal(<auth_unix as XDR>::encoding);
        u32::lemma_encoding_aligned(v.stamp);
        <Vec<u8>>::lemma_encoding_aligned(v.machinename);
        u32::lemma_encoding_aligned(v.uid);
        u32::lemma_encoding_aligned(v.gid);
        <Vec<u32>>::lemma_encoding_aligned(v.gids);
        let n4 = <Vec<u32>>::encoding(v.gids).len() as int;
        let n3 = u32::encoding(v.gid).len() + n4;
        lemma_aligned_sum(u32::encoding(v.gid).len() as int, n4);
        let n2 = u32::encoding(v.uid).len() + n3;
        lemma_aligned_sum(u32::encoding(v.uid).len() as int, n3);
        let n1 = <Vec<u8>>::encoding(v.machinename).len() + n2;
        lemma_aligned_sum(<Vec<u8>>::encoding(v.machinename).len() as int, n2);
        let n0 = u32::encoding(v.stamp).len() + n1;
        lemma_aligned_sum(u32::encoding(v.stamp).len() as int, n1);
        assert(Self::encoding(v).len() == n0);
    }
}

/// An authentication field: a flavor and bytes that only the flavor's
/// protocol interprets.
#[derive(Clone, Debug, PartialEq, Eq)]
pub struct opaque_auth {
    pub flavor: auth_flavor,
    pub body: Vec<u8>,
}

/// What a [`opaque_auth`] holds.
pub struct opaque_auth_view {
    pub flavor: auth_flavor,
    pub body: Seq<u8>,
}

impl View for opaque_auth {
    type V = opaque_auth_view;

    open spec fn view(&self) -> opaque_auth_view {
        opaque_auth_view {
            flavor: self.flavor@,
            body: self.body@,
        }
    }
}

impl XDR for opaque_auth {
    #[verifier::opaque]
    open spec fn encoding(v: opaque_auth_view) -> Seq<u8> {
        auth_flavor::encoding(v.flavor) + (<Vec<u8>>::encoding(v.body))
    }

    open spec fn encodable(v: opaque_auth_view) -> bool {
        &&& auth_flavor::encodable(v.flavor)
        &&& <Vec<u8>>::encodable(v.body)
    }

    #[verifier::opaque]
    open spec fn decoding(src: Seq<u8>, pos: int) -> Result<(opaque_auth_view, int), XdrError> {
        let flavor = auth_flavor::decoding(src, pos);
        let body = <Vec<u8>>::decoding(src, next(flavor));
        if flavor is Err {
            fail(flavor)
        } else if body is Err {
            fail(body)
        } else {
            Ok((opaque_auth_view { flavor: val(flavor), body: val(body) }, next(body)))
        }
    }

    fn serialize(&self, dest: &mut Vec<u8>) {
        self.flavor.serialize(dest);
        self.body.serialize(dest);
        proof {
            reveal(<opaque_auth as XDR>::encoding);
            let d0 = old(dest)@;
            let t1 = <Vec<u8>>::encoding(self.body@);
            lemma_concat_assoc(d0, auth_flavor::encoding(self.flavor@), t1);
        }
    }

    fn deserialize(&mut self, src: &mut ByteReader) -> (r: Result<(), XdrError>) {
        proof {
            reveal(<opaque_auth as XDR>::decoding);
        }
        self.flavor.deserialize(src)?;
        self.body.deserialize(src)?;
        Ok(())
    }

    proof fn lemma_decoding_inverts_encoding(v: opaque_auth_view, src: Seq<u8>, pos: int) {
        reveal(<opaque_auth as XDR>::encoding);
        reveal(<opaque_auth as XDR>::decoding);
        let t1 = <Vec<u8>>::encoding(v.body);
        lemma_field::<auth_flavor>(v.flavor, t1, src, pos);
        let p1 = pos + auth_flavor::encoding(v.flavor).len();
        <Vec<u8>>::lemma_decoding_inverts_encoding(v.body, src, p1);
    }

    open spec fn word_aligned() -> bool {
        true
    }

    proof fn lemma_encoding_aligned(v: opaque_auth_view) {
        reveal(<opaque_auth as XDR>::encoding);
        auth_flavor::lemma_encoding_aligned(v.flavor);
        <Vec<u8>>::lemma_encoding_aligned(v.body);
        let n1 = <Vec<u8>>::encoding(v.body).len() as int;
        let n0 = auth_flavor::encoding(v.flavor).len() + n1;
        lemma_aligned_sum(auth_flavor::encoding(v.flavor).len() as int, n1);
        assert(Self::encoding(v).len() == n0);
    }
}

impl Default for opaque_auth {
    fn default() -> (r: opaque_auth)
        ensures
            r@ == null_auth(),
    {
        let r = opaque_auth { flavor: auth_flavor::AUTH_NULL, body: Vec::new() };
        assert(r.body@ =~= Seq::empty());
        r
    }
}

/// The authentication field that says nothing.
pub open spec fn null_auth() -> opaque_auth_view {
    opaque_auth_view { flavor: auth_flavor::AUTH_NULL, body: Seq::empty() }
}

/// An RPC message. The transaction identifier of a reply is that of the
/// call it answers.
#[derive(Clone, Debug, PartialEq, Eq)]
pub struct rpc_msg {
    pub xid: u32,
    pub body: rpc_body,
}

/// What a [`rpc_msg`] holds.
pub struct rpc_msg_view {
    pub xid: u32,
    pub body: rpc_body_view,
}

impl View for rpc_msg {
    type V = rpc_msg_view;

    open spec fn view(&self) -> rpc_msg_view {
        rpc_msg_view {
            xid: self.xid@,
            body: self.body@,
        }
    }
}

impl Default for rpc_msg {
    fn default() -> (r: rpc_msg)
        ensures
            r.xid == 0,
    {
        rpc_msg {
            xid: 0,
            body: rpc_body::default(),
        }
    }
}

impl XDR for rpc_msg {
    #[verifier::opaque]
    open spec fn encoding(v: rpc_msg_view) -> Seq<u8> {
        u32::encoding(v.xid) + (rpc_body::encoding(v.body))
    }

    open spec fn encodable(v: rpc_msg_view) -> bool {
        &&& u32::encodable(v.xid)
        &&& rpc_body::encodable(v.body)
    }

    #[verifier::opaque]
    open spec fn decoding(src: Seq<u8>, pos: int) -> Result<(rpc_msg_view, int), XdrError> {
        let xid = u32::decoding(src, pos);
        let body = rpc_body::decoding(src, next(xid));
        if xid is Err {
            fail(xid)
        } else if body is Err {
            fail(body)
        } else {
            Ok((rpc_msg_view { xid: val(xid), body: val(body) }, next(body)))
        }
    }

    fn serialize(&self, dest: &mut Vec<u8>) {
        self.xid.serialize(dest);
        self.body.serialize(dest);
        proof {
            reveal(<rpc_msg as XDR>::encoding);
            let d0 = old(dest)@;
            let t1 = rpc_body::encoding(self.body@);
            lemma_concat_assoc(d0, u32::encoding(self.xid@), t1);
        }
    }

    fn deserialize(&mut self, src: &mut ByteReader) -> (r: Result<(), XdrError>) {
        proof {
            reveal(<rpc_msg as XDR>::decoding);
        }
        self.xid.deserialize(src)?;
        self.body.deserialize(src)?;
        Ok(())
    }

    proof fn lemma_decoding_inverts_encoding(v: rpc_msg_view, src: Seq<u8>, pos: int) {
        reveal(<rpc_msg as XDR>::encoding);
        reveal(<rpc_msg as XDR>::decoding);
        let t1 = rpc_body::encoding(v.body);
        lemma_field::<u32>(v.xid, t1, src, pos);
        let p1 = pos + u32::encoding(v.xid).len();
        rpc_body::lemma_decoding_inverts_encoding(v.body, src, p1);
    }

    open spec fn word_aligned() -> bool {
        true
    }

    proof fn lemma_encoding_aligned(v: rpc_msg_view) {
        reveal(<rpc_msg as XDR>::encoding);
        u32::lemma_encoding_aligned(v.xid);
        rpc_body::lemma_encoding_aligned(v.body);
        let n1 = rpc_body::encoding(v.body).len() as int;
        let n0 = u32::encoding(v.xid).len() + n1;
        lemma_aligned_sum(u32::encoding(v.xid).len() as int, n1);
        assert(Self::encoding(v).len() == n0);
    }
}

/// A call or a reply.
#[derive(Clone, Debug, PartialEq, Eq)]
pub enum rpc_body {
    CALL(call_body),
    REPLY(reply_body),
}

/// What a [`rpc_body`] holds.
pub enum rpc_body_view {
    CALL(call_body_view),
    REPLY(reply_body_view),
}

impl View for rpc_body {
    type V = rpc_body_view;

    open spec fn view(&self) -> rpc_body_view {
        match self {
            rpc_body::CALL(x) => rpc_body_view::CALL(x@),
            rpc_body::REPLY(x) => rpc_body_view::REPLY(x@),
        }
    }
}

impl Default for rpc_body {
    fn default() -> (r: rpc_body)
        ensures
            r is CALL,
    {
        rpc_body::CALL(call_body::default())
    }
}

impl XDR for rpc_body {
    #[verifier::opaque]
    open spec fn encoding(v: rpc_body_view) -> Seq<u8> {
        match v {
            rpc_body_view::CALL(x) => u32::encoding(0) + call_body::encoding(x),
            rpc_body_view::REPLY(x) => u32::encoding(1) + reply_body::encoding(x),
        }
    }

    open spec fn encodable(v: rpc_body_view) -> bool {
        match v {
            rpc_body_view::CALL(x) => call_body::encodable(x),
            rpc_body_view::REPLY(x) => reply_body::encodable(x),
        }
    }

    #[verifier::opaque]
    open spec fn decoding(src: Seq<u8>, pos: int) -> Result<(rpc_body_view, int), XdrError> {
        let tag = u32::decoding(src, pos);
        if tag is Err {
            fail(tag)
        } else if val(tag) == 0 {
            let x = call_body::decoding(src, next(tag));
            if x is Err {
                fail(x)
            } else {
                Ok((rpc_body_view::CALL(val(x)), next(x)))
            }
        } else if val(tag) == 1 {
            let x = reply_body::decoding(src, next(tag));
            if x is Err {
                fail(x)
            } else {
                Ok((rpc_body_view::REPLY(val(x)), next(x)))
            }
        } else {
            Err(XdrError::InvalidData)
        }
    }

    fn serialize(&self, dest: &mut Vec<u8>) {
        proof {
            reveal(<rpc_body as XDR>::encoding);
        }
        match self {
            rpc_body::CALL(x) => {
                0_u32.serialize(dest);
                x.serialize(dest);
                assert(dest@ =~= old(dest)@ + Self::encoding(self@));
            },
            rpc_body::REPLY(x) => {
                1_u32.serialize(dest);
                x.serialize(dest);
                assert(dest@ =~= old(dest)@ + Self::encoding(self@));
            },
        }
    }

    fn deserialize(&mut self, src: &mut ByteReader) -> (r: Result<(), XdrError>) {
        proof {
            reveal(<rpc_body as XDR>::decoding);
        }
        let mut tag: u32 = 0;
        tag.deserialize(src)?;
        if tag == 0 {
            let mut x: call_body = call_body::default();
            x.deserialize(src)?;
            *self = rpc_body::CALL(x);
        } else if tag == 1 {
            let mut x: reply_body = reply_body::default();
            x.deserialize(src)?;
            *self = rpc_body::REPLY(x);
        } else {
            return Err(XdrError::InvalidData);
        }
        Ok(())
    }

    proof fn lemma_decoding_inverts_encoding(v: rpc_body_view, src: Seq<u8>, pos: int) {
        reveal(<rpc_body as XDR>::encoding);
        reveal(<rpc_body as XDR>::decoding);
        match v {
            rpc_body_view::CALL(x) => {
                lemma_field::<u32>(0, call_body::encoding(x), src, pos);
                call_body::lemma_decoding_inverts_encoding(x, src, pos + 4);
            },
            rpc_body_view::REPLY(x) => {
                lemma_field::<u32>(1, reply_body::encoding(x), src, pos);
                reply_body::lemma_decoding_inverts_encoding(x, src, pos + 4);
            },
        }
    }

    open spec fn word_aligned() -> bool {
        true
    }

    proof fn lemma_encoding_aligned(v: rpc_body_view) {
        reveal(<rpc_body as XDR>::encoding);
        match v {
            rpc_body_view::CALL(x) => {
                call_body::lemma_encoding_aligned(x);
            },
            rpc_body_view::REPLY(x) => {
                reply_body::lemma_encoding_aligned(x);
            },
        }
    }
}

/// A call: which procedure of which program, and who calls. The
/// arguments of the procedure follow the message.
#[derive(Clone, Debug, PartialEq, Eq)]
pub struct call_body {
    /// The version of RPC; it must be 2.
    pub rpcvers: u32,
    pub prog: u32,
    pub vers: u32,
    pub proc: u32,
    pub cred: opaque_auth,
    pub verf: opaque_auth,
}

/// What a [`call_body`] holds.
pub struct call_body_view {
    pub rpcvers: u32,
    pub prog: u32,
    pub vers: u32,
    pub proc: u32,
    pub cred: opaque_auth_view,
    pub verf: opaque_auth_view,
}

impl View for call_body {
    type V = call_body_view;

    open spec fn view(&self) -> call_body_view {
        call_body_view {
            rpcvers: self.rpcvers@,
            prog: self.prog@,
            vers: self.vers@,
            proc: self.proc@,
            cred: self.cred@,
            verf: self.verf@,
        }
    }
}

impl Default for call_body {
    fn default() -> (r: call_body)
        ensures
            r.rpcvers == 0,
            r.prog == 0,
            r.vers == 0,
            r.proc == 0,
    {
        call_body {
            rpcvers: 0,
            prog: 0,
            vers: 0,
            proc: 0,
            cred: opaque_auth::default(),
            verf: opaque_auth::default(),
        }
    }
}

impl XDR for call_body {
    #[verifier::opaque]
    open spec fn encoding(v: call_body_view) -> Seq<u8> {
        u32::encoding(v.rpcvers) + (
            u32::encoding(v.prog) + (
            u32::encoding(v.vers) + (
            u32::encoding(v.proc) + (
            opaque_auth::encoding(v.cred) + (
            opaque_auth::encoding(v.verf))))))
    }

    open spec fn encodable(v: call_body_view) -> bool {
        &&& u32::encodable(v.rpcvers)
        &&& u32::encodable(v.prog)
        &&& u32::encodable(v.vers)
        &&& u32::encodable(v.proc)
        &&& opaque_auth::encodable(v.cred)
        &&& opaque_auth::encodable(v.verf)
    }

    #[verifier::opaque]
    open spec fn decoding(src: Seq<u8>, pos: int) -> Result<(call_body_view, int), XdrError> {
        let rpcvers = u32::decoding(src, pos);
        let prog = u32::decoding(src, next(rpcvers));
        let vers = u32::decoding(src, next(prog));
        let proc = u32::decoding(src, next(vers));
        let cred = opaque_auth::decoding(src, next(proc));
        let verf = opaque_auth::decoding(src, next(cred));
        if rpcvers is Err {
            fail(rpcvers)
        } else if prog is Err {
            fail(prog)
        } else if vers is Err {
            fail(vers)
        } else if proc is Err {
            fail(proc)
        } else if cred is Err {
            fail(cred)
        } else if verf is Err {
            fail(verf)
        } else {
            Ok(
                (
                    call_body_view {
                        rpcvers: val(rpcvers),
                        prog: val(prog),
                        vers: val(vers),
                        proc: val(proc),
                        cred: val(cred),
                        verf: val(verf),
                    },
                    next(verf),
                ),
            )
        }
    }

    fn serialize(&self, dest: &mut Vec<u8>) {
        self.rpcvers.serialize(dest);
        self.prog.serialize(dest);
        self.vers.serialize(dest);
        self.proc.serialize(dest);
        self.cred.serialize(dest);
        self.verf.serialize(dest);
        proof {
            reveal(<call_body as XDR>::encoding);
            let d0 = old(dest)@;
            let d1 = d0 + u32::encoding(self.rpcvers@);
            let d2 = d1 + u32::encoding(self.prog@);
            let d3 = d2 + u32::encoding(self.vers@);
            let d4 = d3 + u32::encoding(self.proc@);
            let t5 = opaque_auth::encoding(self.verf@);
            let t4 = opaque_auth::encoding(self.cred@) + t5;
            let t3 = u32::encoding(self.proc@) + t4;
            let t2 = u32::encoding(self.vers@) + t3;
            let t1 = u32::encoding(self.prog@) + t2;
            lemma_concat_assoc(d4, opaque_auth::encoding(self.cred@), t5);
            lemma_concat_assoc(d3, u32::encoding(self.proc@), t4);
            lemma_concat_assoc(d2, u32::encoding(self.vers@), t3);
            lemma_concat_assoc(d1, u32::encoding(self.prog@), t2);
            lemma_concat_assoc(d0, u32::encoding(self.rpcvers@), t1);
        }
    }

    fn deserialize(&mut self, src: &mut ByteReader) -> (r: Result<(), XdrError>) {
        proof {
            reveal(<call_body as XDR>::decoding);
        }
        self.rpcvers.deserialize(src)?;
        self.prog.deserialize(src)?;
        self.vers.deserialize(src)?;
        self.proc.deserialize(src)?;
        self.cred.deserialize(src)?;
        self.verf.deserialize(src)?;
        Ok(())
    }

    proof fn lemma_decoding_inverts_encoding(v: call_body_view, src: Seq<u8>, pos: int) {
        reveal(<call_body as XDR>::encoding);
        reveal(<call_body as XDR>::decoding);
        let t5 = opaque_auth::encoding(v.verf);
        let t4 = opaque_auth::encoding(v.cred) + t5;
        let t3 = u32::encoding(v.proc) + t4;
        let t2 = u32::encoding(v.vers) + t3;
        let t1 = u32::encoding(v.prog) + t2;
        lemma_field::<u32>(v.rpcvers, t1, src, pos);
        let p1 = pos + u32::encoding(v.rpcvers).len();
        lemma_field::<u32>(v.prog, t2, src, p1);
        let p2 = p1 + u32::encoding(v.prog).len();
        lemma_field::<u32>(v.vers, t3, src, p2);
        let p3 = p2 + u32::encoding(v.vers).len();
        lemma_field::<u32>(v.proc, t4, src, p3);
        let p4 = p3 + u32::encoding(v.proc).len();
        lemma_field::<opaque_auth>(v.cred, t5, src, p4);
        let p5 = p4 + opaque_auth::encoding(v.cred).len();
        opaque_auth::lemma_decoding_inverts_encoding(v.verf, src, p5);
    }

    open spec fn word_aligned() -> bool {
        true
    }

    proof fn lemma_encoding_aligned(v: call_body_view) {
        reveal(<call_body as XDR>::encoding);
        u32::lemma_encoding_aligned(v.rpcvers);
        u32::lemma_encoding_aligned(v.prog);
        u32::lemma_encoding_aligned(v.vers);
        u32::lemma_encoding_aligned(v.proc);
        opaque_auth::lemma_encoding_aligned(v.cred);
        opaque_auth::lemma_encoding_aligned(v.verf);
        let n5 = opaque_auth::encoding(v.verf).len() as int;
        let n4 = opaque_auth::encoding(v.cred).len() + n5;
        lemma_aligned_sum(opaque_auth::encoding(v.cred).len() as int, n5);
        let n3 = u32::encoding(v.proc).len() + n4;
        lemma_aligned_sum(u32::encoding(v.proc).len() as int, n4);
        let n2 = u32::encoding(v.vers).len() + n3;
        lemma_aligned_sum(u32::encoding(v.vers).len() as int, n3);
        let n1 = u32::encoding(v.prog).len() + n2;
        lemma_aligned_sum(u32::encoding(v.prog).len() as int, n2);
        let n0 = u32::encoding(v.rpcvers).len() + n1;
        lemma_aligned_sum(u32::encoding(v.rpcvers).len() as int, n1);
        assert(Self::encoding(v).len() == n0);
    }
}

/// The reply to a call.
#[derive(Clone, Debug, PartialEq, Eq)]
pub enum reply_body {
    MSG_ACCEPTED(accepted_reply),
    MSG_DENIED(rejected_reply),
}

/// What a [`reply_body`] holds.
pub enum reply_body_view {
    MSG_ACCEPTED(accepted_reply_view),
    MSG_DENIED(rejected_reply),
}

impl View for reply_body {
    type V = reply_body_view;

    open spec fn view(&self) -> reply_body_view {
        match self {
            reply_body::MSG_ACCEPTED(x) => reply_body_view::MSG_ACCEPTED(x@),
            reply_body::MSG_DENIED(x) => reply_body_view::MSG_DENIED(x@),
        }
    }
}

impl Default for reply_body {
    fn default() -> (r: reply_body)
        ensures
            r is MSG_ACCEPTED,
    {
        reply_body::MSG_ACCEPTED(accepted_reply::default())
    }
}

impl XDR for reply_body {
    #[verifier::opaque]
    open spec fn encoding(v: reply_body_view) -> Seq<u8> {
        match v {
            reply_body_view::MSG_ACCEPTED(x) => u32::encoding(0) + accepted_reply::encoding(x),
            reply_body_view::MSG_DENIED(x) => u32::encoding(1) + rejected_reply::encoding(x),
        }
    }

    open spec fn encodable(v: reply_body_view) -> bool {
        match v {
            reply_body_view::MSG_ACCEPTED(x) => accepted_reply::encodable(x),
            reply_body_view::MSG_DENIED(x) => rejected_reply::encodable(x),
        }
    }

    #[verifier::opaque]
    open spec fn decoding(src: Seq<u8>, pos: int) -> Result<(reply_body_view, int), XdrError> {
        let tag = u32::decoding(src, pos);
        if tag is Err {
            fail(tag)
        } else if val(tag) == 0 {
            let x = accepted_reply::decoding(src, next(tag));
            if x is Err {
                fail(x)
            } else {
                Ok((reply_body_view::MSG_ACCEPTED(val(x)), next(x)))
            }
        } else if val(tag) == 1 {
            let x = rejected_reply::decoding(src, next(tag));
            if x is Err {
                fail(x)
            } else {
                Ok((reply_body_view::MSG_DENIED(val(x)), next(x)))
            }
        } else {
            Err(XdrError::InvalidData)
        }
    }

    fn serialize(&self, dest: &mut Vec<u8>) {
        proof {
            reveal(<reply_body as XDR>::encoding);
        }
        match self {
            reply_body::MSG_ACCEPTED(x) => {
                0_u32.serialize(dest);
                x.serialize(dest);
                assert(dest@ =~= old(dest)@ + Self::encoding(self@));
            },
            reply_body::MSG_DENIED(x) => {
                1_u32.serialize(dest);
                x.serialize(dest);
                assert(dest@ =~= old(dest)@ + Self::encoding(self@));
            },
        }
    }

    fn deserialize(&mut self, src: &mut ByteReader) -> (r: Result<(), XdrError>) {
        proof {
            reveal(<reply_body as XDR>::decoding);
        }
        let mut tag: u32 = 0;
        tag.deserialize(src)?;
        if tag == 0 {
            let mut x: accepted_reply = accepted_reply::default();
            x.deserialize(src)?;
            *self = reply_body::MSG_ACCEPTED(x);
        } else if tag == 1 {
            let mut x: rejected_reply = rejected_reply::default();
            x.deserialize(src)?;
            *self = reply_body::MSG_DENIED(x);
        } else {
            return Err(XdrError::InvalidData);
        }
        Ok(())
    }

    proof fn lemma_decoding_inverts_encoding(v: reply_body_view, src: Seq<u8>, pos: int) {
        reveal(<reply_body as XDR>::encoding);
        reveal(<reply_body as XDR>::decoding);
        match v {
            reply_body_view::MSG_ACCEPTED(x) => {
                lemma_field::<u32>(0, accepted_reply::encoding(x), src, pos);
                accepted_reply::lemma_decoding_inverts_encoding(x, src, pos + 4);
            },
            reply_body_view::MSG_DENIED(x) => {
                lemma_field::<u32>(1, rejected_reply::encoding(x), src, pos);
                rejected_reply::lemma_decoding_inverts_encoding(x, src, pos + 4);
            },
        }
    }

    open spec fn word_aligned() -> bool {
        true
    }

    proof fn lemma_encoding_aligned(v: reply_body_view) {
        reveal(<reply_body as XDR>::encoding);
        match v {
            reply_body_view::MSG_ACCEPTED(x) => {
                accepted_reply::lemma_encoding_aligned(x);
            },
            reply_body_view::MSG_DENIED(x) => {
                rejected_reply::lemma_encoding_aligned(x);
            },
        }
    }
}

/// The lowest and the highest version that the server supports.
#[derive(Copy, Clone, Debug, PartialEq, Eq, Structural)]
pub struct mismatch_info {
    pub low: u32,
    pub high: u32,
}

impl View for mismatch_info {
    type V = mismatch_info;

    open spec fn view(&self) -> mismatch_info {
        *self
    }
}

impl Default for mismatch_info {
    fn default() -> (r: mismatch_info)
        ensures
            r.low == 0,
            r.high == 0,
    {
        mismatch_info {
            low: 0,
            high: 0,
        }
    }
}

impl XDR for mismatch_info {
    #[verifier::opaque]
    open spec fn encoding(v: mismatch_info) -> Seq<u8> {
        u32::encoding(v.low) + (u32::encoding(v.high))
    }

    open spec fn encodable(v: mismatch_info) -> bool {
        &&& u32::encodable(v.low)
        &&& u32::encodable(v.high)
    }

    #[verifier::opaque]
    open spec fn decoding(src: Seq<u8>, pos: int) -> Result<(mismatch_info, int), XdrError> {
        let low = u32::decoding(src, pos);
        let high = u32::decoding(src, next(low));
        if low is Err {
            fail(low)
        } else if high is Err {
            fail(high)
        } else {
            Ok((mismatch_info { low: val(low), high: val(high) }, next(high)))
        }
    }

    fn serialize(&self, dest: &mut Vec<u8>) {
        self.low.serialize(dest);
        self.high.serialize(dest);
        proof {
            reveal(<mismatch_info as XDR>::encoding);
            let d0 = old(dest)@;
            let t1 = u32::encoding(self.high@);
            lemma_concat_assoc(d0, u32::encoding(self.low@), t1);
        }
    }

    fn deserialize(&mut self, src: &mut ByteReader) -> (r: Result<(), XdrError>) {
        proof {
            reveal(<mismatch_info as XDR>::decoding);
        }
        self.low.deserialize(src)?;
        self.high.deserialize(src)?;
        Ok(())
    }

    proof fn lemma_decoding_inverts_encoding(v: mismatch_info, src: Seq<u8>, pos: int) {
        reveal(<mismatch_info as XDR>::encoding);
        reveal(<mismatch_info as XDR>::decoding);
        let t1 = u32::encoding(v.high);
        lemma_field::<u32>(v.low, t1, src, pos);
        let p1 = pos + u32::encoding(v.low).len();
        u32::lemma_decoding_inverts_encoding(v.high, src, p1);
    }

    open spec fn word_aligned() -> bool {
        true
    }

    proof fn lemma_encoding_aligned(v: mismatch_info) {
        reveal(<mismatch_info as XDR>::encoding);
        u32::lemma_encoding_aligned(v.low);
        u32::lemma_encoding_aligned(v.high);
        let n1 = u32::encoding(v.high).len() as int;
        let n0 = u32::encoding(v.low).len() + n1;
        lemma_aligned_sum(u32::encoding(v.low).len() as int, n1);
        assert(Self::encoding(v).len() == n0);
    }
}

/// The reply to a call that the server accepted.
#[derive(Clone, Debug, PartialEq, Eq)]
pub struct accepted_reply {
    /// The verifier by which the server shows who it is.
    pub verf: opaque_auth,
    pub reply_data: accept_body,
}

/// What a [`accepted_reply`] holds.
pub struct accepted_reply_view {
    pub verf: opaque_auth_view,
    pub reply_data: accept_body,
}

impl View for accepted_reply {
    type V = accepted_reply_view;

    open spec fn view(&self) -> accepted_reply_view {
        accepted_reply_view {
            verf: self.verf@,
            reply_data: self.reply_data@,
        }
    }
}

impl Default for accepted_reply {
    fn default() -> (r: accepted_reply)
    {
        accepted_reply {
            verf: opaque_auth::default(),
            reply_data: accept_body::default(),
        }
    }
}

impl XDR for accepted_reply {
    #[verifier::opaque]
    open spec fn encoding(v: accepted_reply_view) -> Seq<u8> {
        opaque_auth::encoding(v.verf) + (accept_body::encoding(v.reply_data))
    }

    open spec fn encodable(v: accepted_reply_view) -> bool {
        &&& opaque_auth::encodable(v.verf)
        &&& accept_body::encodable(v.reply_data)
    }

    #[verifier::opaque]
    open spec fn decoding(src: Seq<u8>, pos: int) -> Result<(accepted_reply_view, int), XdrError> {
        let verf = opaque_auth::decoding(src, pos);
        let reply_data = accept_body::decoding(src, next(verf));
        if verf is Err {
            fail(verf)
        } else if reply_data is Err {
            fail(reply_data)
        } else {
            Ok(
                (
                    accepted_reply_view {
                        verf: val(verf),
                        reply_data: val(reply_data),
                    },
                    next(reply_data),
                ),
            )
        }
    }

    fn serialize(&self, dest: &mut Vec<u8>) {
        self.verf.serialize(dest);
        self.reply_data.serialize(dest);
        proof {
            reveal(<accepted_reply as XDR>::encoding);
            let d0 = old(dest)@;
            let t1 = accept_body::encoding(self.reply_data@);
            lemma_concat_assoc(d0, opaque_auth::encoding(self.verf@), t1);
        }
    }

    fn deserialize(&mut self, src: &mut ByteReader) -> (r: Result<(), XdrError>) {
        proof {
            reveal(<accepted_reply as XDR>::decoding);
        }
        self.verf.deserialize(src)?;
        self.reply_data.deserialize(src)?;
        Ok(())
    }

    proof fn lemma_decoding_inverts_encoding(v: accepted_reply_view, src: Seq<u8>, pos: int) {
        reveal(<accepted_reply as XDR>::encoding);
        reveal(<accepted_reply as XDR>::decoding);
        let t1 = accept_body::encoding(v.reply_data);
        lemma_field::<opaque_auth>(v.verf, t1, src, pos);
        let p1 = pos + opaque_auth::encoding(v.verf).len();
        accept_body::lemma_decoding_inverts_encoding(v.reply_data, src, p1);
    }

    open spec fn word_aligned() -> bool {
        true
    }

    proof fn lemma_encoding_aligned(v: accepted_reply_view) {
        reveal(<accepted_reply as XDR>::encoding);
        opaque_auth::lemma_encoding_aligned(v.verf);
        accept_body::lemma_encoding_aligned(v.reply_data);
        let n1 = accept_body::encoding(v.reply_data).len() as int;
        let n0 = opaque_auth::encoding(v.verf).len() + n1;
        lemma_aligned_sum(opaque_auth::encoding(v.verf).len() as int, n1);
        assert(Self::encoding(v).len() == n0);
    }
}

/// What became of a call that the server accepted. The results of a
/// successful call follow the message and depend on the procedure.
#[derive(Copy, Clone, Debug, PartialEq, Eq, Structural)]
pub enum accept_body {
    /// The procedure ran.
    SUCCESS,
    /// The server does not export the program.
    PROG_UNAVAIL,
    /// The server does not support the version of the program.
    PROG_MISMATCH(mismatch_info),
    /// The program does not have the procedure.
    PROC_UNAVAIL,
    /// The procedure could not decode its arguments.
    GARBAGE_ARGS,
}

impl View for accept_body {
    type V = accept_body;

    open spec fn view(&self) -> accept_body {
        *self
    }
}

impl Default for accept_body {
    fn default() -> (r: accept_body)
        ensures
            r == accept_body::SUCCESS,
    {
        accept_body::SUCCESS
    }
}

impl XDR for accept_body {
    #[verifier::opaque]
    open spec fn encoding(v: accept_body) -> Seq<u8> {
        match v {
            accept_body::SUCCESS => u32::encoding(0),
            accept_body::PROG_UNAVAIL => u32::encoding(1),
            accept_body::PROG_MISMATCH(x) => u32::encoding(2) + mismatch_info::encoding(x),
            accept_body::PROC_UNAVAIL => u32::encoding(3),
            accept_body::GARBAGE_ARGS => u32::encoding(4),
        }
    }

    open spec fn encodable(v: accept_body) -> bool {
        match v {
            accept_body::SUCCESS => true,
            accept_body::PROG_UNAVAIL => true,
            accept_body::PROG_MISMATCH(x) => mismatch_info::encodable(x),
            accept_body::PROC_UNAVAIL => true,
            accept_body::GARBAGE_ARGS => true,
        }
    }

    #[verifier::opaque]
    open spec fn decoding(src: Seq<u8>, pos: int) -> Result<(accept_body, int), XdrError> {
        let tag = u32::decoding(src, pos);
        if tag is Err {
            fail(tag)
        } else if val(tag) == 0 {
            Ok((accept_body::SUCCESS, next(tag)))
        } else if val(tag) == 1 {
            Ok((accept_body::PROG_UNAVAIL, next(tag)))
        } else if val(tag) == 2 {
            let x = mismatch_info::decoding(src, next(tag));
            if x is Err {
                fail(x)
            } else {
                Ok((accept_body::PROG_MISMATCH(val(x)), next(x)))
            }
        } else if val(tag) == 3 {
            Ok((accept_body::PROC_UNAVAIL, next(tag)))
        } else if val(tag) == 4 {
            Ok((accept_body::GARBAGE_ARGS, next(tag)))
        } else {
            Err(XdrError::InvalidData)
        }
    }

    fn serialize(&self, dest: &mut Vec<u8>) {
        proof {
            reveal(<accept_body as XDR>::encoding);
        }
        match self {
            accept_body::SUCCESS => {
                0_u32.serialize(dest);
            },
            accept_body::PROG_UNAVAIL => {
                1_u32.serialize(dest);
            },
            accept_body::PROG_MISMATCH(x) => {
                2_u32.serialize(dest);
                x.serialize(dest);
                assert(dest@ =~= old(dest)@ + Self::encoding(self@));
            },
            accept_body::PROC_UNAVAIL => {
                3_u32.serialize(dest);
            },
            accept_body::GARBAGE_ARGS => {
                4_u32.serialize(dest);
            },
        }
    }

    fn deserialize(&mut self, src: &mut ByteReader) -> (r: Result<(), XdrError>) {
        proof {
            reveal(<accept_body as XDR>::decoding);
        }
        let mut tag: u32 = 0;
        tag.deserialize(src)?;
        if tag == 0 {
            *self = accept_body::SUCCESS;
        } else if tag == 1 {
            *self = accept_body::PROG_UNAVAIL;
        } else if tag == 2 {
            let mut x: mismatch_info = mismatch_info::default();
            x.deserialize(src)?;
            *self = accept_body::PROG_MISMATCH(x);
        } else if tag == 3 {
            *self = accept_body::PROC_UNAVAIL;
        } else if tag == 4 {
            *self = accept_body::GARBAGE_ARGS;
        } else {
            return Err(XdrError::InvalidData);
        }
        Ok(())
    }

    proof fn lemma_decoding_inverts_encoding(v: accept_body, src: Seq<u8>, pos: int) {
        reveal(<accept_body as XDR>::encoding);
        reveal(<accept_body as XDR>::decoding);
        match v {
            accept_body::SUCCESS => {
                u32::lemma_decoding_inverts_encoding(0, src, pos);
            },
            accept_body::PROG_UNAVAIL => {
                u32::lemma_decoding_inverts_encoding(1, src, pos);
            },
            accept_body::PROG_MISMATCH(x) => {
                lemma_field::<u32>(2, mismatch_info::encoding(x), src, pos);
                mismatch_info::lemma_decoding_inverts_encoding(x, src, pos + 4);
            },
            accept_body::PROC_UNAVAIL => {
                u32::lemma_decoding_inverts_encoding(3, src, pos);
            },
            accept_body::GARBAGE_ARGS => {
                u32::lemma_decoding_inverts_encoding(4, src, pos);
            },
        }
    }

    open spec fn word_aligned() -> bool {
        true
    }

    proof fn lemma_encoding_aligned(v: accept_body) {
        reveal(<accept_body as XDR>::encoding);
        match v {
            accept_body::SUCCESS => {},
            accept_body::PROG_UNAVAIL => {},
            accept_body::PROG_MISMATCH(x) => {
                mismatch_info::lemma_encoding_aligned(x);
            },
            accept_body::PROC_UNAVAIL => {},
            accept_body::GARBAGE_ARGS => {},
        }
    }
}

/// Why the server rejected a call.
#[derive(Copy, Clone, Debug, PartialEq, Eq, Structural)]
pub enum rejected_reply {
    /// The server does not speak the RPC version of the call.
    RPC_MISMATCH(mismatch_info),
    /// The server refuses to authenticate the caller.
    AUTH_ERROR(auth_stat),
}

impl View for rejected_reply {
    type V = rejected_reply;

    open spec fn view(&self) -> rejected_reply {
        *self
    }
}

impl Default for rejected_reply {
    fn default() -> (r: rejected_reply)
        ensures
            r is RPC_MISMATCH,
    {
        rejected_reply::RPC_MISMATCH(mismatch_info::default())
    }
}

impl XDR for rejected_reply {
    #[verifier::opaque]
    open spec fn encoding(v: rejected_reply) -> Seq<u8> {
        match v {
            rejected_reply::RPC_MISMATCH(x) => u32::encoding(0) + mismatch_info::encoding(x),
            rejected_reply::AUTH_ERROR(x) => u32::encoding(1) + auth_stat::encoding(x),
        }
    }

    open spec fn encodable(v: rejected_reply) -> bool {
        match v {
            rejected_reply::RPC_MISMATCH(x) => mismatch_info::encodable(x),
            rejected_reply::AUTH_ERROR(x) => auth_stat::encodable(x),
        }
    }

    #[verifier::opaque]
    open spec fn decoding(src: Seq<u8>, pos: int) -> Result<(rejected_reply, int), XdrError> {
        let tag = u32::decoding(src, pos);
        if tag is Err {
            fail(tag)
        } else if val(tag) == 0 {
            let x = mismatch_info::decoding(src, next(tag));
            if x is Err {
                fail(x)
            } else {
                Ok((rejected_reply::RPC_MISMATCH(val(x)), next(x)))
            }
        } else if val(tag) == 1 {
            let x = auth_stat::decoding(src, next(tag));
            if x is Err {
                fail(x)
            } else {
                Ok((rejected_reply::AUTH_ERROR(val(x)), next(x)))
            }
        } else {
            Err(XdrError::InvalidData)
        }
    }

    fn serialize(&self, dest: &mut Vec<u8>) {
        proof {
            reveal(<rejected_reply as XDR>::encoding);
        }
        match self {
            rejected_reply::RPC_MISMATCH(x) => {
                0_u32.serialize(dest);
                x.serialize(dest);
                assert(dest@ =~= old(dest)@ + Self::encoding(self@));
            },
            rejected_reply::AUTH_ERROR(x) => {
                1_u32.serialize(dest);
                x.serialize(dest);
                assert(dest@ =~= old(dest)@ + Self::encoding(self@));
            },
        }
    }

    fn deserialize(&mut self, src: &mut ByteReader) -> (r: Result<(), XdrError>) {
        proof {
            reveal(<rejected_reply as XDR>::decoding);
        }
        let mut tag: u32 = 0;
        tag.deserialize(src)?;
        if tag == 0 {
            let mut x: mismatch_info = mismatch_info::default();
            x.deserialize(src)?;
            *self = rejected_reply::RPC_MISMATCH(x);
        } else if tag == 1 {
            let mut x: auth_stat = auth_stat::default();
            x.deserialize(src)?;
            *self = rejected_reply::AUTH_ERROR(x);
        } else {
            return Err(XdrError::InvalidData);
        }
        Ok(())
    }

    proof fn lemma_decoding_inverts_encoding(v: rejected_reply, src: Seq<u8>, pos: int) {
        reveal(<rejected_reply as XDR>::encoding);
        reveal(<rejected_reply as XDR>::decoding);
        match v {
            rejected_reply::RPC_MISMATCH(x) => {
                lemma_field::<u32>(0, mismatch_info::encoding(x), src, pos);
                mismatch_info::lemma_decoding_inverts_encoding(x, src, pos + 4);
            },
            rejected_reply::AUTH_ERROR(x) => {
                lemma_field::<u32>(1, auth_stat::encoding(x), src, pos);
                auth_stat::lemma_decoding_inverts_encoding(x, src, pos + 4);
            },
        }
    }

    open spec fn word_aligned() -> bool {
        true
    }

    proof fn lemma_encoding_aligned(v: rejected_reply) {
        reveal(<rejected_reply as XDR>::encoding);
        match v {
            rejected_reply::RPC_MISMATCH(x) => {
                mismatch_info::lemma_encoding_aligned(x);
            },
            rejected_reply::AUTH_ERROR(x) => {
                auth_stat::lemma_encoding_aligned(x);
            },
        }
    }
}

/// The reply that accepts call `xid` with the outcome `body`.
pub open spec fn accepted_message(xid: u32, body: accept_body) -> rpc_msg_view {
    rpc_msg_view {
        xid,
        body: rpc_body_view::REPLY(
            reply_body_view::MSG_ACCEPTED(
                accepted_reply_view { verf: null_auth(), reply_data: body },
            ),
        ),
    }
}

/// The reply that denies call `xid` for its RPC version.
pub open spec fn denied_message(xid: u32) -> rpc_msg_view {
    rpc_msg_view {
        xid,
        body: rpc_body_view::REPLY(
            reply_body_view::MSG_DENIED(
                rejected_reply::RPC_MISMATCH(mismatch_info { low: 0, high: 0 }),
            ),
        ),
    }
}

fn accepted(xid: u32, body: accept_body) -> (msg: rpc_msg)
    ensures
        msg@ == accepted_message(xid, body),
{
    let reply = reply_body::MSG_ACCEPTED(
        accepted_reply { verf: opaque_auth::default(), reply_data: body },
    );
    rpc_msg { xid, body: rpc_body::REPLY(reply) }
}

pub fn proc_unavail_reply_message(xid: u32) -> (msg: rpc_msg)
    ensures
        msg@ == accepted_message(xid, accept_body::PROC_UNAVAIL),
{
    accepted(xid, accept_body::PROC_UNAVAIL)
}

pub fn prog_unavail_reply_message(xid: u32) -> (msg: rpc_msg)
    ensures
        msg@ == accepted_message(xid, accept_body::PROG_UNAVAIL),
{
    accepted(xid, accept_body::PROG_UNAVAIL)
}

pub fn prog_mismatch_reply_message(xid: u32, accepted_ver: u32) -> (msg: rpc_msg)
    ensures
        msg@ == accepted_message(
            xid,
            accept_body::PROG_MISMATCH(mismatch_info { low: accepted_ver, high: accepted_ver }),
        ),
{
    accepted(
        xid,
        accept_body::PROG_MISMATCH(mismatch_info { low: accepted_ver, high: accepted_ver }),
    )
}

pub fn garbage_args_reply_message(xid: u32) -> (msg: rpc_msg)
    ensures
        msg@ == accepted_message(xid, accept_body::GARBAGE_ARGS),
{
    accepted(xid, accept_body::GARBAGE_ARGS)
}

pub fn rpc_vers_mismatch(xid: u32) -> (msg: rpc_msg)
    ensures
        msg@ == denied_message(xid),
{
    let reply = reply_body::MSG_DENIED(
        rejected_reply::RPC_MISMATCH(mismatch_info { low: 0, high: 0 }),
    );
    rpc_msg { xid, body: rpc_body::REPLY(reply) }
}

pub fn make_success_reply(xid: u32) -> (msg: rpc_msg)
    ensures
        msg@ == accepted_message(xid, accept_body::SUCCESS),
{
    accepted(xid, accept_body::SUCCESS)
}

/// Every reply that the server makes up itself can be put on the wire.
pub proof fn lemma_messages_encodable(xid: u32, body: accept_body)
    ensures
        rpc_msg::encodable(accepted_message(xid, body)),
        rpc_msg::encodable(denied_message(xid)),
{
}

/// The bytes that accept call `xid` as successful. The results of the
/// procedure follow them.
pub open spec fn success_header(xid: u32) -> Seq<u8> {
    rpc_msg::encoding(accepted_message(xid, accept_body::SUCCESS))
}

/// The bytes that tell the caller of `xid` that its arguments could not be
/// decoded.
pub open spec fn garbage_reply(xid: u32) -> Seq<u8> {
    rpc_msg::encoding(accepted_message(xid, accept_body::GARBAGE_ARGS))
}

/// The bytes of an accepted reply without results: the transaction
/// identifier, the words for "reply" and "accepted", an empty verifier of
/// flavor `AUTH_NULL`, and the outcome.
pub proof fn lemma_accepted_bytes(xid: u32, body: accept_body)
    ensures
        rpc_msg::encoding(accepted_message(xid, body)) == be32_bytes(xid) + be32_bytes(1)
            + be32_bytes(0) + be32_bytes(0) + be32_bytes(0) + accept_body::encoding(body),
        !(body is PROG_MISMATCH) ==> accept_body::encoding(body) == be32_bytes(
            match body {
                accept_body::SUCCESS => 0u32,
                accept_body::PROG_UNAVAIL => 1u32,
                accept_body::PROC_UNAVAIL => 3u32,
                _ => 4u32,
            },
        ),
        !(body is PROG_MISMATCH) ==> rpc_msg::encoding(accepted_message(xid, body)).len() == 24,
{
    reveal(<rpc_msg as XDR>::encoding);
    reveal(<rpc_body as XDR>::encoding);
    reveal(<reply_body as XDR>::encoding);
    reveal(<accepted_reply as XDR>::encoding);
    reveal(<opaque_auth as XDR>::encoding);
    reveal(<auth_flavor as XDR>::encoding);
    reveal(<accept_body as XDR>::encoding);
    let e: Seq<u8> = Seq::empty();
    assert(opaque_encoding(e) =~= be32_bytes(0));
    assert(rpc_msg::encoding(accepted_message(xid, body)) =~= be32_bytes(xid) + be32_bytes(1)
        + be32_bytes(0) + be32_bytes(0) + be32_bytes(0) + accept_body::encoding(body));
}

/// Appends the reply that accepts call `xid` with the outcome `body`.
pub fn write_accepted(xid: u32, body: accept_body, output: &mut Vec<u8>)
    ensures
        final(output)@ == old(output)@ + rpc_msg::encoding(accepted_message(xid, body)),
{
    let msg = accepted(xid, body);
    proof {
        lemma_messages_encodable(xid, body);
    }
    msg.serialize(output);
}

} // verus!
