//! The data types of the port mapper, version 2 (RFC 1057, appendix A).

use crate::xdr::{
    fail, lemma_aligned_sum, lemma_concat_assoc, lemma_field, next, val, ByteReader, XdrError,
    XDR,
};
use vstd::prelude::*;

verus! {

/// A program, a version of it, a transport protocol, and the port at which
/// the program listens.
#[derive(Copy, Clone, Debug, PartialEq, Eq, Structural)]
pub struct mapping {
    pub prog: u32,
    pub vers: u32,
    pub prot: u32,
    pub port: u32,
}

impl View for mapping {
    type V = mapping;

    open spec fn view(&self) -> mapping {
        *self
    }
}

impl Default for mapping {
    fn default() -> (r: mapping)
        ensures
            r.prog == 0,
            r.vers == 0,
            r.prot == 0,
            r.port == 0,
    {
        mapping {
            prog: 0,
            vers: 0,
            prot: 0,
            port: 0,
        }
    }
}

impl XDR for mapping {
    #[verifier::opaque]
    open spec fn encoding(v: mapping) -> Seq<u8> {
        u32::encoding(v.prog) + (
            u32::encoding(v.vers) + (
            u32::encoding(v.prot) + (
            u32::encoding(v.port))))
    }

    open spec fn encodable(v: mapping) -> bool {
        &&& u32::encodable(v.prog)
        &&& u32::encodable(v.vers)
        &&& u32::encodable(v.prot)
        &&& u32::encodable(v.port)
    }

    #[verifier::opaque]
    open spec fn decoding(src: Seq<u8>, pos: int) -> Result<(mapping, int), XdrError> {
        let prog = u32::decoding(src, pos);
        let vers = u32::decoding(src, next(prog));
        let prot = u32::decoding(src, next(vers));
        let port = u32::decoding(src, next(prot));
        if prog is Err {
            fail(prog)
        } else if vers is Err {
            fail(vers)
        } else if prot is Err {
            fail(prot)
        } else if port is Err {
            fail(port)
        } else {
            Ok(
                (
                    mapping {
                        prog: val(prog),
                        vers: val(vers),
                        prot: val(prot),
                        port: val(port),
                    },
                    next(port),
                ),
            )
        }
    }

    fn serialize(&self, dest: &mut Vec<u8>) {
        self.prog.serialize(dest);
        self.vers.serialize(dest);
        self.prot.serialize(dest);
        self.port.serialize(dest);
        proof {
            reveal(<mapping as XDR>::encoding);
            let d0 = old(dest)@;
            let d1 = d0 + u32::encoding(self.prog@);
            let d2 = d1 + u32::encoding(self.vers@);
            let t3 = u32::encoding(self.port@);
            let t2 = u32::encoding(self.prot@) + t3;
            let t1 = u32::encoding(self.vers@) + t2;
            lemma_concat_assoc(d2, u32::encoding(self.prot@), t3);
            lemma_concat_assoc(d1, u32::encoding(self.vers@), t2);
            lemma_concat_assoc(d0, u32::encoding(self.prog@), t1);
        }
    }

    fn deserialize(&mut self, src: &mut ByteReader) -> (r: Result<(), XdrError>) {
        proof {
            reveal(<mapping as XDR>::decoding);
        }
        self.prog.deserialize(src)?;
        self.vers.deserialize(src)?;
        self.prot.deserialize(src)?;
        self.port.deserialize(src)?;
        Ok(())
    }

    proof fn lemma_decoding_inverts_encoding(v: mapping, src: Seq<u8>, pos: int) {
        reveal(<mapping as XDR>::encoding);
        reveal(<mapping as XDR>::decoding);
        let t3 = u32::encoding(v.port);
        let t2 = u32::encoding(v.prot) + t3;
        let t1 = u32::encoding(v.vers) + t2;
        lemma_field::<u32>(v.prog, t1, src, pos);
        let p1 = pos + u32::encoding(v.prog).len();
        lemma_field::<u32>(v.vers, t2, src, p1);
        let p2 = p1 + u32::encoding(v.vers).len();
        lemma_field::<u32>(v.prot, t3, src, p2);
        let p3 = p2 + u32::encoding(v.prot).len();
        u32::lemma_decoding_inverts_encoding(v.port, src, p3);
    }

    open spec fn word_aligned() -> bool {
        true
    }

    proof fn lemma_encoding_aligned(v: mapping) {
        reveal(<mapping as XDR>::encoding);
        u32::lemma_encoding_aligned(v.prog);
        u32::lemma_encoding_aligned(v.vers);
        u32::lemma_encoding_aligned(v.prot);
        u32::lemma_encoding_aligned(v.port);
        let n3 = u32::encoding(v.port).len() as int;
        let n2 = u32::encoding(v.prot).len() + n3;
        lemma_aligned_sum(u32::encoding(v.prot).len() as int, n3);
        let n1 = u32::encoding(v.vers).len() + n2;
        lemma_aligned_sum(u32::encoding(v.vers).len() as int, n2);
        let n0 = u32::encoding(v.prog).len() + n1;
        lemma_aligned_sum(u32::encoding(v.prog).len() as int, n1);
        assert(Self::encoding(v).len() == n0);
    }
}

/// Protocol number for TCP/IP.
pub const IPPROTO_TCP: u32 = 6;

/// Protocol number for UDP/IP.
pub const IPPROTO_UDP: u32 = 17;

/// RPC program number of the port mapper.
pub const PROGRAM: u32 = 100000;

/// RPC version number of the port mapper.
pub const VERSION: u32 = 2;

} // verus!
