//! A byte sink that counts what is written to it.

use crate::xdr::append_bytes;
use vstd::prelude::*;

verus! {

/// A buffer and the number of bytes written to it through the counter.
pub struct WriteCounter {
    inner: Vec<u8>,
    count: usize,
}

impl WriteCounter {
    /// The bytes never exceed what the buffer holds.
    #[verifier::type_invariant]
    spec fn well_formed(self) -> bool {
        self.count <= self.inner@.len()
    }

    /// What the buffer holds.
    pub closed spec fn contents(self) -> Seq<u8> {
        self.inner@
    }

    /// How many bytes went through the counter.
    pub closed spec fn written(self) -> nat {
        self.count as nat
    }

    /// A counter at zero around `inner`.
    pub fn new(inner: Vec<u8>) -> (w: WriteCounter)
        ensures
            w.contents() == inner@,
            w.written() == 0,
    {
        WriteCounter { inner, count: 0 }
    }

    /// The buffer, with all that was written behind what it held at first.
    pub fn into_inner(self) -> (inner: Vec<u8>)
        ensures
            inner@ == self.contents(),
    {
        self.inner
    }

    pub fn bytes_written(&self) -> (n: usize)
        ensures
            n == self.written(),
    {
        self.count
    }

    /// Appends `buf` to the buffer and returns how many bytes were written:
    /// all of them.
    pub fn write(&mut self, buf: &[u8]) -> (n: usize)
        ensures
            n == buf@.len(),
            final(self).contents() == old(self).contents() + buf@,
            final(self).written() == old(self).written() + buf@.len(),
    {
        proof {
            use_type_invariant(&*self);
        }
        let n: usize = buf.len();
        let before: usize = self.count;
        // The buffer leaves the counter while it grows, so the count waits at zero.
        self.count = 0;
        let mut inner: Vec<u8> = Vec::new();
        std::mem::swap(&mut inner, &mut self.inner);
        append_bytes(&mut inner, buf);
        let total: usize = inner.len();
        assert(before + n <= total);
        *self = WriteCounter { inner, count: before + n };
        n
    }

    /// Nothing is held back, so there is nothing to flush.
    pub fn flush(&mut self)
        ensures
            *final(self) == *old(self),
    {
    }
}

} // verus!
