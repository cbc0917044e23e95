//! XDR wire encoding: big-endian words, length-prefixed opaque data padded to
//! four bytes, and counted arrays.
//!
//! Every wire type has a mathematical view, an encoding of that view as a
//! byte sequence, and a decoding that reads a view back from a position in a
//! byte sequence. Serializers append the encoding to a buffer; deserializers
//! read at a cursor and advance it.

use vstd::prelude::*;

verus! {

/// Why a decoding stopped.
#[derive(Clone, Copy, Debug, PartialEq, Eq, Structural)]
pub enum XdrError {
    /// The input ended before the value was complete.
    UnexpectedEof,
    /// A discriminant or enumeration value outside the closed set.
    InvalidData,
}

/// `enc` occupies `src` from `pos` on.
pub open spec fn holds_at(src: Seq<u8>, pos: int, enc: Seq<u8>) -> bool {
    &&& 0 <= pos
    &&& pos + enc.len() <= src.len()
    &&& forall|i: int| 0 <= i < enc.len() ==> src[pos + i] == #[trigger] enc[i]
}

/// Where a concatenation occupies a range, so do both of its halves.
pub proof fn lemma_holds_at_split(src: Seq<u8>, pos: int, a: Seq<u8>, b: Seq<u8>)
    requires
        holds_at(src, pos, a + b),
    ensures
        holds_at(src, pos, a),
        holds_at(src, pos + a.len(), b),
{
    assert forall|i: int| 0 <= i < a.len() implies src[pos + i] == #[trigger] a[i] by {
        assert((a + b)[i] == a[i]);
    }
    assert forall|i: int| 0 <= i < b.len() implies src[pos + a.len() + i] == #[trigger] b[i] by {
        assert((a + b)[a.len() + i] == b[i]);
    }
}

/// A byte buffer with a read position.
pub struct ByteReader {
    pub data: Vec<u8>,
    pub pos: usize,
}

impl ByteReader {
    pub fn new(data: Vec<u8>) -> (r: ByteReader)
        ensures
            r.data@ == data@,
            r.pos == 0,
    {
        ByteReader { data, pos: 0 }
    }

    /// Number of bytes not yet read.
    pub fn remaining(&self) -> (n: usize)
        ensures
            n == if self.pos <= self.data@.len() { self.data@.len() - self.pos } else { 0 },
            self.data@.len() <= usize::MAX,
    {
        if self.pos <= self.data.len() {
            self.data.len() - self.pos
        } else {
            0
        }
    }
}

/// A type with an XDR wire form.
pub trait XDR: View + Sized {
    /// The wire form of a value.
    spec fn encoding(v: Self::V) -> Seq<u8>;

    /// Whether a value can be put on the wire.
    spec fn encodable(v: Self::V) -> bool;

    /// The value read from `src` at `pos` and the position after it.
    spec fn decoding(src: Seq<u8>, pos: int) -> Result<(Self::V, int), XdrError>;

    /// Appends the wire form of `self` to `dest`.
    fn serialize(&self, dest: &mut Vec<u8>)
        requires
            Self::encodable(self@),
        ensures
            final(dest)@ == old(dest)@ + Self::encoding(self@),
    ;

    /// Reads a value from `src` into `self` and moves the cursor past it.
    /// Where the bytes at the cursor are no value, nothing is said of what
    /// `self` holds afterwards, nor of where the cursor stands.
    fn deserialize(&mut self, src: &mut ByteReader) -> (r: Result<(), XdrError>)
        ensures
            final(src).data@ == old(src).data@,
            match Self::decoding(old(src).data@, old(src).pos as int) {
                Ok((v, end)) => r is Ok && final(self)@ == v && final(src).pos == end,
                Err(e) => r == Err::<(), XdrError>(e),
            },
    ;

    /// Decoding reads back what encoding wrote, wherever it stands.
    proof fn lemma_decoding_inverts_encoding(v: Self::V, src: Seq<u8>, pos: int)
        requires
            Self::encodable(v),
            holds_at(src, pos, Self::encoding(v)),
        ensures
            Self::decoding(src, pos) == Ok::<(Self::V, int), XdrError>(
                (v, pos + Self::encoding(v).len()),
            ),
    ;

    /// Whether every wire form of the type is a whole number of four-byte
    /// words. It is, except for fixed opaque arrays of another length.
    spec fn word_aligned() -> bool;

    /// The wire form is a whole number of four-byte words.
    proof fn lemma_encoding_aligned(v: Self::V)
        requires
            Self::word_aligned(),
            Self::encodable(v),
        ensures
            Self::encoding(v).len() % 4 == 0,
    ;
}

/// Appending in two steps is appending the two parts joined.
pub proof fn lemma_concat_assoc(a: Seq<u8>, b: Seq<u8>, c: Seq<u8>)
    ensures
        (a + b) + c == a + (b + c),
{
    assert((a + b) + c =~= a + (b + c));
}

/// The sum of two multiples of four is a multiple of four.
pub proof fn lemma_aligned_sum(a: int, b: int)
    requires
        a % 4 == 0,
        b % 4 == 0,
    ensures
        (a + b) % 4 == 0,
{
}

/// Decoding one field of a record: the field is read back, and the rest of
/// the record stands right behind it.
pub proof fn lemma_field<T: XDR>(v: T::V, rest: Seq<u8>, src: Seq<u8>, pos: int)
    requires
        T::encodable(v),
        holds_at(src, pos, T::encoding(v) + rest),
    ensures
        T::decoding(src, pos) == Ok::<(T::V, int), XdrError>((v, pos + T::encoding(v).len())),
        holds_at(src, pos + T::encoding(v).len(), rest),
{
    lemma_holds_at_split(src, pos, T::encoding(v), rest);
    T::lemma_decoding_inverts_encoding(v, src, pos);
}

/// The value of a successful decoding.
pub open spec fn val<T>(r: Result<(T, int), XdrError>) -> T {
    r->Ok_0.0
}

/// The position after a successful decoding.
pub open spec fn next<T>(r: Result<(T, int), XdrError>) -> int {
    r->Ok_0.1
}

/// The failure of one field as the failure of the whole.
pub open spec fn fail<T, U>(r: Result<(T, int), XdrError>) -> Result<(U, int), XdrError> {
    Err(r->Err_0)
}

/// Decoding the wire form of a value, standing alone, gives the value back
/// and consumes all of it.
pub proof fn lemma_roundtrip<T: XDR>(v: T::V)
    requires
        T::encodable(v),
    ensures
        T::decoding(T::encoding(v), 0) == Ok::<(T::V, int), XdrError>(
            (v, T::encoding(v).len() as int),
        ),
{
    T::lemma_decoding_inverts_encoding(v, T::encoding(v), 0);
}

/// The unsigned number that four bytes spell, most significant first.
pub open spec fn be32(b0: u8, b1: u8, b2: u8, b3: u8) -> u32 {
    (b0 as int * 0x100_0000 + b1 as int * 0x1_0000 + b2 as int * 0x100 + b3 as int) as u32
}

/// The four bytes of an unsigned number, most significant first.
pub open spec fn be32_bytes(v: u32) -> Seq<u8> {
    seq![
        (v as int / 0x100_0000) as u8,
        (v as int / 0x1_0000 % 0x100) as u8,
        (v as int / 0x100 % 0x100) as u8,
        (v as int % 0x100) as u8,
    ]
}

/// Reading four bytes at `pos`.
pub open spec fn word_at(src: Seq<u8>, pos: int) -> Result<(u32, int), XdrError> {
    if 0 <= pos && pos + 4 <= src.len() {
        Ok((be32(src[pos], src[pos + 1], src[pos + 2], src[pos + 3]), pos + 4))
    } else {
        Err(XdrError::UnexpectedEof)
    }
}

impl XDR for u32 {
    open spec fn encoding(v: u32) -> Seq<u8> {
        be32_bytes(v)
    }

    open spec fn encodable(v: u32) -> bool {
        true
    }

    open spec fn decoding(src: Seq<u8>, pos: int) -> Result<(u32, int), XdrError> {
        word_at(src, pos)
    }

    fn serialize(&self, dest: &mut Vec<u8>) {
        let v: u32 = *self;
        dest.push((v / 0x100_0000) as u8);
        dest.push((v / 0x1_0000 % 0x100) as u8);
        dest.push((v / 0x100 % 0x100) as u8);
        dest.push((v % 0x100) as u8);
        assert(dest@ =~= old(dest)@ + be32_bytes(v));
    }

    fn deserialize(&mut self, src: &mut ByteReader) -> (r: Result<(), XdrError>) {
        if src.remaining() < 4 {
            return Err(XdrError::UnexpectedEof);
        }
        let p: usize = src.pos;
        let b0: u32 = src.data[p] as u32;
        let b1: u32 = src.data[p + 1] as u32;
        let b2: u32 = src.data[p + 2] as u32;
        let b3: u32 = src.data[p + 3] as u32;
        *self = b0 * 0x100_0000 + b1 * 0x1_0000 + b2 * 0x100 + b3;
        src.pos = p + 4;
        Ok(())
    }

    proof fn lemma_decoding_inverts_encoding(v: u32, src: Seq<u8>, pos: int) {
        let e = be32_bytes(v);
        assert(src[pos] == e[0]);
        assert(src[pos + 1] == e[1]);
        assert(src[pos + 2] == e[2]);
        assert(src[pos + 3] == e[3]);
    }

    open spec fn word_aligned() -> bool {
        true
    }

    proof fn lemma_encoding_aligned(v: u32) {
    }
}


/// Number of zero bytes that follow `n` bytes of opaque data.
pub open spec fn pad_len(n: int) -> int {
    (4 - n % 4) % 4
}

/// `n` zero bytes.
pub open spec fn zeros(n: int) -> Seq<u8> {
    Seq::new(n as nat, |i: int| 0u8)
}

/// The eight bytes of an unsigned number, most significant first.
pub open spec fn be64_bytes(v: u64) -> Seq<u8> {
    be32_bytes((v as int / 0x1_0000_0000) as u32) + be32_bytes((v as int % 0x1_0000_0000) as u32)
}

/// Reading eight bytes at `pos`.
pub open spec fn dword_at(src: Seq<u8>, pos: int) -> Result<(u64, int), XdrError> {
    if 0 <= pos && pos + 8 <= src.len() {
        Ok(
            (
                (val(word_at(src, pos)) as int * 0x1_0000_0000 + val(word_at(src, pos + 4))
                    as int) as u64,
                pos + 8,
            ),
        )
    } else {
        Err(XdrError::UnexpectedEof)
    }
}

/// A signed 32-bit number as the unsigned number with the same bits.
pub open spec fn twos32(v: i32) -> u32 {
    if v >= 0 {
        v as u32
    } else {
        (v as int + 0x1_0000_0000) as u32
    }
}

/// The signed number with the bits of an unsigned 32-bit number.
pub open spec fn untwos32(w: u32) -> i32 {
    if w < 0x8000_0000 {
        w as i32
    } else {
        (w as int - 0x1_0000_0000) as i32
    }
}

/// A signed 64-bit number as the unsigned number with the same bits.
pub open spec fn twos64(v: i64) -> u64 {
    if v >= 0 {
        v as u64
    } else {
        (v as int + 0x1_0000_0000_0000_0000) as u64
    }
}

/// The signed number with the bits of an unsigned 64-bit number.
pub open spec fn untwos64(w: u64) -> i64 {
    if w < 0x8000_0000_0000_0000 {
        w as i64
    } else {
        (w as int - 0x1_0000_0000_0000_0000) as i64
    }
}

/// Appends a slice to a buffer.
pub fn append_bytes(dest: &mut Vec<u8>, bytes: &[u8])
    ensures
        final(dest)@ == old(dest)@ + bytes@,
{
    let n: usize = bytes.len();
    let mut i: usize = 0;
    while i < n
        invariant
            i <= n,
            n == bytes@.len(),
            dest@ == old(dest)@ + bytes@.subrange(0, i as int),
        decreases n - i,
    {
        dest.push(bytes[i]);
        i = i + 1;
    }
    assert(bytes@.subrange(0, n as int) =~= bytes@);
}

/// Appends `n` zero bytes to a buffer.
pub fn append_zeros(dest: &mut Vec<u8>, n: usize)
    ensures
        final(dest)@ == old(dest)@ + zeros(n as int),
{
    let mut i: usize = 0;
    while i < n
        invariant
            i <= n,
            dest@ == old(dest)@ + zeros(i as int),
        decreases n - i,
    {
        dest.push(0u8);
        i = i + 1;
        assert(dest@ =~= old(dest)@ + zeros(i as int));
    }
}

impl XDR for u64 {
    open spec fn encoding(v: u64) -> Seq<u8> {
        be64_bytes(v)
    }

    open spec fn encodable(v: u64) -> bool {
        true
    }

    open spec fn decoding(src: Seq<u8>, pos: int) -> Result<(u64, int), XdrError> {
        dword_at(src, pos)
    }

    fn serialize(&self, dest: &mut Vec<u8>) {
        let v: u64 = *self;
        let hi: u32 = (v / 0x1_0000_0000) as u32;
        let lo: u32 = (v % 0x1_0000_0000) as u32;
        hi.serialize(dest);
        lo.serialize(dest);
        assert(dest@ =~= old(dest)@ + be64_bytes(v));
    }

    fn deserialize(&mut self, src: &mut ByteReader) -> (r: Result<(), XdrError>) {
        if src.remaining() < 8 {
            return Err(XdrError::UnexpectedEof);
        }
        let mut hi: u32 = 0;
        let mut lo: u32 = 0;
        hi.deserialize(src)?;
        lo.deserialize(src)?;
        *self = (hi as u64) * 0x1_0000_0000 + (lo as u64);
        Ok(())
    }

    proof fn lemma_decoding_inverts_encoding(v: u64, src: Seq<u8>, pos: int) {
        let hi = (v as int / 0x1_0000_0000) as u32;
        let lo = (v as int % 0x1_0000_0000) as u32;
        lemma_field::<u32>(hi, be32_bytes(lo), src, pos);
        u32::lemma_decoding_inverts_encoding(lo, src, pos + 4);
    }

    open spec fn word_aligned() -> bool {
        true
    }

    proof fn lemma_encoding_aligned(v: u64) {
    }
}

impl XDR for i32 {
    open spec fn encoding(v: i32) -> Seq<u8> {
        be32_bytes(twos32(v))
    }

    open spec fn encodable(v: i32) -> bool {
        true
    }

    open spec fn decoding(src: Seq<u8>, pos: int) -> Result<(i32, int), XdrError> {
        match word_at(src, pos) {
            Ok((w, end)) => Ok((untwos32(w), end)),
            Err(e) => Err(e),
        }
    }

    fn serialize(&self, dest: &mut Vec<u8>) {
        let v: i32 = *self;
        let w: u32 = if v >= 0 {
            v as u32
        } else {
            (v as i64 + 0x1_0000_0000) as u32
        };
        w.serialize(dest);
    }

    fn deserialize(&mut self, src: &mut ByteReader) -> (r: Result<(), XdrError>) {
        let mut w: u32 = 0;
        w.deserialize(src)?;
        *self = if w < 0x8000_0000 {
            w as i32
        } else {
            (w as i64 - 0x1_0000_0000) as i32
        };
        Ok(())
    }

    proof fn lemma_decoding_inverts_encoding(v: i32, src: Seq<u8>, pos: int) {
        u32::lemma_decoding_inverts_encoding(twos32(v), src, pos);
    }

    open spec fn word_aligned() -> bool {
        true
    }

    proof fn lemma_encoding_aligned(v: i32) {
    }
}

impl XDR for i64 {
    open spec fn encoding(v: i64) -> Seq<u8> {
        be64_bytes(twos64(v))
    }

    open spec fn encodable(v: i64) -> bool {
        true
    }

    open spec fn decoding(src: Seq<u8>, pos: int) -> Result<(i64, int), XdrError> {
        match dword_at(src, pos) {
            Ok((w, end)) => Ok((untwos64(w), end)),
            Err(e) => Err(e),
        }
    }

    fn serialize(&self, dest: &mut Vec<u8>) {
        let v: i64 = *self;
        let w: u64 = if v >= 0 {
            v as u64
        } else {
            (v as i128 + 0x1_0000_0000_0000_0000) as u64
        };
        w.serialize(dest);
    }

    fn deserialize(&mut self, src: &mut ByteReader) -> (r: Result<(), XdrError>) {
        let mut w: u64 = 0;
        w.deserialize(src)?;
        *self = if w < 0x8000_0000_0000_0000 {
            w as i64
        } else {
            (w as i128 - 0x1_0000_0000_0000_0000) as i64
        };
        Ok(())
    }

    proof fn lemma_decoding_inverts_encoding(v: i64, src: Seq<u8>, pos: int) {
        u64::lemma_decoding_inverts_encoding(twos64(v), src, pos);
    }

    open spec fn word_aligned() -> bool {
        true
    }

    proof fn lemma_encoding_aligned(v: i64) {
    }
}

impl XDR for bool {
    open spec fn encoding(v: bool) -> Seq<u8> {
        be32_bytes(if v { 1u32 } else { 0u32 })
    }

    open spec fn encodable(v: bool) -> bool {
        true
    }

    open spec fn decoding(src: Seq<u8>, pos: int) -> Result<(bool, int), XdrError> {
        match word_at(src, pos) {
            Ok((w, end)) => Ok((w > 0, end)),
            Err(e) => Err(e),
        }
    }

    fn serialize(&self, dest: &mut Vec<u8>) {
        let w: u32 = if *self { 1 } else { 0 };
        w.serialize(dest);
    }

    fn deserialize(&mut self, src: &mut ByteReader) -> (r: Result<(), XdrError>) {
        let mut w: u32 = 0;
        w.deserialize(src)?;
        *self = w > 0;
        Ok(())
    }

    proof fn lemma_decoding_inverts_encoding(v: bool, src: Seq<u8>, pos: int) {
        u32::lemma_decoding_inverts_encoding(if v { 1u32 } else { 0u32 }, src, pos);
    }

    open spec fn word_aligned() -> bool {
        true
    }

    proof fn lemma_encoding_aligned(v: bool) {
    }
}

/// Fixed-length opaque data: the bytes as they are, with no length and no
/// padding.
impl<const N: usize> XDR for [u8; N] {
    open spec fn encoding(v: Seq<u8>) -> Seq<u8> {
        v
    }

    open spec fn encodable(v: Seq<u8>) -> bool {
        v.len() == N
    }

    open spec fn decoding(src: Seq<u8>, pos: int) -> Result<(Seq<u8>, int), XdrError> {
        if 0 <= pos && pos + N <= src.len() {
            Ok((src.subrange(pos, pos + N), pos + N))
        } else {
            Err(XdrError::UnexpectedEof)
        }
    }

    fn serialize(&self, dest: &mut Vec<u8>) {
        let mut i: usize = 0;
        while i < N
            invariant
                i <= N,
                dest@ == old(dest)@ + self@.subrange(0, i as int),
            decreases N - i,
        {
            dest.push(self[i]);
            i = i + 1;
        }
        assert(self@.subrange(0, N as int) =~= self@);
    }

    fn deserialize(&mut self, src: &mut ByteReader) -> (r: Result<(), XdrError>) {
        if src.pos > src.data.len() || src.remaining() < N {
            return Err(XdrError::UnexpectedEof);
        }
        let p: usize = src.pos;
        let mut i: usize = 0;
        while i < N
            invariant
                i <= N,
                p + N <= src.data@.len(),
                src.data@.len() <= usize::MAX,
                forall|j: int| 0 <= j < i ==> self@[j] == src.data@[p + j],
            decreases N - i,
        {
            self[i] = src.data[p + i];
            i = i + 1;
        }
        src.pos = p + N;
        assert(self@ =~= src.data@.subrange(p as int, p + N));
        Ok(())
    }

    proof fn lemma_decoding_inverts_encoding(v: Seq<u8>, src: Seq<u8>, pos: int) {
        assert(src.subrange(pos, pos + N) =~= v);
    }

    open spec fn word_aligned() -> bool {
        N % 4 == 0
    }

    proof fn lemma_encoding_aligned(v: Seq<u8>) {
    }
}

/// The wire form of variable-length opaque data: the length, the bytes, and
/// zero bytes up to the next multiple of four.
pub open spec fn opaque_encoding(v: Seq<u8>) -> Seq<u8> {
    be32_bytes(v.len() as u32) + (v + zeros(pad_len(v.len() as int)))
}

/// Reading variable-length opaque data at `pos`.
pub open spec fn opaque_decoding(src: Seq<u8>, pos: int) -> Result<(Seq<u8>, int), XdrError> {
    match word_at(src, pos) {
        Err(e) => Err(e),
        Ok((n, p)) => if p + n + pad_len(n as int) <= src.len() {
            Ok((src.subrange(p, p + n), p + n + pad_len(n as int)))
        } else {
            Err(XdrError::UnexpectedEof)
        },
    }
}

/// Variable-length opaque data of `n` bytes takes `4 + n` bytes and the
/// padding to the next multiple of four.
pub proof fn lemma_opaque_encoding_len(v: Seq<u8>)
    ensures
        opaque_encoding(v).len() == 4 + v.len() + pad_len(v.len() as int),
        opaque_encoding(v).len() % 4 == 0,
        0 <= pad_len(v.len() as int) < 4,
{
}

impl XDR for Vec<u8> {
    open spec fn encoding(v: Seq<u8>) -> Seq<u8> {
        opaque_encoding(v)
    }

    open spec fn encodable(v: Seq<u8>) -> bool {
        v.len() < u32::MAX
    }

    open spec fn decoding(src: Seq<u8>, pos: int) -> Result<(Seq<u8>, int), XdrError> {
        opaque_decoding(src, pos)
    }

    fn serialize(&self, dest: &mut Vec<u8>) {
        let length: u32 = self.len() as u32;
        length.serialize(dest);
        append_bytes(dest, self.as_slice());
        let pad: usize = ((4 - length % 4) % 4) as usize;
        append_zeros(dest, pad);
        assert(dest@ =~= old(dest)@ + opaque_encoding(self@));
    }

    fn deserialize(&mut self, src: &mut ByteReader) -> (r: Result<(), XdrError>) {
        let mut length: u32 = 0;
        length.deserialize(src)?;
        let n: usize = length as usize;
        let pad: usize = ((4 - length % 4) % 4) as usize;
        let left: usize = src.remaining();
        if left < n || left - n < pad {
            return Err(XdrError::UnexpectedEof);
        }
        let p: usize = src.pos;
        let mut bytes: Vec<u8> = Vec::new();
        let mut i: usize = 0;
        while i < n
            invariant
                i <= n,
                p + n <= src.data@.len(),
                src.data@.len() <= usize::MAX,
                bytes@ == src.data@.subrange(p as int, p + i),
            decreases n - i,
        {
            bytes.push(src.data[p + i]);
            i = i + 1;
            assert(bytes@ =~= src.data@.subrange(p as int, p + i));
        }
        *self = bytes;
        src.pos = p + n + pad;
        Ok(())
    }

    proof fn lemma_decoding_inverts_encoding(v: Seq<u8>, src: Seq<u8>, pos: int) {
        let body = v + zeros(pad_len(v.len() as int));
        lemma_field::<u32>(v.len() as u32, body, src, pos);
        lemma_holds_at_split(src, pos + 4, v, zeros(pad_len(v.len() as int)));
        assert(src.subrange(pos + 4, pos + 4 + v.len()) =~= v);
    }

    open spec fn word_aligned() -> bool {
        true
    }

    proof fn lemma_encoding_aligned(v: Seq<u8>) {
    }
}

/// The words of a counted array, one after the other.
pub open spec fn words(v: Seq<u32>) -> Seq<u8> {
    Seq::new(4 * v.len(), |i: int| be32_bytes(v[i / 4])[i % 4])
}

/// The wire form of a counted array of words: the count and the words.
pub open spec fn word_array_encoding(v: Seq<u32>) -> Seq<u8> {
    be32_bytes(v.len() as u32) + words(v)
}

/// Reading a counted array of words at `pos`.
pub open spec fn word_array_decoding(src: Seq<u8>, pos: int) -> Result<(Seq<u32>, int), XdrError> {
    match word_at(src, pos) {
        Err(e) => Err(e),
        Ok((n, p)) => if p + 4 * n <= src.len() {
            Ok((Seq::new(n as nat, |k: int| val(word_at(src, p + 4 * k))), p + 4 * n))
        } else {
            Err(XdrError::UnexpectedEof)
        },
    }
}

impl XDR for Vec<u32> {
    open spec fn encoding(v: Seq<u32>) -> Seq<u8> {
        word_array_encoding(v)
    }

    open spec fn encodable(v: Seq<u32>) -> bool {
        v.len() < u32::MAX
    }

    open spec fn decoding(src: Seq<u8>, pos: int) -> Result<(Seq<u32>, int), XdrError> {
        word_array_decoding(src, pos)
    }

    fn serialize(&self, dest: &mut Vec<u8>) {
        let n: usize = self.len();
        let length: u32 = n as u32;
        length.serialize(dest);
        let mut i: usize = 0;
        while i < n
            invariant
                i <= n,
                n == self@.len(),
                dest@ == old(dest)@ + be32_bytes(length) + words(self@.subrange(0, i as int)),
            decreases n - i,
        {
            let ghost before = dest@;
            self[i].serialize(dest);
            i = i + 1;
            assert(dest@ =~= old(dest)@ + be32_bytes(length) + words(
                self@.subrange(0, i as int),
            )) by {
                let a = words(self@.subrange(0, i - 1));
                let b = words(self@.subrange(0, i as int));
                assert(b =~= a + be32_bytes(self@[i - 1]));
            }
        }
        assert(self@.subrange(0, n as int) =~= self@);
        assert(dest@ =~= old(dest)@ + word_array_encoding(self@));
    }

    fn deserialize(&mut self, src: &mut ByteReader) -> (r: Result<(), XdrError>) {
        let mut length: u32 = 0;
        length.deserialize(src)?;
        let n: usize = length as usize;
        if src.remaining() / 4 < n {
            return Err(XdrError::UnexpectedEof);
        }
        let p: usize = src.pos;
        let mut items: Vec<u32> = Vec::new();
        let mut i: usize = 0;
        while i < n
            invariant
                i <= n,
                p + 4 * n <= src.data@.len(),
                src.data@ == old(src).data@,
                src.pos == p + 4 * i,
                items@ == Seq::new(i as nat, |k: int| val(word_at(src.data@, p + 4 * k))),
            decreases n - i,
        {
            let mut w: u32 = 0;
            let res = w.deserialize(src);
            assert(res is Ok);
            items.push(w);
            i = i + 1;
            assert(items@ =~= Seq::new(i as nat, |k: int| val(word_at(src.data@, p + 4 * k))));
        }
        *self = items;
        Ok(())
    }

    proof fn lemma_decoding_inverts_encoding(v: Seq<u32>, src: Seq<u8>, pos: int) {
        lemma_field::<u32>(v.len() as u32, words(v), src, pos);
        let p = pos + 4;
        let got = Seq::new(v.len(), |k: int| val(word_at(src, p + 4 * k)));
        assert forall|k: int| 0 <= k < v.len() implies got[k] == v[k] by {
            let e = words(v);
            assert(src[p + (4 * k)] == e[4 * k]);
            assert(src[p + (4 * k + 1)] == e[4 * k + 1]);
            assert(src[p + (4 * k + 2)] == e[4 * k + 2]);
            assert(src[p + (4 * k + 3)] == e[4 * k + 3]);
            u32::lemma_decoding_inverts_encoding(v[k], be32_bytes(v[k]), 0);
        }
        assert(got =~= v);
    }

    open spec fn word_aligned() -> bool {
        true
    }

    proof fn lemma_encoding_aligned(v: Seq<u32>) {
    }
}

} // verus!
