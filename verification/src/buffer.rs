//! Byte buffers of the `bytes` crate.
//!
//! The names [`bytes_seq`] and [`bytes_mut_seq`] stand for what a buffer holds. The functions of this
//! module make the calls into the crate, and each says what its call does to these contents.

use bytes::{Bytes, BytesMut};
use vstd::prelude::*;

verus! {

/// The type [`bytes::Bytes`]: a shared, immutable buffer.
#[verifier::external_type_specification]
#[verifier::external_body]
pub struct ExBytes(Bytes);

/// The type [`bytes::BytesMut`]: a buffer that grows.
#[verifier::external_type_specification]
#[verifier::external_body]
pub struct ExBytesMut(BytesMut);

/// The bytes that a [`Bytes`] holds.
pub uninterp spec fn bytes_seq(b: Bytes) -> Seq<u8>;

/// The bytes that a [`BytesMut`] holds.
pub uninterp spec fn bytes_mut_seq(b: BytesMut) -> Seq<u8>;

/// Calls the `Deref` of [`Bytes`], which gives the bytes that the buffer holds.
#[verifier::external_body]
pub(crate) fn as_slice(b: &Bytes) -> (r: &[u8])
    ensures
        r@ == bytes_seq(*b),
{
    b
}

/// Calls [`Bytes::slice`], which gives the bytes from `start` up to `end`, without `end`.
///
/// The call panics if `start` is above `end`, or `end` is above the length.
#[verifier::external_body]
pub(crate) fn slice(b: &Bytes, start: usize, end: usize) -> (r: Bytes)
    requires
        start <= end <= bytes_seq(*b).len(),
    ensures
        bytes_seq(r) == bytes_seq(*b).subrange(start as int, end as int),
{
    b.slice(start..end)
}

/// Calls [`Bytes::copy_from_slice`], which gives a buffer with the same bytes as `data`.
#[verifier::external_body]
pub(crate) fn copy_from_slice(data: &[u8]) -> (r: Bytes)
    ensures
        bytes_seq(r) == data@,
{
    Bytes::copy_from_slice(data)
}

/// Calls `Bytes::from` with a vector, which gives a buffer with the same bytes as `data`.
#[verifier::external_body]
pub(crate) fn from_vec(data: Vec<u8>) -> (r: Bytes)
    ensures
        bytes_seq(r) == data@,
{
    Bytes::from(data)
}

/// Calls `Vec::from` with a [`Bytes`], which gives a vector with the same bytes as `data`.
#[verifier::external_body]
pub(crate) fn into_vec(data: Bytes) -> (r: Vec<u8>)
    ensures
        r@ == bytes_seq(data),
{
    Vec::from(data)
}

/// Calls `Bytes::clone`, which gives a buffer with the same bytes.
#[verifier::external_body]
pub(crate) fn clone(b: &Bytes) -> (r: Bytes)
    ensures
        bytes_seq(r) == bytes_seq(*b),
{
    b.clone()
}

/// Calls [`BytesMut::new`], which gives an empty buffer.
#[verifier::external_body]
pub(crate) fn new_mut() -> (r: BytesMut)
    ensures
        bytes_mut_seq(r) == Seq::<u8>::empty(),
{
    BytesMut::new()
}

/// Calls [`BytesMut::extend_from_slice`], which appends the bytes of `data`.
///
/// The call panics if the buffer would have more bytes than an allocation can have.
#[verifier::external_body]
pub(crate) fn extend_from_slice(b: &mut BytesMut, data: &[u8])
    requires
        bytes_mut_seq(*old(b)).len() + data@.len() <= isize::MAX,
    ensures
        bytes_mut_seq(*final(b)) == bytes_mut_seq(*old(b)) + data@,
{
    b.extend_from_slice(data)
}

/// Calls [`BytesMut::freeze`], which gives a [`Bytes`] with the same bytes.
#[verifier::external_body]
pub(crate) fn freeze(b: BytesMut) -> (r: Bytes)
    ensures
        bytes_seq(r) == bytes_mut_seq(b),
{
    b.freeze()
}

/// The bytes of `chunks`, one chunk after the other.
pub open spec fn concatenated(chunks: Seq<Bytes>) -> Seq<u8>
    decreases chunks.len(),
{
    if chunks.len() == 0 {
        Seq::empty()
    } else {
        concatenated(chunks.drop_last()) + bytes_seq(chunks.last())
    }
}

/// A file content in chunks.
#[derive(Debug, Clone)]
pub struct BytesList {
    chunks: Vec<Bytes>,
}

impl View for BytesList {
    type V = Seq<u8>;

    closed spec fn view(&self) -> Seq<u8> {
        concatenated(self.chunks@)
    }
}

impl BytesList {
    /// The chunks of the list.
    pub closed spec fn chunks(&self) -> Seq<Bytes> {
        self.chunks@
    }

    /// Creates a list of the chunks `chunks`.
    pub fn new(chunks: Vec<Bytes>) -> (r: Self)
        ensures
            r.chunks() == chunks@,
            r@ == concatenated(chunks@),
    {
        BytesList { chunks }
    }

    /// Creates a list of one chunk.
    pub fn from_bytes(data: Bytes) -> (r: Self)
        ensures
            r.chunks() == seq![data],
            r@ == bytes_seq(data),
    {
        let mut chunks: Vec<Bytes> = Vec::new();
        chunks.push(data);
        proof {
            reveal_with_fuel(concatenated, 2);
            assert(concatenated(chunks@) =~= bytes_seq(data));
        }
        BytesList { chunks }
    }

    /// Gives the chunks of the list.
    pub fn slice(&self) -> (r: &[Bytes])
        ensures
            r@ == self.chunks(),
            concatenated(r@) == self@,
    {
        self.chunks.as_slice()
    }

    /// Gives the whole content in one buffer.
    pub fn collect(&self) -> (r: Bytes)
        requires
            self@.len() <= isize::MAX,
        ensures
            bytes_seq(r) == self@,
    {
        let mut out = new_mut();
        let n: usize = self.chunks.len();
        for i in 0..n
            invariant
                n == self.chunks.len(),
                self@.len() <= isize::MAX,
                bytes_mut_seq(out) == concatenated(self.chunks@.take(i as int)),
        {
            proof {
                let prefix = self.chunks@.take(i + 1);
                assert(prefix.drop_last() =~= self.chunks@.take(i as int));
                assert(prefix.last() == self.chunks@[i as int]);
                lemma_prefix_len(self.chunks@, i + 1);
            }
            extend_from_slice(&mut out, as_slice(&self.chunks[i]));
        }
        assert(self.chunks@.take(n as int) =~= self.chunks@);
        freeze(out)
    }
}

/// The first chunks of a list have at most as many bytes as all chunks.
proof fn lemma_prefix_len(chunks: Seq<Bytes>, n: int)
    requires
        0 <= n <= chunks.len(),
    ensures
        concatenated(chunks.take(n)).len() <= concatenated(chunks).len(),
    decreases chunks.len(),
{
    if n == chunks.len() {
        assert(chunks.take(n) =~= chunks);
    } else {
        assert(chunks.drop_last().take(n) =~= chunks.take(n));
        lemma_prefix_len(chunks.drop_last(), n);
    }
}

/// The bytes of chunks are the bytes of the first chunks and then the bytes of the other chunks. One
/// chunk has its own bytes, and no chunks have none.
pub proof fn law_chunks_follow_each_other(a: Seq<Bytes>, b: Seq<Bytes>, chunk: Bytes)
    ensures
        concatenated(Seq::<Bytes>::empty()) == Seq::<u8>::empty(),
        concatenated(seq![chunk]) == bytes_seq(chunk),
        concatenated(a + b) == concatenated(a) + concatenated(b),
    decreases b.len(),
{
    reveal_with_fuel(concatenated, 2);
    assert(seq![chunk].drop_last() =~= Seq::<Bytes>::empty());
    assert(concatenated(seq![chunk]) =~= bytes_seq(chunk));
    if b.len() == 0 {
        assert(a + b =~= a);
        assert(concatenated(a) + concatenated(b) =~= concatenated(a));
    } else {
        law_chunks_follow_each_other(a, b.drop_last(), chunk);
        assert((a + b).drop_last() =~= a + b.drop_last());
        assert(concatenated(a + b) =~= concatenated(a) + concatenated(b));
    }
}

/// A list of chunks has the bytes of its chunks, and gives them all in one buffer.
pub proof fn law_list_gives_its_bytes(chunks: Vec<Bytes>, list: BytesList, whole: Bytes)
    requires
        call_ensures(BytesList::new, (chunks,), list),
        call_ensures(BytesList::collect, (&list,), whole),
    ensures
        bytes_seq(whole) == concatenated(chunks@),
        list.chunks() == chunks@,
{
}

} // verus!
