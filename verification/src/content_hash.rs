//! BLAKE3 hashing of file contents, fed chunk by chunk as they are read,
//! and the byte ranges that the quick partial hash of a file covers.

use crate::resumable_copy::blake3_of;
use crate::types::Blake3Hash;
use vstd::prelude::*;

verus! {

#[verifier::external_type_specification]
#[verifier::external_body]
pub struct ExBlake3Hasher(blake3::Hasher);

/// An incremental BLAKE3 hash of the bytes fed so far.
pub struct ContentHasher {
    inner: blake3::Hasher,
    fed: Ghost<Seq<u8>>,
}

impl ContentHasher {
    /// The bytes fed so far, one chunk after the other.
    pub closed spec fn fed(&self) -> Seq<u8> {
        self.fed@
    }
}

/// A hasher made by `blake3::Hasher::new`. Claimed: it has been fed nothing.
#[verifier::external_body]
fn hasher_new() -> (res: ContentHasher)
    ensures
        res.fed() == Seq::<u8>::empty(),
{
    ContentHasher { inner: blake3::Hasher::new(), fed: Ghost(Seq::empty()) }
}

/// Feeds a chunk by `blake3::Hasher::update`. Claimed: the chunk is added
/// after the bytes fed before.
#[verifier::external_body]
fn hasher_update(h: &mut ContentHasher, chunk: &[u8])
    ensures
        final(h).fed() == old(h).fed() + chunk@,
{
    h.inner.update(chunk);
}

/// The digest by `blake3::Hasher::finalize`. Claimed: it is the named
/// result `blake3_of` (what `blake3::hash` gives) of all the bytes fed, as
/// the crate's documentation shows for input fed in pieces.
#[verifier::external_body]
fn hasher_finalize(h: &ContentHasher) -> (res: [u8; 32])
    ensures
        res@ == blake3_of(h.fed()),
{
    *h.inner.finalize().as_bytes()
}

impl ContentHasher {
    /// A hasher fed nothing yet.
    pub fn new() -> (res: Self)
        ensures
            res.fed() == Seq::<u8>::empty(),
    {
        hasher_new()
    }

    /// Feeds the next chunk of content.
    pub fn update(&mut self, chunk: &[u8])
        ensures
            final(self).fed() == old(self).fed() + chunk@,
    {
        hasher_update(self, chunk)
    }

    /// The BLAKE3 hash of everything fed so far.
    pub fn finalize(&self) -> (res: Blake3Hash)
        ensures
            res.0@ == blake3_of(self.fed()),
    {
        Blake3Hash(hasher_finalize(self))
    }
}

/// The BLAKE3 hash of a content held in memory.
pub fn content_hash(data: &[u8]) -> (res: Blake3Hash)
    ensures
        res.0@ == blake3_of(data@),
{
    let mut h = ContentHasher::new();
    h.update(data);
    assert(Seq::<u8>::empty() + data@ =~= data@);
    h.finalize()
}

/// Size of each piece that the partial hash of a large file takes.
pub const PARTIAL_CHUNK: u64 = 16384;

/// The `(offset, length)` ranges of a file of `len` bytes that its partial
/// hash covers, in order: the whole file when it holds at most three
/// pieces, else its first piece, the piece around its middle and its last
/// piece.
pub open spec fn partial_ranges(len: u64) -> Seq<(u64, u64)> {
    if len <= 3 * PARTIAL_CHUNK {
        seq![(0u64, len)]
    } else {
        seq![
            (0u64, PARTIAL_CHUNK),
            ((len / 2 - PARTIAL_CHUNK / 2) as u64, PARTIAL_CHUNK),
            ((len - PARTIAL_CHUNK) as u64, PARTIAL_CHUNK),
        ]
    }
}

/// The byte ranges that the partial hash of a file of `len` bytes covers.
pub fn partial_hash_ranges(len: u64) -> (res: Vec<(u64, u64)>)
    ensures
        res@ == partial_ranges(len),
        forall|i: int| 0 <= i < res@.len() ==> res@[i].0 + res@[i].1 <= len,
{
    if len <= 3 * PARTIAL_CHUNK {
        let v = vec![(0u64, len)];
        assert(v@ =~= partial_ranges(len));
        v
    } else {
        let middle = len / 2 - PARTIAL_CHUNK / 2;
        let last = len - PARTIAL_CHUNK;
        let v = vec![(0u64, PARTIAL_CHUNK), (middle, PARTIAL_CHUNK), (last, PARTIAL_CHUNK)];
        assert(v@ =~= partial_ranges(len));
        v
    }
}

} // verus!
