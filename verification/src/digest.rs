//! Content hashes: SHA-256 over a file's bytes, written as lowercase hex.
//!
//! The digest itself is computed by the `sha2` crate. This module names its
//! result and proves that the hash of a file read in chunks depends on the
//! bytes alone, not on how they were cut.

use vstd::prelude::*;

verus! {

/// The SHA-256 digest of `data` as `sha2` computes it, written as lowercase
/// hexadecimal digits.
pub uninterp spec fn sha256_hex(data: Seq<u8>) -> Seq<char>;

/// A digit of lowercase hexadecimal: `0` to `9`, `a` to `f`.
pub open spec fn is_hex_digit(c: char) -> bool {
    ('0' <= c <= '9') || ('a' <= c <= 'f')
}

/// The form of a SHA-256 digest in hex: 64 digits of lowercase hexadecimal,
/// two for each of its 32 bytes.
pub open spec fn is_hex_digest(text: Seq<char>) -> bool {
    &&& text.len() == 64
    &&& forall|i: int| 0 <= i < text.len() ==> is_hex_digit(#[trigger] text[i])
}

/// The bytes that a running hash computation has been fed so far.
pub uninterp spec fn absorbed(state: HashState) -> Seq<u8>;

/// A running SHA-256 computation of the `sha2` crate.
///
/// Verus cannot take the declaration of `sha2::Sha256` (its type parameters
/// are type-level numbers), so the value is kept behind this opaque struct and
/// reached through the three functions below only.
#[verifier::external_body]
pub struct HashState {
    inner: sha2::Sha256,
}

/// `sha2::Digest::new` for `Sha256`: a fresh computation has been fed nothing.
#[verifier::external_body]
fn hash_state_new() -> (state: HashState)
    ensures
        absorbed(state) == Seq::<u8>::empty(),
{
    HashState { inner: <sha2::Sha256 as sha2::Digest>::new() }
}

/// `sha2::Digest::update`: the chunk is appended to what was fed before.
#[verifier::external_body]
fn hash_state_update(state: &mut HashState, chunk: &[u8])
    ensures
        absorbed(*final(state)) == absorbed(*old(state)) + chunk@,
{
    sha2::Digest::update(&mut state.inner, chunk)
}

/// `sha2::Digest::finalize`, printed with `{:x}`: the hex digest of all that
/// was fed. The digest of `Sha256` has 32 bytes, and `generic-array` prints
/// each as two digits out of `0123456789abcdef`.
#[verifier::external_body]
fn hash_state_finish(state: HashState) -> (hex: String)
    ensures
        hex@ == sha256_hex(absorbed(state)),
        is_hex_digest(hex@),
{
    format!("{:x}", sha2::Digest::finalize(state.inner))
}

/// The bytes of all chunks, in order.
pub open spec fn chunk_bytes(chunks: Seq<Vec<u8>>) -> Seq<u8>
    decreases chunks.len(),
{
    if chunks.len() == 0 {
        Seq::empty()
    } else {
        chunk_bytes(chunks.drop_last()) + chunks.last()@
    }
}

/// Hashes content that arrives piece by piece, so that a large file never
/// has to be held in memory as a whole.
pub struct ContentHasher {
    state: HashState,
}

impl View for ContentHasher {
    type V = Seq<u8>;

    /// The bytes fed so far.
    closed spec fn view(&self) -> Seq<u8> {
        absorbed(self.state)
    }
}

impl ContentHasher {
    /// A hasher that has seen no bytes yet.
    pub fn new() -> (hasher: Self)
        ensures
            hasher@ == Seq::<u8>::empty(),
    {
        ContentHasher { state: hash_state_new() }
    }

    /// Feeds the next chunk of the content.
    pub fn update(&mut self, chunk: &[u8])
        ensures
            final(self)@ == old(self)@ + chunk@,
    {
        hash_state_update(&mut self.state, chunk);
    }

    /// The hex digest of everything that was fed.
    pub fn finish(self) -> (hex: String)
        ensures
            hex@ == sha256_hex(self@),
            is_hex_digest(hex@),
    {
        hash_state_finish(self.state)
    }
}

/// The hex digest of `data`.
pub fn sha256_bytes(data: &[u8]) -> (hex: String)
    ensures
        hex@ == sha256_hex(data@),
        is_hex_digest(hex@),
{
    let mut hasher = ContentHasher::new();
    hasher.update(data);
    assert(Seq::<u8>::empty() + data@ =~= data@);
    hasher.finish()
}

/// The hex digest of a file whose content was read as a list of chunks.
pub fn sha256_chunks(chunks: &Vec<Vec<u8>>) -> (hex: String)
    ensures
        hex@ == sha256_hex(chunk_bytes(chunks@)),
        is_hex_digest(hex@),
{
    let mut hasher = ContentHasher::new();
    let mut i: usize = 0;
    while i < chunks.len()
        invariant
            i <= chunks.len(),
            hasher@ == chunk_bytes(chunks@.take(i as int)),
        decreases chunks.len() - i,
    {
        hasher.update(chunks[i].as_slice());
        assert(chunks@.take(i + 1).drop_last() =~= chunks@.take(i as int));
        i += 1;
    }
    assert(chunks@.take(i as int) =~= chunks@);
    hasher.finish()
}

/// Appending one list of chunks to another appends their bytes.
pub proof fn lemma_chunk_bytes_concat(a: Seq<Vec<u8>>, b: Seq<Vec<u8>>)
    ensures
        chunk_bytes(a + b) == chunk_bytes(a) + chunk_bytes(b),
    decreases b.len(),
{
    if b.len() == 0 {
        assert(a + b =~= a);
        assert(chunk_bytes(a) + chunk_bytes(b) =~= chunk_bytes(a));
    } else {
        lemma_chunk_bytes_concat(a, b.drop_last());
        assert((a + b).drop_last() =~= a + b.drop_last());
        assert((chunk_bytes(a) + chunk_bytes(b.drop_last())) + b.last()@ =~= chunk_bytes(a) + (
        chunk_bytes(b.drop_last()) + b.last()@));
    }
}

/// The content hash is a function of the bytes alone: two readings of the
/// same content give the same hash, however each reading was cut into chunks.
pub proof fn lemma_hash_depends_on_bytes_only(first: Seq<Vec<u8>>, second: Seq<Vec<u8>>)
    requires
        chunk_bytes(first) == chunk_bytes(second),
    ensures
        sha256_hex(chunk_bytes(first)) == sha256_hex(chunk_bytes(second)),
{
}

/// A hash that has changed tells of content that has changed: a file whose
/// bytes are the same never hashes differently.
pub proof fn lemma_changed_hash_means_changed_content(first: Seq<Vec<u8>>, second: Seq<Vec<u8>>)
    requires
        sha256_hex(chunk_bytes(first)) != sha256_hex(chunk_bytes(second)),
    ensures
        chunk_bytes(first) != chunk_bytes(second),
{
}

} // verus!
