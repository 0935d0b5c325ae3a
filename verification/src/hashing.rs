//! Content hashing of imported files (SHA-256), fed chunk by chunk.

use vstd::prelude::*;
use sha2::Digest;
use crate::naming::{hex_lower, hex_spec};

verus! {

/// What SHA-256 computes for a byte string: its 32-byte digest.
pub uninterp spec fn sha256_spec(data: Seq<u8>) -> Seq<u8>;

/// The bytes fed so far to a hasher.
pub uninterp spec fn hashed_bytes(h: ContentHasher) -> Seq<u8>;

/// A running SHA-256 computation (`sha2::Sha256`). Its state is hidden; what it
/// stands for is the bytes fed to it, `hashed_bytes`.
#[verifier::external_body]
pub struct ContentHasher {
    inner: sha2::Sha256,
}

impl ContentHasher {
    /// `Sha256::new`: a hasher that has been fed nothing.
    #[verifier::external_body]
    pub fn new() -> (h: ContentHasher)
        ensures
            hashed_bytes(h) == Seq::<u8>::empty(),
    {
        ContentHasher { inner: sha2::Sha256::new() }
    }

    /// `Digest::update`: feeds more bytes.
    #[verifier::external_body]
    pub fn update(&mut self, data: &[u8])
        ensures
            hashed_bytes(*final(self)) == hashed_bytes(*old(self)) + data@,
    {
        self.inner.update(data);
    }

    /// `Digest::finalize`: the digest of everything fed, 32 bytes.
    #[verifier::external_body]
    pub fn finalize(self) -> (d: Vec<u8>)
        ensures
            d@ == sha256_spec(hashed_bytes(self)),
            d@.len() == 32,
    {
        self.inner.finalize().to_vec()
    }
}

/// The lower-case hex digest of everything fed to the hasher, the form in
/// which assets are keyed.
pub fn sha256_hex(h: ContentHasher) -> (s: String)
    ensures
        s@ == hex_spec(sha256_spec(hashed_bytes(h))),
        s@.len() == 64,
{
    let d = h.finalize();
    proof {
        lemma_hex_len(d@);
    }
    hex_lower(&d)
}

proof fn lemma_hex_len(b: Seq<u8>)
    ensures
        hex_spec(b).len() == 2 * b.len(),
    decreases b.len(),
{
    if b.len() > 0 {
        lemma_hex_len(b.drop_last());
    }
}

} // verus!
