//! Merkle root computation over a pluggable cryptographic hash capability.
//!
//! Two equivalent forms are offered: [`MerkleTree`] computes the root of a
//! complete list of hashed leaves in one pass, while [`BetterMerkleTree`]
//! accepts one leaf at a time and keeps only one accumulator slot per tree
//! level, returning after each feed the same root that the batch computation
//! would give over all leaves seen so far.

use vstd::prelude::*;

mod batch;
mod digests;
mod equiv;
mod incremental;

pub use equiv::feed_state;
pub use equiv::lemma_incremental_equals_batch;
pub use equiv::lemma_save_restore;
pub use equiv::nondegen;
pub use equiv::tracks;

pub use digests::hex_byte;
pub use digests::high_nibble;
pub use digests::is_lower_hex;
pub use digests::Keccak256;
pub use digests::lemma_keccak256_encoding_injective;
pub use digests::lemma_keccak256_encoding_shape;
pub use digests::lemma_keccak256_hash_bytes;
pub use digests::lemma_sha256_encoding_injective;
pub use digests::lemma_sha256_encoding_shape;
pub use digests::lemma_sha256_hash_bytes;
pub use digests::low_nibble;
pub use digests::SHA256;
pub use digests::word_byte;

pub use incremental::BetterMerkleTree;
pub use incremental::all_default;
pub use incremental::feed_spec;
pub use incremental::feed_walk;
pub use batch::MerkleTree;
pub use batch::lemma_root_empty;
pub use batch::lemma_root_odd_duplication;
pub use batch::lemma_root_single;
pub use batch::level_up;
pub use batch::merkle_root;
pub use batch::merkle_root_nonempty;
pub use batch::pairs;

verus! {

/// Batch Merkle root computation with the SHA-256 hash family.
pub type MerkleTreeSHA256 = MerkleTree<SHA256>;

/// Incremental Merkle root computation with the SHA-256 hash family.
pub type BetterMerkleTreeSHA256 = BetterMerkleTree<SHA256>;

/// Batch Merkle root computation with the SHA3-256 hash family.
pub type MerkleTreeKeccak256 = MerkleTree<Keccak256>;

/// Incremental Merkle root computation with the SHA3-256 hash family.
pub type BetterMerkleTreeKeccak256 = BetterMerkleTree<Keccak256>;

/// The characters of an ASCII byte sequence, one character per byte.
pub open spec fn chars_of_bytes(s: Seq<u8>) -> Seq<char> {
    s.map(|i: int, b: u8| b as char)
}

/// A digest produced by a cryptographic hash function, together with the
/// operations the two Merkle computations need.
///
/// The canonical encoding (`enc_sp` at the specification level, `encode` and
/// `to_string` at the executable level) serves both as the printable form of
/// a digest and as the exact bytes fed to the next hashing step when two
/// digests are combined into their parent.
pub trait Hash: Sized + Copy {
    /// The zero digest: the value of an empty accumulator slot and the root
    /// of an empty leaf list.
    spec fn def_sp() -> Self;

    /// The digest of a byte sequence.
    spec fn hash_sp(data: Seq<u8>) -> Self;

    /// The canonical encoding of a digest: a fixed prefix followed by two
    /// lowercase hexadecimal digits per digest byte, as ASCII bytes.
    spec fn enc_sp(h: Self) -> Seq<u8>;

    /// Hash raw bytes into a digest.
    fn hash(data: &[u8]) -> (r: Self)
        ensures
            r == Self::hash_sp(data@),
    ;

    /// The canonical encoding of a digest as a string.
    fn to_string(h: &Self) -> (r: String)
        ensures
            r@ == chars_of_bytes(Self::enc_sp(*h)),
    ;

    /// The canonical encoding of a digest as its ASCII bytes.
    fn encode(h: &Self) -> (r: Vec<u8>)
        ensures
            r@ == Self::enc_sp(*h),
    ;

    /// The zero digest.
    fn default_v() -> (r: Self)
        ensures
            r == Self::def_sp(),
    ;

    /// Digest equality.
    fn eq_h(a: &Self, b: &Self) -> (r: bool)
        ensures
            r == (*a == *b),
    ;
}

/// The parent of two digests: the hash of the concatenation of their
/// canonical encodings, left operand first.
pub open spec fn combine<H: crate::Hash>(a: H, b: H) -> H {
    H::hash_sp(H::enc_sp(a) + H::enc_sp(b))
}

} // verus!
