//! Stateless batch computation of a Merkle root: reduce the leaf level pair
//! by pair, duplicating a trailing odd digest, until one digest is left.

use vstd::prelude::*;
use crate::combine;
use core::marker::PhantomData;

verus! {

/// The complete pairs of a level: element `i` is the parent of the digests
/// at `2 * i` and `2 * i + 1`; a trailing unpaired digest is dropped.
pub open spec fn pairs<H: crate::Hash>(s: Seq<H>) -> Seq<H> {
    Seq::new((s.len() / 2) as nat, |i: int| combine(s[2 * i], s[2 * i + 1]))
}

/// One reduction step of the batch computation: pair consecutive digests,
/// after duplicating the last one when the level has odd length.
pub open spec fn level_up<H: crate::Hash>(s: Seq<H>) -> Seq<H> {
    if s.len() % 2 == 1 {
        pairs(s).push(combine(s.last(), s.last()))
    } else {
        pairs(s)
    }
}

/// The Merkle root of a non-empty level: reduce level by level until one
/// digest is left.
pub open spec fn merkle_root_nonempty<H: crate::Hash>(s: Seq<H>) -> H
    recommends
        s.len() >= 1,
    decreases s.len(),
{
    if s.len() <= 1 {
        s[0]
    } else {
        merkle_root_nonempty(level_up(s))
    }
}

/// The Merkle root of a leaf list: the zero digest for the empty list,
/// the leaf itself for a one-element list.
pub open spec fn merkle_root<H: crate::Hash>(s: Seq<H>) -> H {
    if s.len() == 0 {
        H::def_sp()
    } else {
        merkle_root_nonempty(s)
    }
}

/// Stateless batch Merkle root computation.
pub struct MerkleTree<H: crate::Hash>(PhantomData<H>);

impl<H: crate::Hash> MerkleTree<H> {
    /// Reduce one level to the next until a single digest is left.
    fn merkle(vec: Vec<H>) -> (r: Vec<H>)
        requires
            vec@.len() >= 1,
        ensures
            r@.len() == 1,
            r@[0] == merkle_root_nonempty(vec@),
        decreases vec.len(),
    {
        let mut work = vec;
        let vec_len = work.len();
        if vec_len == 1 {
            return work;
        }

        if vec_len % 2 == 1 {
            let last = work[vec_len - 1];
            work.push(last);
        }
        assert(work@ == if vec@.len() % 2 == 1 { vec@.push(vec@.last()) } else { vec@ });

        let half = work.len() / 2;
        let mut next: Vec<H> = Vec::new();
        for i in 0..half
            invariant
                half <= usize::MAX / 2,
                work@.len() == 2 * half,
                next@.len() == i,
                forall|j: int| 0 <= j < i ==> next@[j] == combine(work@[2 * j], work@[2 * j + 1]),
        {
            let mut enc = H::encode(&work[2 * i]);
            let mut enc_right = H::encode(&work[2 * i + 1]);
            enc.append(&mut enc_right);
            let parent = H::hash(enc.as_slice());
            proof {
                assert(parent == combine(work@[2 * i as int], work@[2 * i as int + 1]));
            }
            next.push(parent);
        }

        proof {
            assert(next@ =~= level_up(vec@));
        }
        Self::merkle(next)
    }

    /// A batch computation carries no state; the value exists only so the
    /// entrance point can hang off a type that names the hash family.
    pub fn new() -> (r: Self) {
        MerkleTree(PhantomData)
    }

    /// Entrance point: the Merkle root of an ordered list of hashed leaves.
    pub fn root(hashes: Vec<H>) -> (r: H)
        ensures
            r == merkle_root(hashes@),
    {
        if hashes.len() == 0 {
            return H::default_v();
        }

        let mut reduced = Self::merkle(hashes);
        reduced.remove(0)
    }
}

/// Law: the batch root of an empty leaf list is the zero digest; no hashing
/// is performed.
pub proof fn lemma_root_empty<H: crate::Hash>()
    ensures
        merkle_root(Seq::<H>::empty()) == H::def_sp(),
{
}

/// Law: the batch root of a one-leaf list is the leaf itself; no hashing is
/// performed.
pub proof fn lemma_root_single<H: crate::Hash>(x: H)
    ensures
        merkle_root(seq![x]) == x,
{
    assert(merkle_root_nonempty(seq![x]) == x);
}

/// Law: for an odd-length list of at least three leaves, the batch root
/// equals the root over the even-length list obtained by appending a
/// duplicate of the last leaf. (A one-leaf list is exempt: it is its own
/// root, while the two-leaf list hashes the leaf with itself.)
pub proof fn lemma_root_odd_duplication<H: crate::Hash>(leaves: Seq<H>)
    requires
        leaves.len() % 2 == 1,
        leaves.len() >= 3,
    ensures
        merkle_root(leaves) == merkle_root(leaves.push(leaves.last())),
{
    let doubled = leaves.push(leaves.last());
    assert(level_up(doubled) =~= level_up(leaves));
    assert(merkle_root_nonempty(leaves) == merkle_root_nonempty(level_up(leaves)));
    assert(merkle_root_nonempty(doubled) == merkle_root_nonempty(level_up(doubled)));
}

} // verus!
