//! Stateful incremental Merkle root computation: one accumulator slot per
//! tree level, updated by a carry-propagation walk that mirrors a binary
//! counter increment.

use vstd::prelude::*;
use crate::combine;

verus! {

/// Whether every accumulator slot holds the zero digest.
pub open spec fn all_default<H: crate::Hash>(slots: Seq<H>) -> bool {
    forall|i: int| 0 <= i < slots.len() ==> slots[i] == H::def_sp()
}

/// The level walk of one feed, starting at `round` with `value` to merge at
/// that level. `live` says whether the walk is still on the true insertion
/// path; once the walk merely projects the current root beyond genuinely
/// stored state, `live` is false and no slot is written any more.
///
/// Returns the slots after the walk and the digest it carries out of the top.
///
/// At a level that holds a stored sibling the walk pairs it to the left of
/// `value`; a live walk consumes the slot and carries upward. At a level
/// whose slot is the zero digest the walk duplicates `value` as its own
/// sibling, and a live walk records `value` there and turns virtual. Past
/// the last slot the walk ends; the carried digest is appended as a new slot
/// only while every existing slot is still the zero digest.
pub open spec fn feed_walk<H: crate::Hash>(
    slots: Seq<H>,
    value: H,
    live: bool,
    round: nat,
) -> (Seq<H>, H)
    decreases slots.len() - round,
{
    if round >= slots.len() {
        if all_default(slots) {
            (slots.push(value), value)
        } else {
            (slots, value)
        }
    } else if slots[round as int] != H::def_sp() {
        let parent = combine(slots[round as int], value);
        if live {
            feed_walk(slots.update(round as int, H::def_sp()), parent, true, round + 1)
        } else {
            feed_walk(slots, parent, false, round + 1)
        }
    } else {
        let parent = combine(value, value);
        if live {
            feed_walk(slots.update(round as int, value), parent, false, round + 1)
        } else {
            feed_walk(slots, parent, false, round + 1)
        }
    }
}

/// One whole feed: the walk from level zero, live.
pub open spec fn feed_spec<H: crate::Hash>(slots: Seq<H>, new: H) -> (Seq<H>, H) {
    feed_walk(slots, new, true, 0)
}

/// Incremental Merkle root accumulator: `slots[r]` is the pending digest of
/// tree level `r` (zero digest when the level has no pending digest), and
/// the most recently returned root is kept alongside.
pub struct BetterMerkleTree<H: crate::Hash> {
    slots: Vec<H>,
    current: H,
}

impl<H: crate::Hash> BetterMerkleTree<H> {
    /// The accumulator slots, level by level.
    pub closed spec fn slots_sp(&self) -> Seq<H> {
        self.slots@
    }

    /// The root returned by the most recent feed, or the zero digest before
    /// any feed.
    pub closed spec fn now_sp(&self) -> H {
        self.current
    }

    /// The recursive level walk; see [`feed_walk`] for what it does.
    fn merkle(&mut self, new: H, is_live: bool, round: usize) -> (r: H)
        ensures
            final(self).slots_sp() == feed_walk(old(self).slots_sp(), new, is_live, round as nat).0,
            r == feed_walk(old(self).slots_sp(), new, is_live, round as nat).1,
            final(self).now_sp() == old(self).now_sp(),
        decreases self.slots.len() - round,
    {
        let n = self.slots.len();
        if n <= round {
            let def = H::default_v();
            let mut need_append = true;
            for i in 0..n
                invariant
                    n == self.slots@.len(),
                    def == H::def_sp(),
                    need_append == (forall|j: int| 0 <= j < i ==> self.slots@[j] == H::def_sp()),
                    *self == *old(self),
            {
                if !H::eq_h(&self.slots[i], &def) {
                    need_append = false;
                }
            }
            if need_append {
                self.slots.push(new);
            }
            return new;
        }

        let def = H::default_v();
        let stored = self.slots[round];
        let occupied = !H::eq_h(&stored, &def);

        let parent = if occupied {
            let mut enc = H::encode(&stored);
            let mut enc_right = H::encode(&new);
            enc.append(&mut enc_right);
            if is_live {
                self.slots[round] = def;
            }
            H::hash(enc.as_slice())
        } else {
            let mut enc = H::encode(&new);
            let mut enc_right = H::encode(&new);
            enc.append(&mut enc_right);
            if is_live {
                self.slots[round] = new;
            }
            H::hash(enc.as_slice())
        };

        let next_live = is_live && occupied;
        self.merkle(parent, next_live, round + 1)
    }

    /// A fresh accumulator: no slots, root at the zero digest.
    pub fn new() -> (r: Self)
        ensures
            r.slots_sp() == Seq::<H>::empty(),
            r.now_sp() == H::def_sp(),
    {
        BetterMerkleTree { slots: Vec::new(), current: H::default_v() }
    }

    /// Restore an accumulator from previously saved slots. The root is reset
    /// to the zero digest: a caller that needs root continuity across the
    /// save point must track the root itself.
    pub fn load(vec: Vec<H>) -> (r: Self)
        ensures
            r.slots_sp() == vec@,
            r.now_sp() == H::def_sp(),
    {
        BetterMerkleTree { slots: vec, current: H::default_v() }
    }

    /// The accumulator slots, for external save; read-only.
    pub fn helper(&self) -> (r: &Vec<H>)
        ensures
            r@ == self.slots_sp(),
    {
        &self.slots
    }

    /// The root returned by the most recent feed.
    pub fn now(&self) -> (r: &H)
        ensures
            *r == self.now_sp(),
    {
        &self.current
    }

    /// Entrance point: feed one new digest and get the updated root, equal
    /// to the batch root over every digest fed so far.
    pub fn root(&mut self, new: H) -> (r: H)
        ensures
            final(self).slots_sp() == feed_spec(old(self).slots_sp(), new).0,
            r == feed_spec(old(self).slots_sp(), new).1,
            final(self).now_sp() == r,
    {
        let hash = self.merkle(new, true, 0);
        self.current = hash;
        hash
    }
}

} // verus!
