//! The equivalence of the two computations: after every feed, the
//! incremental accumulator returns exactly the batch Merkle root of the
//! leaves fed so far.
//!
//! The accumulator is a binary counter over tree levels: slot `r` holds the
//! pending digest of level `r` exactly when the count of leaves has bit `r`
//! set. [`tracks`] states this level by level: slot zero holds the last leaf
//! when the count is odd and the zero digest when it is even, and the
//! remaining slots track the paired level in the same way.
//!
//! The accumulator tells a pending slot from an empty one by comparing it to
//! the zero digest, so the equivalence holds on leaf lists whose tree nodes
//! never equal the zero digest; [`nondegen`] states that side condition.

use vstd::prelude::*;
use crate::combine;
use crate::pairs;
use crate::level_up;
use crate::merkle_root;
use crate::merkle_root_nonempty;
use crate::all_default;
use crate::feed_walk;
use crate::feed_spec;

verus! {

/// The accumulator slots that belong to a leaf list: slot zero holds the
/// last leaf when the list has odd length and the zero digest when it has
/// even length, and the higher slots track the level of paired digests.
pub open spec fn tracks<H: crate::Hash>(leaves: Seq<H>, slots: Seq<H>) -> bool
    decreases leaves.len(),
{
    if leaves.len() == 0 {
        slots.len() == 0
    } else {
        &&& slots.len() >= 1
        &&& (if leaves.len() % 2 == 1 {
            slots[0] == leaves.last()
        } else {
            slots[0] == H::def_sp()
        })
        &&& tracks(pairs(leaves), slots.skip(1))
    }
}

/// No leaf and no inner digest of the tree over the list equals the zero
/// digest. The accumulator uses the zero digest as its "slot empty" mark, so
/// a stored digest equal to it would be mistaken for an empty slot.
pub open spec fn nondegen<H: crate::Hash>(leaves: Seq<H>) -> bool
    decreases leaves.len(),
{
    &&& (forall|i: int| 0 <= i < leaves.len() ==> leaves[i] != H::def_sp())
    &&& (leaves.len() >= 2 ==> nondegen(pairs(leaves)))
}

/// The accumulator state after feeding a leaf list, one leaf at a time, into
/// a fresh instance: the slots and the most recently returned root.
pub open spec fn feed_state<H: crate::Hash>(leaves: Seq<H>) -> (Seq<H>, H)
    decreases leaves.len(),
{
    if leaves.len() == 0 {
        (Seq::empty(), H::def_sp())
    } else {
        feed_spec(feed_state(leaves.drop_last()).0, leaves.last())
    }
}

/// A walk that starts at level one over slots whose lowest slot holds the
/// zero digest behaves as the same walk started at level zero over the
/// higher slots, with the lowest slot kept as it is.
proof fn lemma_walk_shift_default<H: crate::Hash>(slots: Seq<H>, v: H, live: bool, round: nat)
    requires
        slots.len() >= 1,
        round >= 1,
        slots[0] == H::def_sp(),
    ensures
        feed_walk(slots, v, live, round).0 == seq![H::def_sp()] + feed_walk(
            slots.skip(1),
            v,
            live,
            (round - 1) as nat,
        ).0,
        feed_walk(slots, v, live, round).1 == feed_walk(
            slots.skip(1),
            v,
            live,
            (round - 1) as nat,
        ).1,
    decreases slots.len() - round,
{
    let tail = slots.skip(1);
    assert(tail.len() == slots.len() - 1);
    assert(forall|j: int| 0 <= j < tail.len() ==> tail[j] == slots[j + 1]);
    if round >= slots.len() {
        if all_default::<H>(slots) {
            assert(all_default::<H>(tail));
            assert(slots.push(v) =~= seq![H::def_sp()] + tail.push(v));
        } else {
            let i = choose|i: int| 0 <= i < slots.len() && slots[i] != H::def_sp();
            assert(tail[i - 1] != H::def_sp());
            assert(!all_default::<H>(tail));
            assert(slots =~= seq![H::def_sp()] + tail);
        }
    } else {
        let r = round as int;
        if slots[r] != H::def_sp() {
            let parent = combine(slots[r], v);
            if live {
                let slots2 = slots.update(r, H::def_sp());
                assert(slots2.skip(1) =~= tail.update(r - 1, H::def_sp()));
                lemma_walk_shift_default(slots2, parent, true, round + 1);
            } else {
                lemma_walk_shift_default(slots, parent, false, round + 1);
            }
        } else {
            let parent = combine(v, v);
            if live {
                let slots2 = slots.update(r, v);
                assert(slots2.skip(1) =~= tail.update(r - 1, v));
                lemma_walk_shift_default(slots2, parent, false, round + 1);
            } else {
                lemma_walk_shift_default(slots, parent, false, round + 1);
            }
        }
    }
}

/// A walk that is no longer live does not change the slots, as long as some
/// slot holds a digest other than the zero digest.
proof fn lemma_walk_virtual_pure<H: crate::Hash>(slots: Seq<H>, v: H, round: nat)
    requires
        !all_default::<H>(slots),
    ensures
        feed_walk(slots, v, false, round).0 == slots,
    decreases slots.len() - round,
{
    if round >= slots.len() {
    } else {
        let r = round as int;
        if slots[r] != H::def_sp() {
            lemma_walk_virtual_pure(slots, combine(slots[r], v), round + 1);
        } else {
            lemma_walk_virtual_pure(slots, combine(v, v), round + 1);
        }
    }
}

/// A walk that is no longer live, started at level one, returns the digest
/// of the same walk started at level zero over the higher slots, as long as
/// one of those higher slots holds a digest other than the zero digest.
proof fn lemma_walk_shift_virtual<H: crate::Hash>(slots: Seq<H>, v: H, round: nat)
    requires
        slots.len() >= 1,
        round >= 1,
        !all_default::<H>(slots.skip(1)),
    ensures
        feed_walk(slots, v, false, round).0 == slots,
        feed_walk(slots, v, false, round).1 == feed_walk(
            slots.skip(1),
            v,
            false,
            (round - 1) as nat,
        ).1,
    decreases slots.len() - round,
{
    let tail = slots.skip(1);
    assert(forall|j: int| 0 <= j < tail.len() ==> tail[j] == slots[j + 1]);
    let j = choose|j: int| 0 <= j < tail.len() && tail[j] != H::def_sp();
    assert(slots[j + 1] != H::def_sp());
    assert(!all_default::<H>(slots));
    if round >= slots.len() {
    } else {
        let r = round as int;
        if slots[r] != H::def_sp() {
            lemma_walk_shift_virtual(slots, combine(slots[r], v), round + 1);
        } else {
            lemma_walk_shift_virtual(slots, combine(v, v), round + 1);
        }
    }
}

/// Slots that track a non-empty leaf list with no zero-digest tree node are
/// not all at the zero digest.
proof fn lemma_tracks_nonzero<H: crate::Hash>(leaves: Seq<H>, slots: Seq<H>)
    requires
        tracks(leaves, slots),
        nondegen(leaves),
        leaves.len() >= 1,
    ensures
        !all_default::<H>(slots),
    decreases leaves.len(),
{
    if leaves.len() % 2 == 1 {
        assert(slots[0] == leaves.last());
        assert(leaves.last() != H::def_sp());
    } else {
        let tail = slots.skip(1);
        lemma_tracks_nonzero(pairs(leaves), tail);
        let j = choose|j: int| 0 <= j < tail.len() && tail[j] != H::def_sp();
        assert(slots[j + 1] == tail[j]);
    }
}

/// Pairing a list that ends in a freshly appended digest: the complete pairs
/// of `leaves.push(x)`.
proof fn lemma_pairs_push<H: crate::Hash>(leaves: Seq<H>, x: H)
    ensures
        leaves.len() % 2 == 1 ==> pairs(leaves.push(x)) =~= pairs(leaves).push(
            combine(leaves.last(), x),
        ),
        leaves.len() % 2 == 0 ==> pairs(leaves.push(x)) =~= pairs(leaves),
{
}

/// A walk that is no longer live computes the batch root of the tracked
/// leaves with the carried digest appended, and leaves the slots unchanged.
proof fn lemma_walk_virtual<H: crate::Hash>(leaves: Seq<H>, slots: Seq<H>, v: H)
    requires
        tracks(leaves, slots),
        nondegen(leaves),
        leaves.len() >= 1,
    ensures
        feed_walk(slots, v, false, 0).0 == slots,
        feed_walk(slots, v, false, 0).1 == merkle_root_nonempty(leaves.push(v)),
    decreases leaves.len(),
{
    lemma_tracks_nonzero(leaves, slots);
    lemma_walk_virtual_pure(slots, v, 0);
    let tail = slots.skip(1);
    lemma_pairs_push(leaves, v);
    if leaves.len() == 1 {
        assert(slots[0] == leaves.last());
        assert(slots.len() == 1) by {
            assert(tracks(pairs(leaves), tail));
            assert(pairs(leaves).len() == 0);
        }
        let parent = combine(slots[0], v);
        assert(feed_walk(slots, v, false, 0).1 == feed_walk(slots, parent, false, 1).1);
        assert(feed_walk(slots, parent, false, 1).1 == parent);
        assert(level_up(leaves.push(v)) =~= seq![parent]);
        assert(merkle_root_nonempty(seq![parent]) == parent);
        assert(merkle_root_nonempty(leaves.push(v)) == merkle_root_nonempty(
            level_up(leaves.push(v)),
        ));
    } else if leaves.len() % 2 == 1 {
        assert(slots[0] == leaves.last());
        assert(leaves.last() != H::def_sp());
        let parent = combine(slots[0], v);
        lemma_tracks_nonzero(pairs(leaves), tail);
        lemma_walk_shift_virtual(slots, parent, 1);
        lemma_walk_virtual(pairs(leaves), tail, parent);
        assert(level_up(leaves.push(v)) == pairs(leaves).push(parent));
    } else {
        assert(slots[0] == H::def_sp());
        let parent = combine(v, v);
        lemma_tracks_nonzero(pairs(leaves), tail);
        lemma_walk_shift_virtual(slots, parent, 1);
        lemma_walk_virtual(pairs(leaves), tail, parent);
        assert(level_up(leaves.push(v)) == pairs(leaves).push(parent));
    }
}

/// One live feed: starting from slots that track the leaves fed so far, the
/// walk returns the batch root of the leaves with the new one appended, and
/// leaves slots that track the extended list.
proof fn lemma_walk_live<H: crate::Hash>(leaves: Seq<H>, slots: Seq<H>, x: H)
    requires
        tracks(leaves, slots),
        nondegen(leaves.push(x)),
    ensures
        tracks(leaves.push(x), feed_walk(slots, x, true, 0).0),
        feed_walk(slots, x, true, 0).1 == merkle_root_nonempty(leaves.push(x)),
    decreases leaves.len(),
{
    lemma_pairs_push(leaves, x);
    if leaves.len() == 0 {
        assert(slots.len() == 0);
        assert(all_default::<H>(slots));
        assert(feed_walk(slots, x, true, 0) == (seq![x], x));
        assert(tracks(leaves.push(x), seq![x])) by {
            assert(pairs(leaves.push(x)).len() == 0);
            assert(seq![x].skip(1).len() == 0);
            assert(tracks(pairs(leaves.push(x)), seq![x].skip(1)));
            assert(seq![x][0] == x);
            assert(leaves.push(x).last() == x);
        }
    } else if leaves.len() % 2 == 1 {
        let tail = slots.skip(1);
        assert(slots[0] == leaves.last());
        assert(leaves.push(x)[leaves.len() - 1] == leaves.last());
        assert(leaves.last() != H::def_sp());
        let parent = combine(slots[0], x);
        let slots2 = slots.update(0, H::def_sp());
        assert(slots2.skip(1) =~= tail);
        lemma_walk_shift_default(slots2, parent, true, 1);
        assert(pairs(leaves).push(parent) == pairs(leaves.push(x)));
        assert(nondegen(pairs(leaves.push(x))));
        lemma_walk_live(pairs(leaves), tail, parent);
        let walked = feed_walk(tail, parent, true, 0);
        assert(feed_walk(slots, x, true, 0).0 == seq![H::def_sp()] + walked.0);
        assert(level_up(leaves.push(x)) == pairs(leaves).push(parent));
        assert(tracks(leaves.push(x), seq![H::def_sp()] + walked.0)) by {
            assert((seq![H::def_sp()] + walked.0)[0] == H::def_sp());
            assert((seq![H::def_sp()] + walked.0).skip(1) =~= walked.0);
            assert((leaves.push(x)).len() % 2 == 0);
        }
    } else {
        let tail = slots.skip(1);
        assert(slots[0] == H::def_sp());
        let parent = combine(x, x);
        let slots2 = slots.update(0, x);
        assert(slots2.skip(1) =~= tail);
        assert(nondegen(pairs(leaves))) by {
            assert(nondegen(pairs(leaves.push(x))));
            assert(pairs(leaves.push(x)) =~= pairs(leaves));
        }
        lemma_tracks_nonzero(pairs(leaves), tail);
        lemma_walk_shift_virtual(slots2, parent, 1);
        lemma_walk_virtual(pairs(leaves), tail, parent);
        assert(feed_walk(slots, x, true, 0).0 == slots2);
        assert(level_up(leaves.push(x)) == pairs(leaves).push(parent));
        assert(tracks(leaves.push(x), slots2)) by {
            assert(slots2[0] == x);
            assert(leaves.push(x).last() == x);
            assert((leaves.push(x)).len() % 2 == 1);
            assert(tracks(pairs(leaves.push(x)), slots2.skip(1)));
        }
    }
}

/// Dropping the last leaf keeps the tree free of zero digests.
proof fn lemma_nondegen_drop_last<H: crate::Hash>(leaves: Seq<H>)
    requires
        nondegen(leaves),
        leaves.len() >= 1,
    ensures
        nondegen(leaves.drop_last()),
    decreases leaves.len(),
{
    let rest = leaves.drop_last();
    assert(forall|i: int| 0 <= i < rest.len() ==> rest[i] == leaves[i]);
    if rest.len() >= 2 {
        if leaves.len() % 2 == 1 {
            assert(pairs(rest) =~= pairs(leaves));
        } else {
            lemma_nondegen_drop_last(pairs(leaves));
            assert(pairs(rest) =~= pairs(leaves).drop_last());
        }
    }
}

/// Every prefix of a tree free of zero digests is itself free of them.
proof fn lemma_nondegen_take<H: crate::Hash>(leaves: Seq<H>, j: int)
    requires
        nondegen(leaves),
        0 <= j <= leaves.len(),
    ensures
        nondegen(leaves.take(j)),
    decreases leaves.len() - j,
{
    if j == leaves.len() {
        assert(leaves.take(j) =~= leaves);
    } else {
        lemma_nondegen_take(leaves, j + 1);
        lemma_nondegen_drop_last(leaves.take(j + 1));
        assert(leaves.take(j + 1).drop_last() =~= leaves.take(j));
    }
}

/// Feeding a leaf list into a fresh accumulator leaves slots that track it,
/// and the last feed returns its batch root.
proof fn lemma_feed_state<H: crate::Hash>(leaves: Seq<H>)
    requires
        nondegen(leaves),
    ensures
        tracks(leaves, feed_state(leaves).0),
        leaves.len() >= 1 ==> feed_state(leaves).1 == merkle_root_nonempty(leaves),
    decreases leaves.len(),
{
    if leaves.len() == 0 {
    } else {
        let prefix = leaves.drop_last();
        lemma_nondegen_drop_last(leaves);
        lemma_feed_state(prefix);
        assert(prefix.push(leaves.last()) =~= leaves);
        lemma_walk_live(prefix, feed_state(prefix).0, leaves.last());
    }
}

/// Equivalence law: feeding the first `i + 1` leaves of a list, in order,
/// into a fresh incremental accumulator returns after the last feed exactly
/// the batch Merkle root of those `i + 1` leaves. The side condition asks
/// that no leaf and no inner digest of the tree over the list equals the
/// zero digest, which the accumulator reserves as its "slot empty" mark.
pub proof fn lemma_incremental_equals_batch<H: crate::Hash>(leaves: Seq<H>, i: int)
    requires
        nondegen(leaves),
        0 <= i < leaves.len(),
    ensures
        feed_state(leaves.take(i + 1)).1 == merkle_root(leaves.take(i + 1)),
{
    lemma_nondegen_take(leaves, i + 1);
    lemma_feed_state(leaves.take(i + 1));
}

/// Save and restore law: the root returned by a feed depends only on the
/// saved slots and the digest fed, never on the previously returned root;
/// an accumulator restored from saved slots therefore answers the next feed
/// exactly as the live instance it was saved from.
pub proof fn lemma_save_restore<H: crate::Hash>(live: Seq<H>, restored: Seq<H>, x: H)
    requires
        restored == live,
    ensures
        feed_spec(restored, x).1 == feed_spec(live, x).1,
        feed_spec(restored, x).0 == feed_spec(live, x).0,
{
}

} // verus!
