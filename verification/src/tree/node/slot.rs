//! The numbering of the slots of an implicit binary tree. The root is slot
//! 1, the children of slot `i` are the slots `2i` and `2i + 1`, and the
//! parent of slot `i` is slot `i / 2`; the root is its own parent. A child
//! whose number does not fit the index type is taken to be the last slot
//! that does.

use vstd::prelude::*;

verus! {

/// The slot of the left child of slot `i`.
pub open spec fn left_of(i: usize) -> usize {
    if 2 * i <= usize::MAX {
        (2 * i) as usize
    } else {
        usize::MAX
    }
}

/// The slot of the right child of slot `i`.
pub open spec fn right_of(i: usize) -> usize {
    if 2 * i + 1 <= usize::MAX {
        (2 * i + 1) as usize
    } else {
        usize::MAX
    }
}

/// The slot of the parent of slot `i`.
pub open spec fn parent_of(i: usize) -> usize {
    if i == 1 {
        1
    } else {
        i / 2
    }
}

/// Slot `i` can be written: it is the root, or its parent is occupied.
pub open spec fn writable<T>(slots: Map<usize, T>, i: usize) -> bool {
    i == 1 || slots.contains_key(parent_of(i))
}

/// Every occupied slot has a number of at least 1 and, unless it is the
/// root, an occupied parent.
pub open spec fn connected<T>(slots: Map<usize, T>) -> bool {
    forall|i: usize| #[trigger] slots.contains_key(i) ==> i >= 1 && writable(slots, i)
}

/// What a write of `data` to slot `i` leaves: the slot holds `data` where it
/// can be written, and nothing has changed where it cannot.
pub open spec fn written<T>(slots: Map<usize, T>, i: usize, data: T) -> Map<usize, T> {
    if writable(slots, i) {
        slots.insert(i, data)
    } else {
        slots
    }
}

/// What the writes `writes`, each a slot and an element, leave of the empty
/// tree when they are made first to last.
pub open spec fn after_writes<T>(writes: Seq<(usize, T)>) -> Map<usize, T>
    decreases writes.len(),
{
    if writes.len() == 0 {
        Map::empty()
    } else {
        written(after_writes(writes.drop_last()), writes.last().0, writes.last().1)
    }
}

/// The root is its own parent.
pub proof fn lemma_parent_of_root()
    ensures
        parent_of(1) == 1,
{
}

/// Going to a child and back up ends where it began, for every slot whose
/// children have numbers that fit the index type.
pub proof fn lemma_parent_of_child(i: usize)
    requires
        1 <= i,
        2 * i + 1 <= usize::MAX,
    ensures
        parent_of(left_of(i)) == i,
        parent_of(right_of(i)) == i,
{
}

/// A write keeps the occupied slots connected, whether it is taken or not.
pub proof fn lemma_written_connected<T>(slots: Map<usize, T>, i: usize, data: T)
    requires
        connected(slots),
    ensures
        connected(written(slots, i, data)),
{
}

/// Whatever writes are made to the empty tree, in whatever order, the
/// occupied slots are connected after each of them.
pub proof fn lemma_after_writes_connected<T>(writes: Seq<(usize, T)>)
    ensures
        connected(after_writes(writes)),
    decreases writes.len(),
{
    if writes.len() > 0 {
        lemma_after_writes_connected(writes.drop_last());
        lemma_written_connected(
            after_writes(writes.drop_last()),
            writes.last().0,
            writes.last().1,
        );
    }
}

/// A write that is not taken leaves the number of occupied slots as it was;
/// one that is taken adds one unless the slot was occupied.
pub proof fn lemma_written_len<T>(slots: Map<usize, T>, i: usize, data: T)
    requires
        slots.dom().finite(),
    ensures
        written(slots, i, data).dom().finite(),
        written(slots, i, data).len() == if writable(slots, i) && !slots.contains_key(i) {
            slots.len() + 1
        } else {
            slots.len()
        },
{
    if writable(slots, i) && slots.contains_key(i) {
        assert(slots.insert(i, data).dom() == slots.dom());
    }
}

} // verus!
