//! A binary tree whose shape lies in the numbers of its slots. The elements
//! sit in a hash map from slot to element, so a sparse tree costs nothing
//! for the slots it leaves empty, and a cursor finds the parent and the
//! children of a slot by arithmetic alone.
//!
//! A slot other than the root can only be written while its parent is
//! occupied, and nothing is ever removed: the occupied slots stay connected
//! to the root.
//!
//! The reading cursor, `View`, shares its name with the trait behind `@`. A
//! module that needs both brings the trait in with
//! `use vstd::view::View as _;`.

pub mod slot;

use crate::tree::node::slot::{connected, left_of, parent_of, right_of, writable, written};
use std::collections::HashMap;
use vstd::prelude::*;
use vstd::std_specs::hash::group_hash_axioms;
use vstd::view::View as _;

verus! {

broadcast use group_hash_axioms;

/// Why a write was refused.
#[derive(Debug)]
pub enum BinaryTreeError {
    /// The slot is not the root and the slot of its parent is empty.
    MissingParent,
}

/// An implicit binary tree. Its model, `slots`, is the map from the occupied
/// slots to their elements.
#[derive(Debug)]
pub struct BinaryTree<T> {
    map: HashMap<usize, T>,
}

/// A cursor that can write: a tree, borrowed for writing, and a slot.
#[derive(Debug)]
pub struct ViewMut<'a, T> {
    tree: &'a mut BinaryTree<T>,
    i: usize,
}

/// A cursor that can read: a tree, borrowed for reading, and a slot.
#[derive(Debug)]
pub struct View<'a, T> {
    tree: &'a BinaryTree<T>,
    i: usize,
}

impl<T> Default for BinaryTree<T> {
    fn default() -> (tree: Self)
        ensures
            tree.slots() == Map::<usize, T>::empty(),
            connected(tree.slots()),
    {
        Self { map: HashMap::new() }
    }
}

impl<T> BinaryTree<T> {
    /// The occupied slots with their elements.
    pub closed spec fn slots(self) -> Map<usize, T> {
        self.map@
    }

    /// A tree without elements.
    pub fn new() -> (tree: Self)
        ensures
            tree.slots() == Map::<usize, T>::empty(),
            connected(tree.slots()),
    {
        Default::default()
    }

    /// A tree without elements, with room set aside for `capacity` of them.
    pub fn with_capacity(capacity: usize) -> (tree: Self)
        ensures
            tree.slots() == Map::<usize, T>::empty(),
            connected(tree.slots()),
    {
        Self { map: HashMap::with_capacity(capacity) }
    }

    /// A reading cursor at the root.
    pub fn view(&self) -> (cursor: View<'_, T>)
        ensures
            cursor.index() == 1,
            cursor.tree() == self,
    {
        View { tree: self, i: 1 }
    }

    /// A writing cursor at the root. What is written through it, or through
    /// the cursors that it turns into, is in the tree when the last of them
    /// is let go.
    pub fn view_mut(&mut self) -> (cursor: ViewMut<'_, T>)
        ensures
            cursor.index() == 1,
            *cursor.tree() == *old(self),
            *final(cursor.tree()) == *final(self),
    {
        ViewMut { tree: self, i: 1 }
    }

    /// Whether no slot is occupied.
    pub fn is_empty(&self) -> (empty: bool)
        ensures
            empty == (self.slots().len() == 0),
            empty == (self.slots() == Map::<usize, T>::empty()),
    {
        assert(self.map@.is_empty() ==> self.map@ =~= Map::<usize, T>::empty());
        self.map.is_empty()
    }

    /// The number of occupied slots.
    pub fn len(&self) -> (len: usize)
        ensures
            len == self.slots().len(),
    {
        self.map.len()
    }
}

impl<'a, T> ViewMut<'a, T> {
    /// The slot that the cursor is at.
    pub closed spec fn index(self) -> usize {
        self.i
    }

    /// The borrowed tree: `*cursor.tree()` is the tree as the cursor sees it
    /// now, `*final(cursor.tree())` is the tree as the borrow hands it back.
    pub closed spec fn tree(self) -> &'a mut BinaryTree<T> {
        self.tree
    }

    /// A cursor that is let go hands the tree back as it last saw it. With
    /// this lemma in a `broadcast use`, what was written through a chain of
    /// cursors is known of the tree once the last of them is gone.
    pub broadcast proof fn lemma_let_go(self)
        ensures
            #[trigger] has_resolved(self) ==> *final(self.tree()) == *self.tree(),
    {
    }

    /// The element at the cursor's slot, if the slot is occupied.
    pub fn get(&self) -> (found: Option<&T>)
        ensures
            found == match self.tree().slots().get(self.index()) {
                Some(data) => Some(&data),
                None => None,
            },
    {
        self.tree.map.get(&self.i)
    }

    /// Writes `data` to the cursor's slot and hands back what the slot held.
    /// A slot that is neither the root nor the child of an occupied slot is
    /// not written: the tree stays as it is and the answer is
    /// `MissingParent`.
    pub fn set(&mut self, data: T) -> (held: Result<Option<T>, BinaryTreeError>)
        ensures
            final(self).index() == old(self).index(),
            *final(final(self).tree()) == *final(old(self).tree()),
            final(self).tree().slots() == written(old(self).tree().slots(), old(self).index(), data),
            match held {
                Ok(before) => writable(old(self).tree().slots(), old(self).index()) && before == old(
                    self,
                ).tree().slots().get(old(self).index()),
                Err(BinaryTreeError::MissingParent) => !writable(
                    old(self).tree().slots(),
                    old(self).index(),
                ),
            },
            connected(old(self).tree().slots()) ==> connected(final(self).tree().slots()),
    {
        // The parent can always be found through integer division. The root is
        // at index 1.
        let parent = self.i / 2;
        // Nodes can be set if they are the root, or they have a valid parent.
        if self.i == 1 || self.tree.map.contains_key(&parent) {
            let prev_data = self.tree.map.insert(self.i, data);
            Ok(prev_data)
        } else {
            Err(BinaryTreeError::MissingParent)
        }
    }

    /// The cursor, moved to the left child of its slot. The new cursor sees
    /// the tree as the old one saw it, and hands it back to the old one,
    /// which can do no more than pass it on: it stays borrowed.
    pub fn left(&'a mut self) -> (cursor: Self)
        ensures
            cursor.index() == left_of(old(self).index()),
            *cursor.tree() == *old(self).tree(),
            *final(cursor.tree()) == *final(self).tree(),
            *final(final(self).tree()) == *final(old(self).tree()),
    {
        Self { tree: self.tree, i: if self.i <= usize::MAX / 2 { self.i * 2 } else { usize::MAX } }
    }

    /// The cursor, moved to the right child of its slot.
    pub fn right(&'a mut self) -> (cursor: Self)
        ensures
            cursor.index() == right_of(old(self).index()),
            *cursor.tree() == *old(self).tree(),
            *final(cursor.tree()) == *final(self).tree(),
            *final(final(self).tree()) == *final(old(self).tree()),
    {
        Self {
            tree: self.tree,
            i: if self.i <= (usize::MAX - 1) / 2 { self.i * 2 + 1 } else { usize::MAX },
        }
    }

    /// The cursor, moved to the parent of its slot; at the root it stays.
    pub fn parent(&'a mut self) -> (cursor: Self)
        ensures
            cursor.index() == parent_of(old(self).index()),
            *cursor.tree() == *old(self).tree(),
            *final(cursor.tree()) == *final(self).tree(),
            *final(final(self).tree()) == *final(old(self).tree()),
    {
        Self {
            tree: self.tree,
            // Cannot go up if already at the root. Just return the root again.
            i: if self.i == 1 { self.i } else { self.i / 2 },
        }
    }
}

impl<'a, T> View<'a, T> {
    /// The slot that the cursor is at.
    pub closed spec fn index(self) -> usize {
        self.i
    }

    /// The borrowed tree.
    pub closed spec fn tree(self) -> &'a BinaryTree<T> {
        self.tree
    }

    /// The element at the cursor's slot, if the slot is occupied.
    pub fn get(&self) -> (found: Option<&T>)
        ensures
            found == match self.tree().slots().get(self.index()) {
                Some(data) => Some(&data),
                None => None,
            },
    {
        self.tree.map.get(&self.i)
    }

    /// A cursor at the left child of this cursor's slot.
    pub fn left(&'a self) -> (cursor: Self)
        ensures
            cursor.index() == left_of(self.index()),
            cursor.tree() == self.tree(),
    {
        Self { tree: self.tree, i: if self.i <= usize::MAX / 2 { self.i * 2 } else { usize::MAX } }
    }

    /// A cursor at the right child of this cursor's slot.
    pub fn right(&'a self) -> (cursor: Self)
        ensures
            cursor.index() == right_of(self.index()),
            cursor.tree() == self.tree(),
    {
        Self {
            tree: self.tree,
            i: if self.i <= (usize::MAX - 1) / 2 { self.i * 2 + 1 } else { usize::MAX },
        }
    }

    /// A cursor at the parent of this cursor's slot; at the root, a cursor
    /// at the root.
    pub fn parent(&'a self) -> (cursor: Self)
        ensures
            cursor.index() == parent_of(self.index()),
            cursor.tree() == self.tree(),
    {
        Self {
            tree: self.tree,
            // Cannot go up if already at the root. Just return the root again.
            i: if self.i == 1 { self.i } else { self.i / 2 },
        }
    }
}

} // verus!
