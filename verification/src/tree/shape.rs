//! The mathematical model of an ordered tree: its shape, the listing of its
//! elements from left to right, and where an insertion puts a new element.

use crate::tree::order::{goes_left, goes_right};
use vstd::prelude::*;

verus! {

/// A binary tree as a value: empty, or an element between two subtrees.
pub enum Shape<T> {
    Empty,
    Fork { left: Box<Shape<T>>, data: T, right: Box<Shape<T>> },
}

impl<T> Shape<T> {
    /// The tree of one element.
    pub open spec fn leaf(item: T) -> Shape<T> {
        Shape::Fork { left: Box::new(Shape::Empty), data: item, right: Box::new(Shape::Empty) }
    }

    /// The elements from left to right: the left subtree, the element at the
    /// top, the right subtree.
    pub open spec fn inorder(self) -> Seq<T>
        decreases self,
    {
        match self {
            Shape::Empty => Seq::empty(),
            Shape::Fork { left, data, right } => left.inorder().push(data) + right.inorder(),
        }
    }

    /// `grown` is `self` with one more leaf, which holds `item`.
    pub open spec fn gains(self, item: T, grown: Shape<T>) -> bool
        decreases self,
    {
        match self {
            Shape::Empty => grown == Shape::leaf(item),
            Shape::Fork { left, data, right } => match grown {
                Shape::Empty => false,
                Shape::Fork { left: grown_left, data: grown_data, right: grown_right } => {
                    &&& grown_data == data
                    &&& {
                        ||| left.gains(item, *grown_left) && grown_right == right
                        ||| grown_left == left && right.gains(item, *grown_right)
                    }
                },
            },
        }
    }
}

impl<T: PartialOrd> Shape<T> {
    /// The descent of `item` reaches an empty place: at no element on its way
    /// is the comparison undefined.
    pub open spec fn admits(self, item: T) -> bool
        decreases self,
    {
        match self {
            Shape::Empty => true,
            Shape::Fork { left, data, right } => if goes_left(item, data) {
                left.admits(item)
            } else if goes_right(item, data) {
                right.admits(item)
            } else {
                false
            },
        }
    }

    /// The tree in which `branch` hangs at the empty place that the descent of
    /// `item` reaches; `self` where the descent meets an element that `item`
    /// cannot be compared with.
    pub open spec fn graft(self, item: T, branch: Shape<T>) -> Shape<T>
        decreases self,
    {
        match self {
            Shape::Empty => branch,
            Shape::Fork { left, data, right } => if goes_left(item, data) {
                Shape::Fork { left: Box::new(left.graft(item, branch)), data, right }
            } else if goes_right(item, data) {
                Shape::Fork { left, data, right: Box::new(right.graft(item, branch)) }
            } else {
                self
            },
        }
    }

    /// The tree after the insertion of `item`.
    pub open spec fn with(self, item: T) -> Shape<T> {
        self.graft(item, Shape::leaf(item))
    }

    /// The place in the listing at which the descent of `item` ends: the
    /// number of elements to the left of the empty place that it reaches.
    pub open spec fn rank(self, item: T) -> int
        decreases self,
    {
        match self {
            Shape::Empty => 0,
            Shape::Fork { left, data, right } => if goes_right(item, data) {
                left.inorder().len() + 1 + right.rank(item)
            } else {
                left.rank(item)
            },
        }
    }

    /// At every element, what is in its left subtree compares `Less` or
    /// `Equal` to it, and what is in its right subtree compares `Greater`.
    pub open spec fn ordered(self) -> bool
        decreases self,
    {
        match self {
            Shape::Empty => true,
            Shape::Fork { left, data, right } => {
                &&& left.ordered()
                &&& right.ordered()
                &&& forall|i: int|
                    0 <= i < left.inorder().len() ==> goes_left(#[trigger] left.inorder()[i], data)
                &&& forall|i: int|
                    0 <= i < right.inorder().len() ==> goes_right(
                        #[trigger] right.inorder()[i],
                        data,
                    )
            },
        }
    }

    /// The tree that the insertions of `items`, first to last, build from
    /// the empty tree.
    pub open spec fn built(items: Seq<T>) -> Shape<T>
        decreases items.len(),
    {
        if items.len() == 0 {
            Shape::Empty
        } else {
            Self::built(items.drop_last()).with(items.last())
        }
    }
}

} // verus!
