//! Tree containers. This module holds the ordered tree; the implicit binary
//! tree is in `node`.
//!
//! The ordered tree is an unbalanced binary search tree over any type with a
//! (possibly partial) ordering. Elements are only ever added. An element that
//! compares `Less` or `Equal` to the one it meets goes on to the left, one
//! that compares `Greater` goes on to the right, and one that cannot be
//! compared with an element on its way is dropped without a word.
//!
//! The contracts speak of the tree's shape (`shape`), the comparison
//! (`order`) and what follows from the two (`laws`).

pub mod laws;
pub mod node;
pub mod order;
pub mod shape;

use crate::tree::laws::{lemma_with_gains, lemma_with_ordered};
use crate::tree::shape::Shape;
use core::cmp::Ordering;
use vstd::prelude::*;
use vstd::std_specs::cmp::PartialOrdSpec;

verus! {

/// An ordered tree. Its view is its shape.
#[derive(Debug)]
pub struct BST<T> where T: PartialOrd {
    root: Option<Box<Node<T>>>,
}

/// An element of an ordered tree with the subtrees below it. Its view is the
/// shape of the tree that it is the top of.
#[derive(Debug)]
pub struct Node<T> {
    data: T,
    left: Option<Box<Node<T>>>,
    right: Option<Box<Node<T>>>,
}

/// The shape of what hangs at a link.
spec fn subtree<T>(link: Option<Box<Node<T>>>) -> Shape<T>
    decreases link,
{
    match link {
        None => Shape::Empty,
        Some(node) => Shape::Fork {
            left: Box::new(subtree(node.left)),
            data: node.data,
            right: Box::new(subtree(node.right)),
        },
    }
}

/// What hangs at a link that holds a node is the tree below that node.
proof fn lemma_link<T>(node: Box<Node<T>>)
    ensures
        subtree(Some(node)) == node@,
{
}

impl<T> View for Node<T> {
    type V = Shape<T>;

    closed spec fn view(&self) -> Shape<T> {
        Shape::Fork {
            left: Box::new(subtree(self.left)),
            data: self.data,
            right: Box::new(subtree(self.right)),
        }
    }
}

impl<T: PartialOrd> View for BST<T> {
    type V = Shape<T>;

    closed spec fn view(&self) -> Shape<T> {
        subtree(self.root)
    }
}

impl<T> BST<T> where T: PartialOrd {
    /// The empty tree.
    pub fn new() -> (tree: Self)
        ensures
            tree@ == Shape::<T>::Empty,
            tree@.ordered(),
    {
        Default::default()
    }

    /// The element at the top, if there is one.
    pub fn root(&self) -> (top: Option<&T>)
        ensures
            top == match self@ {
                Shape::Empty => None,
                Shape::Fork { data, .. } => Some(&data),
            },
    {
        Some(&self.root.as_ref()?.data)
    }

    /// Inserts `item`. Where the comparison of `T` is the one that Verus
    /// knows, the new tree is `with(item)` of the old one: `item` hangs as
    /// a new leaf where its descent ends, or the tree is unchanged because
    /// the descent met an element that `item` cannot be compared with.
    /// Whatever the comparison answers, the tree stays as it was or gains
    /// one leaf that holds `item`, and the empty tree always takes `item`.
    pub fn insert(&mut self, item: T)
        ensures
            T::obeys_partial_cmp_spec() ==> final(self)@ == old(self)@.with(item),
            T::obeys_partial_cmp_spec() && old(self)@.ordered() ==> final(self)@.ordered(),
            final(self)@ == old(self)@ || old(self)@.gains(item, final(self)@),
            old(self)@ is Empty ==> final(self)@ == Shape::leaf(item),
    {
        proof {
            if old(self)@.ordered() {
                lemma_with_ordered(old(self)@, item);
            }
        }
        if let Some(n) = &mut self.root {
            proof {
                lemma_link(*n);
            }
            let _ = n.insert(item);
            proof {
                lemma_link(*n);
            }
        } else {
            self.root = Some(Box::new(Node { data: item, left: None, right: None }))
        }
    }

    /// The elements from left to right.
    pub fn inorder(&self) -> (out: Vec<&T>)
        ensures
            out@.len() == self@.inorder().len(),
            forall|i: int| 0 <= i < out@.len() ==> *out@[i] == self@.inorder()[i],
    {
        let mut out: Vec<&T> = Vec::new();
        if let Some(n) = &self.root {
            proof {
                lemma_link(*n);
            }
            n.inorder(&mut out);
        }
        out
    }
}

impl<T> Node<T> where T: PartialOrd {
    /// A node without children.
    pub fn new(data: T) -> (node: Self)
        ensures
            node@ == Shape::leaf(data),
            node@.ordered(),
    {
        proof {
            lemma_with_ordered(Shape::Empty, data);
        }
        Self { data, left: None, right: None }
    }

    /// Inserts `item` below this node, and says whether it found a place.
    /// Where the comparison of `T` is the one that Verus knows, the new tree
    /// is `with(item)` of the old one, and `item` found a place exactly if
    /// the old tree admits it. Whatever the comparison answers, `Some` means
    /// that the tree has gained one leaf that holds `item`, and `None` that
    /// it is unchanged.
    pub fn insert(&mut self, item: T) -> (done: Option<()>)
        ensures
            T::obeys_partial_cmp_spec() ==> final(self)@ == old(self)@.with(item),
            T::obeys_partial_cmp_spec() ==> (done is Some <==> old(self)@.admits(item)),
            T::obeys_partial_cmp_spec() && old(self)@.ordered() ==> final(self)@.ordered(),
            done is Some ==> old(self)@.gains(item, final(self)@),
            done is None ==> final(self)@ == old(self)@,
        decreases old(self)@,
    {
        proof {
            if old(self)@.ordered() {
                lemma_with_ordered(old(self)@, item);
            }
        }
        match PartialOrd::partial_cmp(&item, &self.data)? {
            Ordering::Less | Ordering::Equal => {
                if let Some(n) = &mut self.left {
                    proof {
                        lemma_link(*n);
                    }
                    let done = n.insert(item);
                    proof {
                        lemma_link(*n);
                    }
                    done
                } else {
                    self.left = Some(Box::new(Node::new(item)));
                    proof {
                        lemma_link(self.left.unwrap());
                        lemma_with_gains(Shape::Empty, item);
                        assert(Shape::<T>::Empty.admits(item));
                    }
                    Some(())
                }
            },
            Ordering::Greater => {
                if let Some(n) = &mut self.right {
                    proof {
                        lemma_link(*n);
                    }
                    let done = n.insert(item);
                    proof {
                        lemma_link(*n);
                    }
                    done
                } else {
                    self.right = Some(Box::new(Node::new(item)));
                    proof {
                        lemma_link(self.right.unwrap());
                        lemma_with_gains(Shape::Empty, item);
                        assert(Shape::<T>::Empty.admits(item));
                    }
                    Some(())
                }
            },
        }
    }

    fn inorder<'a>(&'a self, res: &mut Vec<&'a T>)
        ensures
            final(res)@.len() == old(res)@.len() + self@.inorder().len(),
            forall|i: int| 0 <= i < old(res)@.len() ==> final(res)@[i] == old(res)@[i],
            forall|i: int|
                0 <= i < self@.inorder().len() ==> *final(res)@[old(res)@.len() + i]
                    == self@.inorder()[i],
        decreases self,
    {
        if let Some(n) = &self.left {
            proof {
                lemma_link(*n);
            }
            n.inorder(res);
        }
        res.push(&self.data);
        if let Some(n) = &self.right {
            proof {
                lemma_link(*n);
            }
            n.inorder(res);
        }
        assert(self@.inorder() == subtree(self.left).inorder().push(self.data) + subtree(
            self.right,
        ).inorder());
    }
}

impl<T> Default for BST<T> where T: PartialOrd {
    fn default() -> (tree: Self)
        ensures
            tree@ == Shape::<T>::Empty,
            tree@.ordered(),
    {
        Self { root: None }
    }
}

} // verus!
