//! What holds of every ordered tree: how an insertion changes the listing,
//! that it keeps the order, and where equal elements go.

use crate::tree::order::{goes_left, goes_right, non_decreasing, total_order};
use crate::tree::shape::Shape;
use vstd::prelude::*;
use vstd::seq_lib::to_multiset_insert;

verus! {

/// Where the descent of `item` reaches an empty place, the listing of the
/// grafted tree is the old listing with the listing of `branch` put in at
/// the rank of `item`. Where it does not, the graft changes nothing.
pub proof fn lemma_graft_inorder<T: PartialOrd>(tree: Shape<T>, item: T, branch: Shape<T>)
    ensures
        0 <= tree.rank(item) <= tree.inorder().len(),
        tree.admits(item) ==> tree.graft(item, branch).inorder() == tree.inorder().subrange(
            0,
            tree.rank(item),
        ) + branch.inorder() + tree.inorder().subrange(
            tree.rank(item),
            tree.inorder().len() as int,
        ),
        !tree.admits(item) ==> tree.graft(item, branch) == tree,
    decreases tree,
{
    match tree {
        Shape::Empty => {},
        Shape::Fork { left, data, right } => {
            lemma_graft_inorder(*left, item, branch);
            lemma_graft_inorder(*right, item, branch);
        },
    }
}

/// An insertion that reaches an empty place puts `item` into the listing at
/// its rank and leaves the other elements as they stood. One that does not
/// changes nothing.
pub proof fn lemma_with_inorder<T: PartialOrd>(tree: Shape<T>, item: T)
    ensures
        0 <= tree.rank(item) <= tree.inorder().len(),
        tree.admits(item) ==> tree.with(item).inorder() == tree.inorder().insert(
            tree.rank(item),
            item,
        ),
        !tree.admits(item) ==> tree.with(item) == tree,
{
    lemma_graft_inorder(tree, item, Shape::leaf(item));
    assert(Shape::leaf(item).inorder() == seq![item]) by {
        reveal_with_fuel(Shape::inorder, 2);
    }
}

/// An insertion that reaches an empty place adds one leaf.
pub proof fn lemma_with_gains<T: PartialOrd>(tree: Shape<T>, item: T)
    requires
        tree.admits(item),
    ensures
        tree.gains(item, tree.with(item)),
    decreases tree,
{
    match tree {
        Shape::Empty => {},
        Shape::Fork { left, data, right } => {
            if goes_left(item, data) {
                lemma_with_gains(*left, item);
            } else {
                lemma_with_gains(*right, item);
            }
        },
    }
}

/// A tree that has gained a leaf lists the old elements in their old order,
/// with the new one at some place among them.
pub proof fn lemma_gains_inorder<T>(tree: Shape<T>, item: T, grown: Shape<T>)
    requires
        tree.gains(item, grown),
    ensures
        exists|k: int|
            0 <= k <= tree.inorder().len() && grown.inorder() == #[trigger] tree.inorder().insert(
                k,
                item,
            ),
    decreases tree,
{
    match tree {
        Shape::Empty => {
            assert(grown.inorder() == tree.inorder().insert(0, item)) by {
                reveal_with_fuel(Shape::inorder, 2);
            }
        },
        Shape::Fork { left, data, right } => {
            let grown_left = grown->left;
            let grown_right = grown->right;
            if left.gains(item, *grown_left) && grown_right == right {
                lemma_gains_inorder(*left, item, *grown_left);
                let k = choose|k: int|
                    0 <= k <= left.inorder().len() && grown_left.inorder()
                        == #[trigger] left.inorder().insert(k, item);
                assert(grown.inorder() == tree.inorder().insert(k, item));
            } else {
                lemma_gains_inorder(*right, item, *grown_right);
                let k = choose|k: int|
                    0 <= k <= right.inorder().len() && grown_right.inorder()
                        == #[trigger] right.inorder().insert(k, item);
                assert(grown.inorder() == tree.inorder().insert(
                    left.inorder().len() + 1 + k,
                    item,
                ));
            }
        },
    }
}

/// An insertion keeps the order of the tree.
pub proof fn lemma_with_ordered<T: PartialOrd>(tree: Shape<T>, item: T)
    requires
        tree.ordered(),
    ensures
        tree.with(item).ordered(),
    decreases tree,
{
    match tree {
        Shape::Empty => {
            reveal_with_fuel(Shape::ordered, 2);
            reveal_with_fuel(Shape::inorder, 2);
        },
        Shape::Fork { left, data, right } => {
            if goes_left(item, data) {
                lemma_with_ordered(*left, item);
                lemma_with_inorder(*left, item);
            } else if goes_right(item, data) {
                lemma_with_ordered(*right, item);
                lemma_with_inorder(*right, item);
            }
        },
    }
}

/// Under a total order the listing of an ordered tree is non-decreasing.
pub proof fn lemma_ordered_non_decreasing<T: PartialOrd>(tree: Shape<T>)
    requires
        total_order::<T>(),
        tree.ordered(),
    ensures
        non_decreasing(tree.inorder()),
    decreases tree,
{
    match tree {
        Shape::Empty => {},
        Shape::Fork { left, data, right } => {
            lemma_ordered_non_decreasing(*left);
            lemma_ordered_non_decreasing(*right);
            let s = tree.inorder();
            let n = left.inorder().len();
            assert forall|i: int, j: int| 0 <= i < j < s.len() implies goes_left(
                #[trigger] s[i],
                #[trigger] s[j],
            ) by {
                if j < n {
                    assert(s[i] == left.inorder()[i] && s[j] == left.inorder()[j]);
                } else if i > n {
                    assert(s[i] == right.inorder()[i - n - 1]);
                    assert(s[j] == right.inorder()[j - n - 1]);
                } else {
                    if i < n {
                        assert(s[i] == left.inorder()[i]);
                        assert(goes_left(s[i], data));
                    }
                    if j > n {
                        assert(s[j] == right.inorder()[j - n - 1]);
                        assert(goes_right(s[j], data));
                        assert(goes_left(data, s[j]));
                    }
                }
            }
        },
    }
}

/// Whatever is inserted into the empty tree, in whatever order and however
/// often, the tree stays ordered; under a total order its listing is
/// non-decreasing.
pub proof fn lemma_built_ordered<T: PartialOrd>(items: Seq<T>)
    ensures
        Shape::built(items).ordered(),
        total_order::<T>() ==> non_decreasing(Shape::built(items).inorder()),
    decreases items.len(),
{
    if items.len() > 0 {
        lemma_built_ordered(items.drop_last());
        lemma_with_ordered(Shape::built(items.drop_last()), items.last());
    }
    if total_order::<T>() {
        lemma_ordered_non_decreasing(Shape::built(items));
    }
}

/// Under a total order every descent reaches an empty place.
pub proof fn lemma_total_admits<T: PartialOrd>(tree: Shape<T>, item: T)
    requires
        total_order::<T>(),
    ensures
        tree.admits(item),
    decreases tree,
{
    match tree {
        Shape::Empty => {},
        Shape::Fork { left, data, right } => {
            lemma_total_admits(*left, item);
            lemma_total_admits(*right, item);
        },
    }
}

/// Under a total order the rank of `item` in an ordered tree divides the
/// listing: `item` is greater than every element before its rank, and less
/// than or equal to every element from its rank on.
pub proof fn lemma_rank_divides<T: PartialOrd>(tree: Shape<T>, item: T)
    requires
        total_order::<T>(),
        tree.ordered(),
    ensures
        0 <= tree.rank(item) <= tree.inorder().len(),
        forall|i: int| 0 <= i < tree.rank(item) ==> goes_right(item, #[trigger] tree.inorder()[i]),
        forall|i: int|
            tree.rank(item) <= i < tree.inorder().len() ==> goes_left(
                item,
                #[trigger] tree.inorder()[i],
            ),
    decreases tree,
{
    match tree {
        Shape::Empty => {},
        Shape::Fork { left, data, right } => {
            lemma_rank_divides(*left, item);
            lemma_rank_divides(*right, item);
            let s = tree.inorder();
            let n = left.inorder().len();
            let k = tree.rank(item);
            if goes_right(item, data) {
                assert forall|i: int| 0 <= i < k implies goes_right(item, #[trigger] s[i]) by {
                    if i < n {
                        assert(s[i] == left.inorder()[i]);
                        assert(goes_left(s[i], data));
                        if goes_left(item, s[i]) {
                            assert(goes_left(item, data));
                        }
                    } else if i > n {
                        assert(s[i] == right.inorder()[i - n - 1]);
                    }
                }
                assert forall|i: int| k <= i < s.len() implies goes_left(item, #[trigger] s[i]) by {
                    assert(s[i] == right.inorder()[i - n - 1]);
                }
            } else {
                assert(goes_left(item, data));
                assert forall|i: int| 0 <= i < k implies goes_right(item, #[trigger] s[i]) by {
                    assert(s[i] == left.inorder()[i]);
                }
                assert forall|i: int| k <= i < s.len() implies goes_left(item, #[trigger] s[i]) by {
                    if i < n {
                        assert(s[i] == left.inorder()[i]);
                    } else if i > n {
                        assert(s[i] == right.inorder()[i - n - 1]);
                        assert(goes_right(s[i], data));
                        assert(goes_left(data, s[i]));
                    }
                }
            }
        },
    }
}

/// An element that is inserted twice is there twice, and the second copy is
/// the left child of the first: it stands directly before it in the listing.
pub proof fn lemma_inserted_twice<T: PartialOrd>(tree: Shape<T>, item: T)
    requires
        tree.admits(item),
        goes_left(item, item),
    ensures
        tree.with(item).admits(item),
        tree.with(item).rank(item) == tree.rank(item),
        tree.with(item).with(item) == tree.graft(
            item,
            (Shape::Fork {
                left: Box::new(Shape::leaf(item)),
                data: item,
                right: Box::new(Shape::Empty),
            }),
        ),
        tree.with(item).with(item).inorder() == tree.inorder().insert(tree.rank(item), item).insert(
            tree.rank(item),
            item,
        ),
        tree.with(item).with(item).inorder().to_multiset() == tree.inorder().to_multiset().insert(
            item,
        ).insert(item),
    decreases tree,
{
    match tree {
        Shape::Empty => {
            reveal_with_fuel(Shape::graft, 3);
            reveal_with_fuel(Shape::admits, 3);
            reveal_with_fuel(Shape::rank, 3);
        },
        Shape::Fork { left, data, right } => {
            if goes_left(item, data) {
                lemma_inserted_twice(*left, item);
            } else {
                lemma_inserted_twice(*right, item);
            }
        },
    }
    lemma_with_inorder(tree, item);
    lemma_with_inorder(tree.with(item), item);
    to_multiset_insert(tree.inorder(), tree.rank(item), item);
    to_multiset_insert(tree.with(item).inorder(), tree.rank(item), item);
}

} // verus!
