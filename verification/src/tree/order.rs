//! The comparison that routes an element through an ordered tree, and what it
//! means for that comparison to be a total order.

use vstd::prelude::*;
use vstd::std_specs::cmp::PartialOrdIs;

verus! {

/// `item` compares `Less` or `Equal` to `at`: an insertion of `item` that
/// meets `at` goes on to the left.
pub open spec fn goes_left<T: PartialOrd>(item: T, at: T) -> bool {
    item.is_le(&at)
}

/// `item` compares `Greater` to `at`: an insertion of `item` that meets `at`
/// goes on to the right.
pub open spec fn goes_right<T: PartialOrd>(item: T, at: T) -> bool {
    item.is_gt(&at)
}

/// The comparison of `T` is a total order: any two values are comparable,
/// what is greater one way round is not greater the other way round, and
/// "less or equal" is transitive.
pub open spec fn total_order<T: PartialOrd>() -> bool {
    &&& forall|a: T, b: T|
        #![trigger goes_left(a, b)]
        #![trigger goes_right(a, b)]
        goes_left(a, b) || goes_right(a, b)
    &&& forall|a: T, b: T| #[trigger] goes_right(a, b) ==> goes_left(b, a)
    &&& forall|a: T, b: T, c: T| #[trigger]
        goes_left(a, b) && #[trigger] goes_left(b, c) ==> goes_left(a, c)
}

/// No element of `s` is greater than one that comes after it.
pub open spec fn non_decreasing<T: PartialOrd>(s: Seq<T>) -> bool {
    forall|i: int, j: int| 0 <= i < j < s.len() ==> goes_left(#[trigger] s[i], #[trigger] s[j])
}

} // verus!
