use trees::tree::{Node, BST};

#[derive(Debug, Clone, Copy, PartialEq)]
struct Divides(u32);

impl PartialOrd for Divides {
    fn partial_cmp(&self, other: &Self) -> Option<std::cmp::Ordering> {
        if self.0 == other.0 {
            Some(std::cmp::Ordering::Equal)
        } else if other.0 % self.0 == 0 {
            Some(std::cmp::Ordering::Less)
        } else if self.0 % other.0 == 0 {
            Some(std::cmp::Ordering::Greater)
        } else {
            None
        }
    }
}

fn listing<T: PartialOrd + Copy>(tree: &BST<T>) -> Vec<T> {
    tree.inorder().iter().map(|i| **i).collect::<Vec<_>>()
}

#[test]
fn tree_it_works() {
    let mut tree = BST::new();
    tree.insert(5);
    tree.insert(1);
    tree.insert(6);
    tree.insert(3);
    let v = tree.inorder().iter().map(|i| **i).collect::<Vec<_>>();
    assert_eq!(vec![1, 3, 5, 6], v)
}

#[test]
fn empty_tree_has_no_root_and_no_elements() {
    let tree = BST::<i32>::new();
    assert_eq!(None, tree.root());
    assert!(tree.inorder().is_empty());
}

#[test]
fn default_tree_is_empty() {
    let tree: BST<u8> = Default::default();
    assert_eq!(None, tree.root());
    assert_eq!(0, tree.inorder().len());
}

#[test]
fn first_element_becomes_and_stays_the_root() {
    let mut tree = BST::new();
    tree.insert(5);
    assert_eq!(Some(&5), tree.root());
    tree.insert(1);
    tree.insert(9);
    assert_eq!(Some(&5), tree.root());
}

#[test]
fn listing_is_non_decreasing() {
    let items = [41u64, 7, 19, 88, 3, 19, 64, 0, 7, 100, 55, 41, 2];
    let mut tree = BST::new();
    for (n, item) in items.iter().enumerate() {
        tree.insert(*item);
        let seen = listing(&tree);
        assert_eq!(n + 1, seen.len());
        assert!(seen.windows(2).all(|w| w[0] <= w[1]));
    }
    let mut sorted = items.to_vec();
    sorted.sort();
    assert_eq!(sorted, listing(&tree));
}

#[test]
fn ascending_and_descending_insertions() {
    let mut up = BST::new();
    let mut down = BST::new();
    for i in 0..50 {
        up.insert(i);
        down.insert(49 - i);
    }
    let expected: Vec<i32> = (0..50).collect();
    assert_eq!(expected, listing(&up));
    assert_eq!(expected, listing(&down));
    assert_eq!(Some(&0), up.root());
    assert_eq!(Some(&49), down.root());
}

#[test]
fn duplicates_are_kept() {
    let mut tree = BST::new();
    tree.insert(5);
    tree.insert(3);
    tree.insert(3);
    tree.insert(4);
    assert_eq!(vec![3, 3, 4, 5], listing(&tree));
    tree.insert(5);
    assert_eq!(vec![3, 3, 4, 5, 5], listing(&tree));
    assert_eq!(Some(&5), tree.root());
}

#[test]
fn second_copy_stands_directly_before_the_first() {
    let mut tagged: BST<Tagged> = BST::new();
    tagged.insert(Tagged(2, 'a'));
    tagged.insert(Tagged(1, 'b'));
    tagged.insert(Tagged(3, 'c'));
    tagged.insert(Tagged(2, 'd'));
    tagged.insert(Tagged(2, 'e'));
    let tags: Vec<char> = tagged.inorder().iter().map(|t| t.1).collect();
    assert_eq!(vec!['b', 'e', 'd', 'a', 'c'], tags);
    assert_eq!('a', tagged.root().unwrap().1);
}

#[derive(Debug, Clone, Copy)]
struct Tagged(u32, char);

impl PartialEq for Tagged {
    fn eq(&self, other: &Self) -> bool {
        self.0 == other.0
    }
}

impl PartialOrd for Tagged {
    fn partial_cmp(&self, other: &Self) -> Option<std::cmp::Ordering> {
        self.0.partial_cmp(&other.0)
    }
}

#[test]
fn incomparable_element_is_dropped() {
    let mut tree = BST::new();
    tree.insert(1.0f64);
    tree.insert(f64::NAN);
    tree.insert(2.0);
    tree.insert(0.5);
    assert_eq!(vec![0.5, 1.0, 2.0], listing(&tree));
}

#[test]
fn incomparable_root_takes_nothing_more() {
    let mut tree = BST::new();
    tree.insert(f64::NAN);
    tree.insert(1.0);
    tree.insert(2.0);
    let seen = listing(&tree);
    assert_eq!(1, seen.len());
    assert!(seen[0].is_nan());
    assert!(tree.root().unwrap().is_nan());
}

#[test]
fn partial_order_drops_at_the_first_incomparable_pair() {
    let mut tree = BST::new();
    tree.insert(Divides(12));
    // 4 divides 12: left of 12.
    tree.insert(Divides(4));
    // 24 is a multiple of 12: right of 12.
    tree.insert(Divides(24));
    // 5 and 12 are incomparable: dropped at the root.
    tree.insert(Divides(5));
    // 6 divides 12, but 6 and 4 are incomparable: dropped below the root.
    tree.insert(Divides(6));
    // 2 divides 12 and 4: left of 4.
    tree.insert(Divides(2));
    assert_eq!(vec![Divides(2), Divides(4), Divides(12), Divides(24)], listing(&tree));
}

#[test]
fn node_insert_says_whether_the_element_found_a_place() {
    let mut node = Node::new(Divides(12));
    assert_eq!(Some(()), node.insert(Divides(4)));
    assert_eq!(Some(()), node.insert(Divides(12)));
    assert_eq!(Some(()), node.insert(Divides(36)));
    assert_eq!(None, node.insert(Divides(5)));
    assert_eq!(None, node.insert(Divides(6)));
    assert_eq!(Some(()), node.insert(Divides(2)));
}

#[test]
fn node_insert_on_floats() {
    let mut node = Node::new(1.5f32);
    assert_eq!(Some(()), node.insert(1.0));
    assert_eq!(None, node.insert(f32::NAN));
    assert_eq!(Some(()), node.insert(2.0));
}

#[test]
fn borrowed_elements_point_into_the_tree() {
    let mut tree = BST::new();
    tree.insert(String::from("pear"));
    tree.insert(String::from("apple"));
    tree.insert(String::from("quince"));
    let seen: Vec<&str> = tree.inorder().iter().map(|s| s.as_str()).collect();
    assert_eq!(vec!["apple", "pear", "quince"], seen);
    assert_eq!(Some("pear"), tree.root().map(|s| s.as_str()));
}
