use bst_select::bst::{kth_largest, SelectError, TreeNode};

fn leaf(val: i32) -> Option<Box<TreeNode>> {
    Some(Box::new(TreeNode::new(val)))
}

fn branch(
    val: i32,
    left: Option<Box<TreeNode>>,
    right: Option<Box<TreeNode>>,
) -> Option<Box<TreeNode>> {
    Some(Box::new(TreeNode { val, left, right }))
}

/// The tree obtained by inserting 5, 3, 8, 1, 4, 7, 9 in that order into an
/// empty binary search tree; its values sorted ascending are [1,3,4,5,7,8,9].
fn sample_tree() -> TreeNode {
    TreeNode { val: 5, left: branch(3, leaf(1), leaf(4)), right: branch(8, leaf(7), leaf(9)) }
}

#[test]
fn new_makes_a_leaf() {
    let node = TreeNode::new(42);
    assert_eq!(node.val, 42);
    assert!(node.left.is_none());
    assert!(node.right.is_none());
}

#[test]
fn sample_tree_selections() {
    let t = sample_tree();
    assert_eq!(kth_largest(&t, 1), Ok(9));
    assert_eq!(kth_largest(&t, 3), Ok(7));
    assert_eq!(kth_largest(&t, 7), Ok(1));
}

#[test]
fn every_rank_matches_sorted_order() {
    let t = sample_tree();
    let sorted = vec![1, 3, 4, 5, 7, 8, 9];
    let n = sorted.len();
    for k in 1..=n {
        assert_eq!(kth_largest(&t, k), Ok(sorted[n - k]));
    }
}

#[test]
fn rank_one_is_maximum() {
    let t = sample_tree();
    assert_eq!(kth_largest(&t, 1), Ok(9));
}

#[test]
fn rank_count_is_minimum() {
    let t = sample_tree();
    assert_eq!(kth_largest(&t, 7), Ok(1));
}

#[test]
fn rank_zero_is_out_of_range() {
    let t = sample_tree();
    assert_eq!(kth_largest(&t, 0), Err(SelectError::OutOfRange));
}

#[test]
fn rank_past_count_is_out_of_range() {
    let t = sample_tree();
    assert_eq!(kth_largest(&t, 8), Err(SelectError::OutOfRange));
    assert_eq!(kth_largest(&t, usize::MAX), Err(SelectError::OutOfRange));
}

#[test]
fn single_node_tree() {
    let t = TreeNode::new(42);
    assert_eq!(kth_largest(&t, 1), Ok(42));
    assert_eq!(kth_largest(&t, 2), Err(SelectError::OutOfRange));
}

#[test]
fn repeated_calls_return_the_same_value() {
    let t = sample_tree();
    for k in 0..9 {
        let first = kth_largest(&t, k);
        let second = kth_largest(&t, k);
        assert_eq!(first, second);
    }
}

#[test]
fn left_chain_tree() {
    // 30 -> 20 -> 10, each node hanging off the left of its parent.
    let t = TreeNode { val: 30, left: branch(20, leaf(10), None), right: None };
    assert_eq!(kth_largest(&t, 1), Ok(30));
    assert_eq!(kth_largest(&t, 2), Ok(20));
    assert_eq!(kth_largest(&t, 3), Ok(10));
    assert_eq!(kth_largest(&t, 4), Err(SelectError::OutOfRange));
}

#[test]
fn right_chain_tree() {
    // 10 -> 20 -> 30, each node hanging off the right of its parent.
    let t = TreeNode { val: 10, left: None, right: branch(20, None, leaf(30)) };
    assert_eq!(kth_largest(&t, 1), Ok(30));
    assert_eq!(kth_largest(&t, 2), Ok(20));
    assert_eq!(kth_largest(&t, 3), Ok(10));
    assert_eq!(kth_largest(&t, 0), Err(SelectError::OutOfRange));
}

#[test]
fn negative_values_are_ordered_too() {
    let t = TreeNode { val: -3, left: leaf(-10), right: leaf(5) };
    assert_eq!(kth_largest(&t, 1), Ok(5));
    assert_eq!(kth_largest(&t, 2), Ok(-3));
    assert_eq!(kth_largest(&t, 3), Ok(-10));
}
