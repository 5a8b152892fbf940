//! Binary tree nodes and selection of the k-th largest value.
//!
//! A tree is a `TreeNode` owning optional children; `kth_largest` walks it
//! right-to-left (reverse in-order), so a binary search tree is visited in
//! strictly descending value order, and the k-th visited value is returned.

use vstd::prelude::*;

verus! {

/// One node of a binary tree. Each parent exclusively owns its children, so
/// the structure is acyclic by construction; the whole tree is read-only to
/// the selection routine.
#[derive(Debug, PartialEq, Eq)]
pub struct TreeNode {
    pub val: i32,
    pub left: Option<Box<TreeNode>>,
    pub right: Option<Box<TreeNode>>,
}

/// Failure of a selection request.
#[derive(Debug, Clone, Copy, PartialEq, Eq, Structural)]
pub enum SelectError {
    /// The requested rank is below 1 or above the number of nodes.
    OutOfRange,
}

/// The values of an optional subtree, in symmetric (in-order) left-to-right
/// order: ascending for a binary search tree.
pub open spec fn opt_in_order(o: Option<Box<TreeNode>>) -> Seq<i32>
    decreases o,
{
    match o {
        None => Seq::empty(),
        Some(n) => n.in_order(),
    }
}

/// The values of an optional subtree in reverse in-order, right-to-left:
/// descending for a binary search tree.
pub open spec fn opt_rev_in_order(o: Option<Box<TreeNode>>) -> Seq<i32>
    decreases o,
{
    match o {
        None => Seq::empty(),
        Some(n) => n.rev_in_order(),
    }
}

impl TreeNode {
    /// All values of the tree in in-order: left subtree, node, right subtree.
    pub open spec fn in_order(self) -> Seq<i32>
        decreases self,
    {
        opt_in_order(self.left) + seq![self.val] + opt_in_order(self.right)
    }

    /// All values of the tree in reverse in-order: right subtree, node, left
    /// subtree. This is the visitation order of the selection walk.
    pub open spec fn rev_in_order(self) -> Seq<i32>
        decreases self,
    {
        opt_rev_in_order(self.right) + seq![self.val] + opt_rev_in_order(self.left)
    }

    /// Number of nodes in the tree.
    pub open spec fn count(self) -> nat {
        self.in_order().len()
    }

    /// The binary-search-tree ordering invariant: every value in the left
    /// subtree is less than the node's value, every value in the right
    /// subtree is greater, recursively. Selection does not require it, but
    /// only under it does the result mean "k-th largest".
    pub open spec fn is_bst(self) -> bool
        decreases self,
    {
        &&& (forall|i: int|
            0 <= i < opt_in_order(self.left).len() ==> opt_in_order(self.left)[i] < self.val)
        &&& (forall|i: int|
            0 <= i < opt_in_order(self.right).len() ==> opt_in_order(self.right)[i] > self.val)
        &&& (match self.left {
            Some(l) => l.is_bst(),
            None => true,
        })
        &&& (match self.right {
            Some(r) => r.is_bst(),
            None => true,
        })
    }

    /// A leaf node holding `val`, with no children.
    #[inline]
    pub fn new(val: i32) -> (node: TreeNode)
        ensures
            node.val == val,
            node.left is None,
            node.right is None,
            node.in_order() == seq![val],
            node.count() == 1,
            node.is_bst(),
    {
        let node = TreeNode { val, left: None, right: None };
        proof {
            assert(node.in_order() =~= seq![val]);
        }
        node
    }
}

/// What selection returns: for a rank `k` between 1 and the node count, the
/// value at position `count - k` of the in-order sequence (the k-th from its
/// right end); for any other rank, `OutOfRange`.
pub open spec fn kth_largest_spec(t: TreeNode, k: usize) -> Result<i32, SelectError> {
    if 1 <= k && k <= t.count() {
        Ok(t.in_order()[t.count() - k])
    } else {
        Err(SelectError::OutOfRange)
    }
}

/// The reverse in-order sequence is the in-order sequence read backwards.
pub proof fn lemma_rev_in_order_is_reversed(t: TreeNode)
    ensures
        t.rev_in_order().len() == t.in_order().len(),
        forall|i: int|
            0 <= i < t.rev_in_order().len()
                ==> t.rev_in_order()[i] == t.in_order()[t.in_order().len() - 1 - i],
    decreases t,
{
    lemma_opt_rev_in_order_is_reversed(t.left);
    lemma_opt_rev_in_order_is_reversed(t.right);
}

proof fn lemma_opt_rev_in_order_is_reversed(o: Option<Box<TreeNode>>)
    ensures
        opt_rev_in_order(o).len() == opt_in_order(o).len(),
        forall|i: int|
            0 <= i < opt_rev_in_order(o).len()
                ==> opt_rev_in_order(o)[i] == opt_in_order(o)[opt_in_order(o).len() - 1 - i],
    decreases o,
{
    match o {
        None => {},
        Some(n) => {
            lemma_rev_in_order_is_reversed(*n);
        },
    }
}

/// Appends the values of `node` to `values` in reverse in-order: right
/// subtree first, then the node, then the left subtree.
fn push_rev_in_order(node: &TreeNode, values: &mut Vec<i32>)
    ensures
        final(values)@ == old(values)@ + node.rev_in_order(),
    decreases *node,
{
    match &node.right {
        Some(r) => push_rev_in_order(r, values),
        None => {},
    }
    values.push(node.val);
    match &node.left {
        Some(l) => push_rev_in_order(l, values),
        None => {},
    }
    proof {
        assert(values@ =~= old(values)@ + node.rev_in_order());
    }
}

/// The k-th largest value of a binary search tree, 1-indexed: rank 1 is the
/// maximum. The tree is walked in reverse in-order, which visits a binary
/// search tree in descending value order, and the k-th visited value is
/// returned. A rank of 0 or one past the node count is reported as
/// `OutOfRange` rather than read out of bounds. The tree is never mutated,
/// and the result is a function of the tree and the rank alone.
pub fn kth_largest(root: &TreeNode, k: usize) -> (r: Result<i32, SelectError>)
    ensures
        r == kth_largest_spec(*root, k),
{
    let mut values: Vec<i32> = Vec::new();
    push_rev_in_order(root, &mut values);
    proof {
        lemma_rev_in_order_is_reversed(*root);
    }
    if 1 <= k && k <= values.len() {
        Ok(values[k - 1])
    } else {
        Err(SelectError::OutOfRange)
    }
}

/// In a tree with the binary-search-tree ordering invariant, the in-order
/// sequence is strictly ascending: it is the tree's values sorted. Selection
/// at rank `k` therefore returns the element at position `count - k` of the
/// ascending sorted order of the tree's values.
pub proof fn lemma_bst_in_order_sorted(t: TreeNode)
    requires
        t.is_bst(),
    ensures
        forall|i: int, j: int|
            0 <= i < j < t.in_order().len() ==> t.in_order()[i] < t.in_order()[j],
    decreases t,
{
    let sl = opt_in_order(t.left);
    let sr = opt_in_order(t.right);
    let s = t.in_order();
    let nl = sl.len() as int;
    match t.left {
        Some(l) => {
            lemma_bst_in_order_sorted(*l);
            assert(sl == l.in_order());
            assert(forall|i: int, j: int|
                0 <= i < j < sl.len() ==> #[trigger] sl[i] < #[trigger] sl[j]);
        },
        None => {},
    }
    match t.right {
        Some(r) => {
            lemma_bst_in_order_sorted(*r);
            assert(sr == r.in_order());
            assert(forall|i: int, j: int|
                0 <= i < j < sr.len() ==> #[trigger] sr[i] < #[trigger] sr[j]);
        },
        None => {},
    }
    assert forall|i: int, j: int| 0 <= i < j < s.len() implies s[i] < s[j] by {
        if i < nl {
            assert(s[i] == sl[i]);
            assert(sl[i] < t.val);
        } else if i == nl {
            assert(s[i] == t.val);
        } else {
            assert(s[i] == sr[i - nl - 1]);
            assert(sr[i - nl - 1] > t.val);
        }
        if j < nl {
            assert(s[j] == sl[j]);
            assert(sl[j] < t.val);
        } else if j == nl {
            assert(s[j] == t.val);
        } else {
            assert(s[j] == sr[j - nl - 1]);
            assert(sr[j - nl - 1] > t.val);
        }
    }
}

/// Rank 1 selects the maximum: in a value-ordered tree every value is at
/// most the last element of the in-order sequence, and that element is what
/// selection at rank 1 returns.
pub proof fn lemma_rank_one_is_max(t: TreeNode)
    requires
        t.is_bst(),
    ensures
        forall|i: int|
            0 <= i < t.count() ==> #[trigger] t.in_order()[i] <= t.in_order()[t.count() - 1],
        kth_largest_spec(t, 1) == Ok::<i32, SelectError>(t.in_order()[t.count() - 1]),
{
    lemma_bst_in_order_sorted(t);
}

/// The last rank selects the minimum: in a value-ordered tree every value is
/// at least the first element of the in-order sequence, and that element is
/// what selection at rank `count` returns.
pub proof fn lemma_rank_count_is_min(t: TreeNode, n: usize)
    requires
        t.is_bst(),
        n == t.count(),
    ensures
        forall|i: int| 0 <= i < t.count() ==> t.in_order()[0] <= #[trigger] t.in_order()[i],
        kth_largest_spec(t, n) == Ok::<i32, SelectError>(t.in_order()[0]),
{
    lemma_bst_in_order_sorted(t);
}

/// Repeating a selection changes nothing: the result is determined by the
/// tree and the rank alone, so two calls on the same arguments agree.
pub proof fn lemma_kth_largest_idempotent(
    t: TreeNode,
    k: usize,
    r1: Result<i32, SelectError>,
    r2: Result<i32, SelectError>,
)
    requires
        r1 == kth_largest_spec(t, k),
        r2 == kth_largest_spec(t, k),
    ensures
        r1 == r2,
{
}

} // verus!

