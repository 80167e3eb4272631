//! An unbalanced binary search tree that holds each value at most once.

use vstd::prelude::*;
use vstd::std_specs::cmp::PartialOrdSpec;
use vstd::std_specs::cmp::PartialOrdIs;
use vstd::std_specs::cmp::PartialEqSpec;
use crate::order::total_order;
use crate::order::exact_equality;
use crate::order::lemma_total_order_decides;
use crate::order::lemma_total_order_trichotomy;

verus! {

/// A node of the tree: a value, the subtree of the smaller values and the
/// subtree of the larger ones.
#[derive(Debug)]
pub struct TreeNode<T> where T: Ord + Clone {
    pub value: T,
    pub left: Option<Box<TreeNode<T>>>,
    pub right: Option<Box<TreeNode<T>>>,
}

/// A binary search tree.
#[derive(Debug)]
pub struct BinarySearchTree<T> where T: Ord + Clone {
    pub root: Option<Box<TreeNode<T>>>,
}

/// The values in a subtree.
pub open spec fn contents<T: Ord + Clone>(tree: Option<Box<TreeNode<T>>>) -> Set<T>
    decreases tree,
{
    match tree {
        None => Set::empty(),
        Some(node) => contents(node.left).union(contents(node.right)).insert(node.value),
    }
}

/// The search-tree order: at every node the values to the left are smaller
/// than the node's and the values to the right are larger.
pub open spec fn ordered<T: Ord + Clone>(tree: Option<Box<TreeNode<T>>>) -> bool
    decreases tree,
{
    match tree {
        None => true,
        Some(node) => {
            &&& ordered(node.left)
            &&& ordered(node.right)
            &&& forall|v: T| #[trigger] contents(node.left).contains(v) ==> v.is_lt(&node.value)
            &&& forall|v: T| #[trigger] contents(node.right).contains(v) ==> node.value.is_lt(&v)
        },
    }
}

/// The subtree with `value` put in: a subtree that holds it already stays as
/// it is; otherwise the value becomes a new leaf, to the right of every
/// smaller value on its way down and to the left of every larger one.
pub open spec fn planted<T: Ord + Clone>(tree: Option<Box<TreeNode<T>>>, value: T) -> Option<
    Box<TreeNode<T>>,
>
    decreases tree,
{
    match tree {
        None => Some(Box::new(TreeNode { value, left: None, right: None })),
        Some(node) => if node.value == value {
            tree
        } else if node.value.is_lt(&value) {
            Some(
                Box::new(
                    TreeNode {
                        value: node.value,
                        left: node.left,
                        right: planted(node.right, value),
                    },
                ),
            )
        } else {
            Some(
                Box::new(
                    TreeNode {
                        value: node.value,
                        left: planted(node.left, value),
                        right: node.right,
                    },
                ),
            )
        },
    }
}

/// Putting a value into a search tree gives a search tree that holds the
/// value besides what it held.
pub proof fn lemma_planted_is_ordered<T: Ord + Clone>(tree: Option<Box<TreeNode<T>>>, value: T)
    requires
        total_order::<T>(),
        exact_equality::<T>(),
        ordered(tree),
    ensures
        ordered(planted(tree, value)),
        contents(planted(tree, value)) == contents(tree).insert(value),
    decreases tree,
{
    if let Some(node) = tree {
        if node.value == value {
        } else if node.value.is_lt(&value) {
            lemma_planted_is_ordered(node.right, value);
        } else {
            // not equal and not smaller: the value is larger than the new one
            lemma_total_order_trichotomy(node.value, value);
            lemma_planted_is_ordered(node.left, value);
        }
    }
}

impl<T: Clone> TreeNode<T> where T: Ord + Clone {
    /// A leaf that holds `value`.
    pub fn new(value: T) -> (node: Self)
        ensures
            node == (TreeNode { value, left: None, right: None }),
    {
        TreeNode { value, left: None, right: None }
    }

    /// Puts `value` into the subtree under this node, unless it is there
    /// already.
    pub fn insert(&mut self, value: T)
        requires
            total_order::<T>(),
            exact_equality::<T>(),
        ensures
            Some(Box::new(*final(self))) == planted(Some(Box::new(*old(self))), value),
        decreases *old(self),
    {
        proof {
            lemma_total_order_decides::<T>();
            lemma_total_order_trichotomy(self.value, value);
        }
        let ghost before = *self;
        if self.value == value {
        } else if self.value < value {
            match self.right.take() {
                None => {
                    self.right = Some(Box::new(TreeNode::new(value)));
                    assert(self.right == planted(before.right, value));
                },
                Some(mut child) => {
                    child.insert(value);
                    self.right = Some(child);
                },
            }
        } else {
            match self.left.take() {
                None => {
                    self.left = Some(Box::new(TreeNode::new(value)));
                    assert(self.left == planted(before.left, value));
                },
                Some(mut child) => {
                    child.insert(value);
                    self.left = Some(child);
                },
            }
        }
    }
}

impl<T: Clone> View for BinarySearchTree<T> where T: Ord + Clone {
    type V = Set<T>;

    /// The values in the tree.
    open spec fn view(&self) -> Set<T> {
        contents(self.root)
    }
}

impl<T: Clone> BinarySearchTree<T> where T: Ord + Clone {
    /// The tree is well formed: it is in search-tree order.
    pub open spec fn wf(&self) -> bool {
        ordered(self.root)
    }

    /// An empty tree.
    pub fn new() -> (tree: Self)
        ensures
            tree.root is None,
            tree.wf(),
            tree@ == Set::<T>::empty(),
    {
        BinarySearchTree { root: None }
    }

    /// Puts `value` into the tree, unless it is there already.
    pub fn insert(&mut self, value: T)
        requires
            total_order::<T>(),
            exact_equality::<T>(),
            old(self).wf(),
        ensures
            final(self).wf(),
            final(self).root == planted(old(self).root, value),
            final(self)@ == old(self)@.insert(value),
    {
        proof {
            lemma_planted_is_ordered(self.root, value);
        }
        match self.root.take() {
            None => {
                self.root = Some(Box::new(TreeNode::new(value)));
            },
            Some(mut node) => {
                node.insert(value);
                self.root = Some(node);
            },
        }
    }

    /// Whether `value` is in the tree.
    pub fn search(&self, value: T) -> (found: bool)
        requires
            total_order::<T>(),
            exact_equality::<T>(),
            self.wf(),
        ensures
            found == self@.contains(value),
    {
        proof {
            lemma_total_order_decides::<T>();
        }
        let mut cur_node_opt = &self.root;
        let mut found = false;
        loop
            invariant_except_break
                !found,
            invariant
                total_order::<T>(),
                exact_equality::<T>(),
                T::obeys_eq_spec(),
                T::obeys_partial_cmp_spec(),
                ordered(*cur_node_opt),
                contents(self.root).contains(value) == contents(*cur_node_opt).contains(value),
            ensures
                found == contents(self.root).contains(value),
            decreases *cur_node_opt,
        {
            match cur_node_opt {
                None => {
                    break ;
                },
                Some(node) => {
                    proof {
                        // Of the two subtrees only the one on the value's
                        // side of this node can hold it.
                        lemma_total_order_trichotomy(node.value, value);
                        assert(contents(node.left).contains(value) ==> value.is_lt(&node.value));
                        assert(contents(node.right).contains(value) ==> node.value.is_lt(&value));
                    }
                    if node.value == value {
                        found = true;
                        break ;
                    } else if node.value < value {
                        cur_node_opt = &node.right;
                    } else {
                        cur_node_opt = &node.left;
                    }
                },
            }
        }
        found
    }
}

} // verus!
