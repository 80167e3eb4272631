//! Classic containers with verified contracts: a binary heap over a
//! pluggable ordering policy, an ordered merge of linked lists, a binary
//! search tree, and a stack built from two queues.

pub mod order;
pub mod tree;
pub mod heap;
pub mod queue;
pub mod linked_list;
pub mod bst;
