use containers::bst::{BinarySearchTree, TreeNode};

#[test]
fn test_insert_and_search() {
    let mut bst = BinarySearchTree::new();

    assert_eq!(bst.search(1), false);

    bst.insert(5);
    bst.insert(3);
    bst.insert(7);
    bst.insert(2);
    bst.insert(4);

    assert_eq!(bst.search(5), true);
    assert_eq!(bst.search(3), true);
    assert_eq!(bst.search(7), true);
    assert_eq!(bst.search(2), true);
    assert_eq!(bst.search(4), true);

    assert_eq!(bst.search(1), false);
    assert_eq!(bst.search(6), false);
}

#[test]
fn test_insert_duplicate() {
    let mut bst = BinarySearchTree::new();

    bst.insert(1);
    bst.insert(1);

    assert_eq!(bst.search(1), true);

    match bst.root {
        Some(ref node) => {
            assert!(node.left.is_none());
            assert!(node.right.is_none());
        },
        None => panic!("Root should not be None after insertion"),
    }
}

#[test]
fn values_land_where_the_order_puts_them() {
    let mut bst = BinarySearchTree::new();
    assert!(bst.root.is_none());
    for value in [5, 3, 7, 2, 4, 7, 5] {
        bst.insert(value);
    }
    let root = bst.root.as_ref().unwrap();
    assert_eq!(root.value, 5);
    let left = root.left.as_ref().unwrap();
    let right = root.right.as_ref().unwrap();
    assert_eq!(left.value, 3);
    assert_eq!(right.value, 7);
    assert_eq!(left.left.as_ref().unwrap().value, 2);
    assert_eq!(left.right.as_ref().unwrap().value, 4);
    assert!(right.left.is_none());
    assert!(right.right.is_none());
    assert!(left.left.as_ref().unwrap().left.is_none());
    assert!(left.right.as_ref().unwrap().right.is_none());
}

#[test]
fn a_node_takes_values_into_its_subtree() {
    let mut node = TreeNode::new(10);
    assert!(node.left.is_none());
    assert!(node.right.is_none());
    node.insert(10);
    assert!(node.left.is_none());
    assert!(node.right.is_none());
    node.insert(12);
    node.insert(8);
    node.insert(11);
    assert_eq!(node.value, 10);
    assert_eq!(node.left.as_ref().unwrap().value, 8);
    let right = node.right.as_ref().unwrap();
    assert_eq!(right.value, 12);
    assert_eq!(right.left.as_ref().unwrap().value, 11);
    assert!(right.right.is_none());
}

#[test]
fn search_in_a_chain() {
    let mut bst = BinarySearchTree::new();
    for value in 1..=20 {
        bst.insert(value);
    }
    for value in 1..=20 {
        assert!(bst.search(value));
    }
    assert!(!bst.search(0));
    assert!(!bst.search(21));
}
