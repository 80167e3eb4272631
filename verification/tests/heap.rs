use containers::heap::{Heap, MaxFirst, MaxHeap, MinFirst, MinHeap, Priority};

#[test]
fn test_empty_heap() {
    let mut heap = MaxHeap::new::<i32>();
    assert_eq!(heap.next(), None);
}

#[test]
fn test_min_heap() {
    let mut heap = MinHeap::new();
    heap.add(4);
    heap.add(2);
    heap.add(9);
    heap.add(11);
    assert_eq!(heap.len(), 4);
    assert_eq!(heap.next(), Some(2));
    assert_eq!(heap.next(), Some(4));
    assert_eq!(heap.next(), Some(9));
    heap.add(1);
    assert_eq!(heap.next(), Some(1));
}

#[test]
fn test_max_heap() {
    let mut heap = MaxHeap::new();
    heap.add(4);
    heap.add(2);
    heap.add(9);
    heap.add(11);
    assert_eq!(heap.len(), 4);
    assert_eq!(heap.next(), Some(11));
    assert_eq!(heap.next(), Some(9));
    assert_eq!(heap.next(), Some(4));
    heap.add(1);
    assert_eq!(heap.next(), Some(2));
}

#[test]
fn min_heap_drains_in_ascending_order() {
    let mut heap = MinHeap::new();
    heap.add(4);
    heap.add(2);
    heap.add(9);
    heap.add(11);
    assert_eq!(heap.len(), 4);
    assert_eq!(heap.next(), Some(2));
    assert_eq!(heap.next(), Some(4));
    assert_eq!(heap.next(), Some(9));
    assert_eq!(heap.next(), Some(11));
    assert_eq!(heap.next(), None);
    assert_eq!(heap.len(), 0);
}

#[test]
fn max_heap_keeps_a_late_small_value_below() {
    let mut heap = MaxHeap::new();
    heap.add(4);
    heap.add(2);
    heap.add(9);
    heap.add(11);
    assert_eq!(heap.next(), Some(11));
    assert_eq!(heap.next(), Some(9));
    heap.add(1);
    assert_eq!(heap.next(), Some(4));
    assert_eq!(heap.next(), Some(2));
    assert_eq!(heap.next(), Some(1));
    assert_eq!(heap.next(), None);
}

#[test]
fn single_element_comes_out_and_leaves_the_heap_empty() {
    let mut heap = MinHeap::new();
    assert!(heap.is_empty());
    heap.add(5);
    assert!(!heap.is_empty());
    assert_eq!(heap.len(), 1);
    assert_eq!(heap.next(), Some(5));
    assert_eq!(heap.next(), None);
    assert!(heap.is_empty());
}

#[test]
fn duplicates_all_come_out() {
    let mut heap = MinHeap::new();
    heap.add(3);
    heap.add(3);
    heap.add(3);
    assert_eq!(heap.next(), Some(3));
    assert_eq!(heap.len(), 2);
    assert_eq!(heap.next(), Some(3));
    assert_eq!(heap.len(), 1);
    assert_eq!(heap.next(), Some(3));
    assert_eq!(heap.len(), 0);
    assert_eq!(heap.next(), None);
}

#[test]
fn empty_after_draining_stays_empty() {
    let mut heap = MaxHeap::new::<u8>();
    heap.add(1);
    heap.add(2);
    assert_eq!(heap.next(), Some(2));
    assert_eq!(heap.next(), Some(1));
    assert_eq!(heap.next(), None);
    assert_eq!(heap.next(), None);
    assert_eq!(heap.len(), 0);
}

#[test]
fn len_counts_adds_minus_takes() {
    let mut heap = MinHeap::new();
    let mut expected = 0usize;
    for value in [7, 1, 8, 2, 8, 1, 8] {
        heap.add(value);
        expected += 1;
        assert_eq!(heap.len(), expected);
    }
    while heap.next().is_some() {
        expected -= 1;
        assert_eq!(heap.len(), expected);
    }
    assert_eq!(expected, 0);
    assert_eq!(heap.next(), None);
    assert_eq!(heap.len(), 0);
}

#[test]
fn new_min_and_new_max_are_the_two_presets() {
    let mut low: Heap<i64, MinFirst> = Heap::new_min();
    let mut high: Heap<i64, MaxFirst> = Heap::new_max();
    for value in [5, -3, 12, 0] {
        low.add(value);
        high.add(value);
    }
    assert_eq!(low.drain(), vec![-3, 0, 5, 12]);
    assert_eq!(high.drain(), vec![12, 5, 0, -3]);
    assert!(low.is_empty());
    assert!(high.is_empty());
}

#[test]
fn drain_is_sorted_and_keeps_every_element() {
    let input = [31, 41, 59, 26, 53, 58, 97, 93, 23, 84, 62, 64, 33, 83, 27, 95];
    let mut heap = MinHeap::new();
    for value in input {
        heap.add(value);
    }
    let out = heap.drain();
    let mut expected = input.to_vec();
    expected.sort();
    assert_eq!(out, expected);
    assert_eq!(heap.len(), 0);
    assert_eq!(heap.drain(), Vec::<i32>::new());
}

#[test]
fn a_function_is_a_policy() {
    // order pairs by their first part only
    let mut heap = Heap::new(|a: &(u32, char), b: &(u32, char)| a.0 < b.0);
    heap.add((2, 'b'));
    heap.add((1, 'a'));
    heap.add((3, 'c'));
    assert_eq!(heap.len(), 3);
    assert_eq!(heap.next(), Some((1, 'a')));
    assert_eq!(heap.next(), Some((2, 'b')));
    assert_eq!(heap.next(), Some((3, 'c')));
    assert_eq!(heap.next(), None);
}

#[test]
fn a_tie_between_children_goes_to_the_left_one() {
    // All three have the same priority. After the root leaves, the last
    // element moves up and stays there: neither child outranks it.
    let mut heap = Heap::new(|a: &(u32, char), b: &(u32, char)| a.0 < b.0);
    heap.add((1, 'x'));
    heap.add((1, 'y'));
    heap.add((1, 'z'));
    assert_eq!(heap.next(), Some((1, 'x')));
    assert_eq!(heap.next(), Some((1, 'z')));
    assert_eq!(heap.next(), Some((1, 'y')));

    // The root leaves, (5, 'e') moves up; both children outrank it and tie
    // with each other, so the left one, (2, 'l'), moves up.
    let mut heap = Heap::new(|a: &(u32, char), b: &(u32, char)| a.0 < b.0);
    heap.add((1, 'r'));
    heap.add((2, 'l'));
    heap.add((2, 'm'));
    heap.add((5, 'e'));
    assert_eq!(heap.next(), Some((1, 'r')));
    assert_eq!(heap.next(), Some((2, 'l')));
    assert_eq!(heap.next(), Some((2, 'm')));
    assert_eq!(heap.next(), Some((5, 'e')));
}

#[test]
fn policies_answer_as_their_order_says() {
    assert!(MinFirst.outranks(&1, &2));
    assert!(!MinFirst.outranks(&2, &2));
    assert!(!MinFirst.outranks(&3, &2));
    assert!(MaxFirst.outranks(&3, &2));
    assert!(!MaxFirst.outranks(&2, &2));
    assert!(!MaxFirst.outranks(&1, &2));
    let by_length = |a: &&str, b: &&str| a.len() > b.len();
    assert!(by_length.outranks(&"longer", &"short"));
    assert!(!by_length.outranks(&"short", &"longer"));
}

#[test]
fn heap_of_strings() {
    let mut heap = MinHeap::new();
    heap.add(String::from("pear"));
    heap.add(String::from("apple"));
    heap.add(String::from("fig"));
    assert_eq!(heap.next(), Some(String::from("apple")));
    assert_eq!(heap.next(), Some(String::from("fig")));
    assert_eq!(heap.next(), Some(String::from("pear")));
    assert_eq!(heap.next(), None);
}
