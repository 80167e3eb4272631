use containers::linked_list::LinkedList;
use std::fmt::Display;

fn show<T: Display + PartialOrd + Clone>(list: &LinkedList<T>) -> String {
    let mut parts = Vec::new();
    let mut index = 0;
    while let Some(value) = list.get(index) {
        parts.push(format!("{}", value));
        index += 1;
    }
    parts.join(", ")
}

#[test]
fn create_numeric_list() {
    let mut list = LinkedList::<i32>::new();
    list.add(1);
    list.add(2);
    list.add(3);
    println!("Linked List is {}", show(&list));
    assert_eq!(3, list.length);
}

#[test]
fn create_string_list() {
    let mut list_str = LinkedList::<String>::new();
    list_str.add("A".to_string());
    list_str.add("B".to_string());
    list_str.add("C".to_string());
    println!("Linked List is {}", show(&list_str));
    assert_eq!(3, list_str.length);
}

#[test]
fn test_merge_linked_list_1() {
    let mut list_a = LinkedList::<i32>::new();
    let mut list_b = LinkedList::<i32>::new();
    let vec_a = vec![1, 3, 5, 7];
    let vec_b = vec![2, 4, 6, 8];
    let target_vec = vec![1, 2, 3, 4, 5, 6, 7, 8];

    for i in 0..vec_a.len() {
        list_a.add(vec_a[i]);
    }
    for i in 0..vec_b.len() {
        list_b.add(vec_b[i]);
    }
    println!("list a {} list b {}", show(&list_a), show(&list_b));
    let list_c = LinkedList::<i32>::merge(list_a, list_b);
    println!("merged List is {}", show(&list_c));
    for i in 0..target_vec.len() {
        assert_eq!(target_vec[i], *list_c.get(i as i32).unwrap());
    }
}

#[test]
fn test_merge_linked_list_2() {
    let mut list_a = LinkedList::<i32>::new();
    let mut list_b = LinkedList::<i32>::new();
    let vec_a = vec![11, 33, 44, 88, 89, 90, 100];
    let vec_b = vec![1, 22, 30, 45];
    let target_vec = vec![1, 11, 22, 30, 33, 44, 45, 88, 89, 90, 100];

    for i in 0..vec_a.len() {
        list_a.add(vec_a[i]);
    }
    for i in 0..vec_b.len() {
        list_b.add(vec_b[i]);
    }
    println!("list a {} list b {}", show(&list_a), show(&list_b));
    let list_c = LinkedList::<i32>::merge(list_a, list_b);
    println!("merged List is {}", show(&list_c));
    for i in 0..target_vec.len() {
        assert_eq!(target_vec[i], *list_c.get(i as i32).unwrap());
    }
}

fn list_of(values: &[i32]) -> LinkedList<i32> {
    let mut list = LinkedList::new();
    for value in values {
        list.add(*value);
    }
    list
}

fn values_of(list: &LinkedList<i32>) -> Vec<i32> {
    let mut out = Vec::new();
    let mut index = 0;
    while let Some(value) = list.get(index) {
        out.push(*value);
        index += 1;
    }
    out
}

#[test]
fn get_outside_the_list_is_none() {
    let list = list_of(&[10, 20, 30]);
    assert_eq!(list.get(0), Some(&10));
    assert_eq!(list.get(2), Some(&30));
    assert_eq!(list.get(3), None);
    assert_eq!(list.get(-1), None);
    assert_eq!(list.get(i32::MIN), None);
    assert_eq!(list.get(i32::MAX), None);
    let empty = LinkedList::<i32>::default();
    assert_eq!(empty.length, 0);
    assert_eq!(empty.get(0), None);
}

#[test]
fn merge_with_an_empty_list_gives_the_other() {
    let merged = LinkedList::merge(list_of(&[]), list_of(&[4, 5]));
    assert_eq!(values_of(&merged), vec![4, 5]);
    assert_eq!(merged.length, 2);
    let merged = LinkedList::merge(list_of(&[4, 5]), list_of(&[]));
    assert_eq!(values_of(&merged), vec![4, 5]);
    assert_eq!(merged.length, 2);
    let merged = LinkedList::merge(list_of(&[]), list_of(&[]));
    assert_eq!(values_of(&merged), Vec::<i32>::new());
    assert_eq!(merged.length, 0);
}

#[test]
fn merge_counts_and_keeps_duplicates() {
    let merged = LinkedList::merge(list_of(&[1, 2, 2, 9]), list_of(&[2, 3, 9, 9, 10]));
    assert_eq!(values_of(&merged), vec![1, 2, 2, 2, 3, 9, 9, 9, 10]);
    assert_eq!(merged.length, 9);
}

/// Ordered by the first part only: the second part tells the lists apart.
#[derive(Clone, Debug)]
struct Tagged(u8, char);

impl PartialEq for Tagged {
    fn eq(&self, other: &Self) -> bool {
        self.0 == other.0
    }
}

impl PartialOrd for Tagged {
    fn partial_cmp(&self, other: &Self) -> Option<std::cmp::Ordering> {
        self.0.partial_cmp(&other.0)
    }
}

fn tag(list: &LinkedList<Tagged>, index: i32) -> Option<(u8, char)> {
    list.get(index).map(|tagged| (tagged.0, tagged.1))
}

#[test]
fn merge_takes_the_first_list_on_a_tie() {
    let mut list_a = LinkedList::new();
    list_a.add(Tagged(1, 'a'));
    list_a.add(Tagged(2, 'a'));
    let mut list_b = LinkedList::new();
    list_b.add(Tagged(1, 'b'));
    list_b.add(Tagged(2, 'b'));
    let merged = LinkedList::merge(list_a, list_b);
    assert_eq!(tag(&merged, 0), Some((1, 'a')));
    assert_eq!(tag(&merged, 1), Some((1, 'b')));
    assert_eq!(tag(&merged, 2), Some((2, 'a')));
    assert_eq!(tag(&merged, 3), Some((2, 'b')));
    assert_eq!(tag(&merged, 4), None);
}

#[test]
fn merge_of_unordered_lists_still_follows_the_heads() {
    let merged = LinkedList::merge(list_of(&[5, 1]), list_of(&[3, 2]));
    assert_eq!(values_of(&merged), vec![3, 2, 5, 1]);
}
