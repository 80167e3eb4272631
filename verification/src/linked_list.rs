//! A singly linked list, and the merge of two ordered lists into one.

use vstd::prelude::*;
use vstd::std_specs::cmp::PartialOrdSpec;
use vstd::std_specs::cmp::PartialOrdIs;
use vstd::multiset::Multiset;
use vstd::seq_lib::to_multiset_build;
use vstd::seq_lib::to_multiset_insert;
use vstd::seq_lib::to_multiset_contains;
use crate::order::at_most;
use crate::order::compares;
use crate::order::nondecreasing;
use crate::order::total_preorder;

verus! {

/// One link of the chain: a value and the rest of the chain.
#[derive(Debug)]
struct Node<T: PartialOrd + Clone> {
    val: T,
    next: Option<Box<Node<T>>>,
}

impl<T: PartialOrd + Clone> Node<T> {
    /// A chain of one link.
    fn new(t: T) -> (node: Node<T>)
        ensures
            node.val == t,
            node.next is None,
    {
        Node { val: t, next: None }
    }
}

/// The values along a chain, the first link first.
spec fn chain<T: PartialOrd + Clone>(node: Option<Box<Node<T>>>) -> Seq<T>
    decreases node,
{
    match node {
        None => Seq::empty(),
        Some(link) => seq![link.val] + chain(link.next),
    }
}

/// The merge of two sequences: whichever head is not greater goes first,
/// the head of `a` on a tie; when one runs out the other follows as it is.
pub open spec fn merged<T: PartialOrd>(a: Seq<T>, b: Seq<T>) -> Seq<T>
    decreases a.len() + b.len(),
{
    if a.len() == 0 {
        b
    } else if b.len() == 0 {
        a
    } else if a[0].is_le(&b[0]) {
        seq![a[0]] + merged(a.drop_first(), b)
    } else {
        seq![b[0]] + merged(a, b.drop_first())
    }
}

/// A singly linked list that counts its elements.
#[derive(Debug)]
pub struct LinkedList<T: PartialOrd + Clone> {
    pub length: u32,
    start: Option<Box<Node<T>>>,
}

impl<T: PartialOrd + Clone> View for LinkedList<T> {
    type V = Seq<T>;

    /// The elements, the first one first.
    closed spec fn view(&self) -> Seq<T> {
        chain(self.start)
    }
}

impl<T: PartialOrd + Clone> Default for LinkedList<T> {
    /// An empty list.
    fn default() -> (list: Self)
        ensures
            list.wf(),
            list@ == Seq::<T>::empty(),
    {
        Self::new()
    }
}

impl<T: PartialOrd + Clone> LinkedList<T> {
    /// The list is well formed: `length` is the number of its elements.
    pub closed spec fn wf(&self) -> bool {
        self.length == self@.len()
    }

    /// An empty list.
    pub fn new() -> (list: Self)
        ensures
            list.wf(),
            list@ == Seq::<T>::empty(),
    {
        Self { length: 0, start: None }
    }

    /// Appends `obj` at the end.
    pub fn add(&mut self, obj: T)
        requires
            old(self).wf(),
            old(self)@.len() < u32::MAX,
        ensures
            final(self).wf(),
            final(self)@ == old(self)@.push(obj),
    {
        Self::append(&mut self.start, obj);
        self.length += 1;
    }

    /// The element at position `index`, counted from 0, or `None` where the
    /// list has no such position.
    pub fn get(&self, index: i32) -> (found: Option<&T>)
        ensures
            0 <= index < self@.len() ==> found == Some(&self@[index as int]),
            !(0 <= index < self@.len()) ==> found is None,
    {
        Self::get_ith_node(&self.start, index)
    }

    /// The element `index` links down the chain that starts at `node`.
    fn get_ith_node(node: &Option<Box<Node<T>>>, index: i32) -> (found: Option<&T>)
        ensures
            0 <= index < chain(*node).len() ==> found == Some(&chain(*node)[index as int]),
            !(0 <= index < chain(*node).len()) ==> found is None,
        decreases *node,
    {
        match node {
            None => None,
            Some(link) => {
                if index == 0 {
                    Some(&link.val)
                } else if index < 0 {
                    None
                } else {
                    Self::get_ith_node(&link.next, index - 1)
                }
            },
        }
    }

    /// Hangs a new link with `obj` at the end of the chain.
    fn append(node: &mut Option<Box<Node<T>>>, obj: T)
        ensures
            chain(*final(node)) == chain(*old(node)).push(obj),
        decreases *old(node),
    {
        match node.take() {
            None => {
                *node = Some(Box::new(Node::new(obj)));
            },
            Some(mut link) => {
                Self::append(&mut link.next, obj);
                *node = Some(link);
            },
        }
    }

    /// Unhooks the first link and returns its value.
    fn take_first(&mut self) -> (first: T)
        requires
            old(self).wf(),
            old(self).length > 0,
        ensures
            final(self).wf(),
            first == old(self)@[0],
            final(self)@ == old(self)@.drop_first(),
    {
        let link = self.start.take().unwrap();
        let Node { val, next } = *link;
        self.start = next;
        self.length -= 1;
        val
    }

    /// Whether the first element of `self` is not greater than the first
    /// element of `other`.
    fn leads(&self, other: &Self) -> (first: bool)
        requires
            self@.len() > 0,
            other@.len() > 0,
        ensures
            compares::<T>() ==> first == self@[0].is_le(&other@[0]),
    {
        let val_1 = Self::get_ith_node(&self.start, 0).unwrap();
        let val_2 = Self::get_ith_node(&other.start, 0).unwrap();
        *val_1 <= *val_2
    }

    /// Merges two lists into one: at each step the smaller of the two first
    /// elements moves over, the one of `list_a` on a tie, and when one list
    /// runs out the rest of the other follows. Two lists in non-decreasing
    /// order give a list in non-decreasing order.
    pub fn merge(list_a: LinkedList<T>, list_b: LinkedList<T>) -> (res: Self)
        requires
            list_a.wf(),
            list_b.wf(),
            list_a@.len() + list_b@.len() <= u32::MAX,
        ensures
            res.wf(),
            res@.len() == list_a@.len() + list_b@.len(),
            res@.to_multiset() == list_a@.to_multiset().add(list_b@.to_multiset()),
            compares::<T>() ==> res@ == merged(list_a@, list_b@),
            compares::<T>() && total_preorder(at_most::<T>()) && nondecreasing(
                at_most::<T>(),
                list_a@,
            ) && nondecreasing(at_most::<T>(), list_b@) ==> nondecreasing(at_most::<T>(), res@),
    {
        proof {
            if total_preorder(at_most::<T>()) && nondecreasing(at_most::<T>(), list_a@)
                && nondecreasing(at_most::<T>(), list_b@) {
                lemma_merged_is_ordered(list_a@, list_b@);
            }
        }
        let mut res = LinkedList::new();
        let len_1 = list_a.length;
        let len_2 = list_b.length;

        if len_1 == 0 {
            proof {
                lemma_bag_of_none::<T>(list_a@, list_b@);
            }
            return list_b
        }
        if len_2 == 0 {
            proof {
                lemma_bag_of_none::<T>(list_b@, list_a@);
            }
            return list_a
        }
        let mut rest_a = list_a;
        let mut rest_b = list_b;
        proof {
            lemma_bag_of_none::<T>(res@, rest_a@);
        }

        while rest_a.length > 0 && rest_b.length > 0
            invariant
                res.wf(),
                rest_a.wf(),
                rest_b.wf(),
                res@.len() + rest_a@.len() + rest_b@.len() == list_a@.len() + list_b@.len(),
                list_a@.len() + list_b@.len() <= u32::MAX,
                res@.to_multiset().add(rest_a@.to_multiset()).add(rest_b@.to_multiset())
                    == list_a@.to_multiset().add(list_b@.to_multiset()),
                compares::<T>() ==> res@ + merged(rest_a@, rest_b@) == merged(list_a@, list_b@),
            decreases rest_a@.len() + rest_b@.len(),
        {
            let ghost done = res@;
            let ghost left = rest_a@;
            let ghost right = rest_b@;
            if rest_a.leads(&rest_b) {
                let val_1 = rest_a.take_first();
                res.add(val_1);
                proof {
                    lemma_bag_moves(done, left, right);
                }
            } else {
                let val_2 = rest_b.take_first();
                res.add(val_2);
                proof {
                    lemma_bag_moves(done, right, left);
                    assert(done.to_multiset().add(left.to_multiset()).add(right.to_multiset())
                        =~= done.to_multiset().add(right.to_multiset()).add(left.to_multiset()));
                }
            }
        }

        if rest_a.length == 0 {
            proof {
                lemma_bag_of_none::<T>(rest_a@, res@);
                lemma_bag_joined(res@, rest_b@);
            }
            while rest_b.length > 0
                invariant
                    res.wf(),
                    rest_b.wf(),
                    res@.len() + rest_b@.len() == list_a@.len() + list_b@.len(),
                    list_a@.len() + list_b@.len() <= u32::MAX,
                    (res@ + rest_b@).to_multiset() == list_a@.to_multiset().add(
                        list_b@.to_multiset(),
                    ),
                    compares::<T>() ==> res@ + rest_b@ == merged(list_a@, list_b@),
                decreases rest_b@.len(),
            {
                let ghost whole = res@ + rest_b@;
                let val_2 = rest_b.take_first();
                res.add(val_2);
                assert(res@ + rest_b@ =~= whole);
            }
            assert(res@ + rest_b@ =~= res@);
        } else {
            proof {
                lemma_bag_joined(res@, rest_a@);
                lemma_bag_of_none::<T>(rest_b@, res@ + rest_a@);
            }
            while rest_a.length > 0
                invariant
                    res.wf(),
                    rest_a.wf(),
                    res@.len() + rest_a@.len() == list_a@.len() + list_b@.len(),
                    list_a@.len() + list_b@.len() <= u32::MAX,
                    (res@ + rest_a@).to_multiset() == list_a@.to_multiset().add(
                        list_b@.to_multiset(),
                    ),
                    compares::<T>() ==> res@ + rest_a@ == merged(list_a@, list_b@),
                decreases rest_a@.len(),
            {
                let ghost whole = res@ + rest_a@;
                let val_1 = rest_a.take_first();
                res.add(val_1);
                assert(res@ + rest_a@ =~= whole);
            }
            assert(res@ + rest_a@ =~= res@);
        }

        res
    }
}

/// The elements of an empty sequence add nothing to a bag.
proof fn lemma_bag_of_none<T>(none: Seq<T>, s: Seq<T>)
    requires
        none.len() == 0,
    ensures
        none.to_multiset().add(s.to_multiset()) == s.to_multiset(),
        s.to_multiset().add(none.to_multiset()) == s.to_multiset(),
{
    broadcast use vstd::multiset::group_multiset_axioms;

    none.to_multiset_ensures();
}

/// The bag of two sequences joined is the sum of their bags.
proof fn lemma_bag_joined<T>(a: Seq<T>, b: Seq<T>)
    ensures
        (a + b).to_multiset() == a.to_multiset().add(b.to_multiset()),
{
    vstd::seq_lib::lemma_multiset_commutative(a, b);
}

/// Moving the head of `from` to the end of `done` leaves the three bags'
/// sum as it was.
proof fn lemma_bag_moves<T>(done: Seq<T>, from: Seq<T>, other: Seq<T>)
    requires
        from.len() > 0,
    ensures
        done.push(from[0]).to_multiset().add(from.drop_first().to_multiset()).add(
            other.to_multiset(),
        ) == done.to_multiset().add(from.to_multiset()).add(other.to_multiset()),
{
    broadcast use vstd::multiset::group_multiset_axioms;

    to_multiset_build(done, from[0]);
    assert(from =~= from.drop_first().insert(0, from[0]));
    to_multiset_insert(from.drop_first(), 0, from[0]);
}

/// A merge holds the elements of both sequences, each as often as the two
/// hold it together.
pub proof fn lemma_merged_is_permutation<T: PartialOrd>(a: Seq<T>, b: Seq<T>)
    ensures
        merged(a, b).len() == a.len() + b.len(),
        merged(a, b).to_multiset() == a.to_multiset().add(b.to_multiset()),
    decreases a.len() + b.len(),
{
    broadcast use vstd::multiset::group_multiset_axioms;

    if a.len() == 0 {
        lemma_bag_of_none(a, b);
    } else if b.len() == 0 {
        lemma_bag_of_none(b, a);
    } else if a[0].is_le(&b[0]) {
        let rest = merged(a.drop_first(), b);
        lemma_merged_is_permutation(a.drop_first(), b);
        assert(merged(a, b) =~= rest.insert(0, a[0]));
        to_multiset_insert(rest, 0, a[0]);
        assert(a =~= a.drop_first().insert(0, a[0]));
        to_multiset_insert(a.drop_first(), 0, a[0]);
    } else {
        let rest = merged(a, b.drop_first());
        lemma_merged_is_permutation(a, b.drop_first());
        assert(merged(a, b) =~= rest.insert(0, b[0]));
        to_multiset_insert(rest, 0, b[0]);
        assert(b =~= b.drop_first().insert(0, b[0]));
        to_multiset_insert(b.drop_first(), 0, b[0]);
    }
}

/// The merge of two sequences in non-decreasing order is in non-decreasing
/// order, wherever `<=` relates any two values and chains.
pub proof fn lemma_merged_is_ordered<T: PartialOrd>(a: Seq<T>, b: Seq<T>)
    requires
        total_preorder(at_most::<T>()),
        nondecreasing(at_most::<T>(), a),
        nondecreasing(at_most::<T>(), b),
    ensures
        nondecreasing(at_most::<T>(), merged(a, b)),
    decreases a.len() + b.len(),
{
    let le = at_most::<T>();
    let out = merged(a, b);
    if a.len() > 0 && b.len() > 0 {
        let a_first = a[0].is_le(&b[0]);
        let ra = if a_first { a.drop_first() } else { a };
        let rb = if a_first { b } else { b.drop_first() };
        let rest = merged(ra, rb);
        lemma_merged_is_ordered(ra, rb);
        lemma_merged_is_permutation(ra, rb);
        // Whichever head went first is at most the other head.
        assert(le(a[0], b[0]) || le(b[0], a[0]));
        assert forall|i: int, j: int| 0 <= i < j < out.len() implies le(
            #[trigger] out[i],
            #[trigger] out[j],
        ) by {
            if i == 0 {
                // What follows the head comes from one of the two sequences,
                // where nothing lies before its own head.
                let e = rest[j - 1];
                to_multiset_contains(rest, e);
                to_multiset_contains(ra, e);
                to_multiset_contains(rb, e);
                if ra.contains(e) {
                    let w = choose|w: int| 0 <= w < ra.len() && ra[w] == e;
                } else {
                    let w = choose|w: int| 0 <= w < rb.len() && rb[w] == e;
                }
            }
        }
    }
}

} // verus!
