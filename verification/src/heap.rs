//! A binary heap over a pluggable ordering policy.
//!
//! The heap keeps its elements in an array laid out as a complete binary
//! tree (see [`crate::tree`]) and always hands out an element that nothing
//! else in it outranks. What "outranks" means is decided by a [`Priority`]
//! given at construction: [`MinFirst`] and [`MaxFirst`] use the element type's
//! own order, and any function `Fn(&T, &T) -> bool` is a policy too.

use vstd::prelude::*;
use vstd::std_specs::cmp::PartialOrdSpec;
use vstd::std_specs::cmp::PartialOrdIs;
use crate::order::strict_weak_order;
use crate::order::sorted_by;
use crate::order::total_order;
use crate::order::ascending;
use crate::order::descending;
use crate::order::lemma_ascending_is_strict_weak;
use crate::order::lemma_descending_is_strict_weak;
use crate::order::lemma_total_order_decides;
use crate::tree::live;
use crate::tree::heap_ordered;
use crate::tree::exchanged;
use crate::tree::sift_up;
use crate::tree::sift_down;
use crate::tree::preferred_child;
use crate::tree::inserted;
use crate::tree::removed;
use crate::tree::drained;
use crate::tree::lemma_inserted_is_heap;
use crate::tree::lemma_removed_is_heap;
use crate::tree::lemma_root_is_top;
use crate::tree::lemma_drained_is_sorted;

verus! {

/// An ordering policy: the rule by which a heap decides which of two
/// elements has to end up nearer the root.
pub trait Priority<T> {
    /// The relation the policy stands for: `a` has to end up above `b`.
    spec fn higher(&self, a: T, b: T) -> bool;

    /// What makes the policy usable: where this holds, `outranks` may be
    /// called on any two values and computes `higher`.
    spec fn decides(&self) -> bool;

    /// Asks the policy whether `a` has to end up above `b`.
    fn outranks(&self, a: &T, b: &T) -> (r: bool)
        requires
            self.decides(),
        ensures
            r == self.higher(*a, *b),
    ;
}

/// The function `f` computes the relation `ord`: whatever it returns for
/// two values is what `ord` says of them.
pub open spec fn computes<T, F: Fn(&T, &T) -> bool>(f: F, ord: spec_fn(T, T) -> bool) -> bool {
    forall|a: T, b: T, r: bool| #[trigger] call_ensures(f, (&a, &b), r) ==> r == ord(a, b)
}

/// A function of two elements is a policy where it can be called on any two
/// values and computes some strict weak order; it then stands for such an
/// order.
impl<T, F: Fn(&T, &T) -> bool> Priority<T> for F {
    open spec fn higher(&self, a: T, b: T) -> bool {
        (choose|ord: spec_fn(T, T) -> bool| computes(*self, ord) && strict_weak_order(ord))(a, b)
    }

    open spec fn decides(&self) -> bool {
        &&& forall|a: T, b: T| call_requires(*self, (&a, &b))
        &&& exists|ord: spec_fn(T, T) -> bool| computes(*self, ord) && strict_weak_order(ord)
    }

    fn outranks(&self, a: &T, b: &T) -> (r: bool) {
        self(a, b)
    }
}

/// A function that can be called on any two values and computes a strict
/// weak order is a policy a heap can be built with.
pub proof fn lemma_function_is_policy<T, F: Fn(&T, &T) -> bool>(f: F, ord: spec_fn(T, T) -> bool)
    requires
        forall|a: T, b: T| call_requires(f, (&a, &b)),
        computes(f, ord),
        strict_weak_order(ord),
    ensures
        decisive::<T, F>(f),
        strict_weak_order(ranking::<T, F>(f)),
{
    // `ord` shows that there is such an order; the policy stands for one.
    assert(computes(f, ord) && strict_weak_order(ord));
}

/// The policy of a min-heap: the smaller element outranks the larger.
pub struct MinFirst;

impl<T: Ord> Priority<T> for MinFirst {
    open spec fn higher(&self, a: T, b: T) -> bool {
        a.is_lt(&b)
    }

    open spec fn decides(&self) -> bool {
        T::obeys_partial_cmp_spec()
    }

    fn outranks(&self, a: &T, b: &T) -> (r: bool) {
        *a < *b
    }
}

/// The policy of a max-heap: the larger element outranks the smaller.
pub struct MaxFirst;

impl<T: Ord> Priority<T> for MaxFirst {
    open spec fn higher(&self, a: T, b: T) -> bool {
        a.is_gt(&b)
    }

    open spec fn decides(&self) -> bool {
        T::obeys_partial_cmp_spec()
    }

    fn outranks(&self, a: &T, b: &T) -> (r: bool) {
        *a > *b
    }
}

/// The policy is usable on values of `T`: see [`Priority::decides`].
pub open spec fn decisive<T, P: Priority<T>>(policy: P) -> bool {
    policy.decides()
}

/// The relation a policy stands for, as a function of two values.
pub open spec fn ranking<T, P: Priority<T>>(policy: P) -> spec_fn(T, T) -> bool {
    |a: T, b: T| policy.higher(a, b)
}

/// A binary heap of `T` ordered by the policy `P`.
pub struct Heap<T, P> where T: Default + Clone {
    count: usize,
    items: Vec<T>,
    comparator: P,
}

impl<T, P> View for Heap<T, P> where T: Default + Clone, P: Priority<T> {
    type V = Seq<T>;

    /// The elements of the heap in slot order, the root first.
    open spec fn view(&self) -> Seq<T> {
        live(self.slots())
    }
}

impl<T, P> Heap<T, P> where T: Default + Clone, P: Priority<T> {
    /// The storage: slot 0 is a placeholder, the elements sit in slots
    /// `1..=size()`.
    pub closed spec fn slots(&self) -> Seq<T> {
        self.items@
    }

    /// The number of elements.
    pub closed spec fn size(&self) -> nat {
        self.count as nat
    }

    /// The policy the heap was built with.
    pub closed spec fn policy(&self) -> P {
        self.comparator
    }

    /// The relation by which the heap orders its elements.
    pub open spec fn ranks(&self) -> spec_fn(T, T) -> bool {
        ranking::<T, P>(self.policy())
    }

    /// The heap is well formed: its elements fill slots `1..=size()`, its
    /// policy is usable and stands for a strict weak order, and no element
    /// outranks its parent.
    pub open spec fn wf(&self) -> bool {
        &&& self.slots().len() == self.size() + 1
        &&& decisive::<T, P>(self.policy())
        &&& strict_weak_order(self.ranks())
        &&& heap_ordered(self.ranks(), self.slots())
    }

    /// An empty heap ordered by `comparator`.
    pub fn new(comparator: P) -> (heap: Self)
        requires
            decisive::<T, P>(comparator),
            strict_weak_order(ranking::<T, P>(comparator)),
        ensures
            heap.wf(),
            heap.policy() == comparator,
            heap.size() == 0,
            heap@ == Seq::<T>::empty(),
    {
        let mut items: Vec<T> = Vec::new();
        items.push(T::default());
        let heap = Heap { count: 0, items, comparator };
        heap
    }

    /// The number of elements.
    pub fn len(&self) -> (n: usize)
        ensures
            n == self.size(),
    {
        self.count
    }

    /// Whether the heap holds no element.
    pub fn is_empty(&self) -> (empty: bool)
        ensures
            empty == (self.size() == 0),
    {
        self.len() == 0
    }

    /// Adds `value`: it goes into the next free slot and is sifted up from
    /// there.
    pub fn add(&mut self, value: T)
        requires
            old(self).wf(),
        ensures
            final(self).wf(),
            final(self).policy() == old(self).policy(),
            final(self).slots() == inserted(old(self).ranks(), old(self).slots(), value),
            final(self).size() == old(self).size() + 1,
            final(self)@.to_multiset() == old(self)@.to_multiset().insert(value),
    {
        let ghost ord = self.ranks();
        let ghost target = inserted(ord, self.items@, value);
        proof {
            lemma_inserted_is_heap(ord, self.items@, value);
        }
        self.items.push(value);
        self.count = self.items.len() - 1;
        let mut cur_index: usize = self.count;
        while cur_index != 1 && self.comparator.outranks(
            &self.items[cur_index],
            &self.items[cur_index / 2],
        )
            invariant
                1 <= cur_index <= self.count,
                self.items@.len() == self.count + 1,
                self.count == old(self).count + 1,
                self.comparator == old(self).comparator,
                self.comparator.decides(),
                ord == ranking::<T, P>(self.comparator),
                sift_up(ord, self.items@, cur_index as int) == target,
            decreases cur_index,
        {
            let parent_index: usize = self.parent_idx(cur_index);
            self.exchange(cur_index, parent_index);
            cur_index = parent_index;
        }
    }

    /// Takes out the root, an element that no other outranks, or returns
    /// `None` if the heap is empty. The last element moves into the root's
    /// slot and is sifted down from there.
    pub fn next(&mut self) -> (top: Option<T>)
        requires
            old(self).wf(),
        ensures
            final(self).wf(),
            final(self).policy() == old(self).policy(),
            final(self).slots() == removed(old(self).ranks(), old(self).slots()),
            old(self).size() == 0 ==> top is None && final(self).size() == 0,
            old(self).size() > 0 ==> top == Some(old(self).slots()[1]) && final(self).size()
                == old(self).size() - 1,
            old(self).size() > 0 ==> final(self)@.to_multiset() == old(self)@.to_multiset().remove(
                old(self).slots()[1],
            ),
            forall|i: int|
                1 <= i <= old(self).size() ==> !(old(self).ranks())(
                    #[trigger] old(self).slots()[i],
                    old(self).slots()[1],
                ),
    {
        let ghost ord = self.ranks();
        let ghost before = self.items@;
        let ghost target = removed(ord, before);
        proof {
            assert forall|i: int| 1 <= i <= self.count implies !ord(
                #[trigger] before[i],
                before[1],
            ) by {
                lemma_root_is_top(ord, before, i);
            }
        }
        if self.count > 0 {
            proof {
                lemma_removed_is_heap(ord, before);
            }
            if self.count == 1 {
                let top = self.items.pop();
                self.count = 0;
                return top;
            }
            let mut top: T = self.items.pop().unwrap();
            self.count -= 1;
            core::mem::swap(&mut top, &mut self.items[1]);

            let mut cur_index: usize = 1;
            loop
                invariant
                    1 <= cur_index <= self.count,
                    self.items@.len() == self.count + 1,
                    self.count == old(self).count - 1,
                    self.comparator == old(self).comparator,
                    self.comparator.decides(),
                    ord == ranking::<T, P>(self.comparator),
                    sift_down(ord, self.items@, cur_index as int) == target,
                ensures
                    self.items@ == target,
                    self.items@.len() == self.count + 1,
                    self.count == old(self).count - 1,
                    self.comparator == old(self).comparator,
                decreases self.count - cur_index,
            {
                if !self.children_present(cur_index) {
                    break ;
                }
                let children_index: usize = self.smallest_child_idx(cur_index);
                if self.comparator.outranks(&self.items[children_index], &self.items[cur_index]) {
                    let ghost above = self.items@;
                    self.exchange(children_index, cur_index);
                    assert(self.items@ =~= exchanged(
                        above,
                        cur_index as int,
                        children_index as int,
                    ));
                    cur_index = children_index;
                } else {
                    break ;
                }
            }
            return Some(top);
        }
        None
    }

    /// Takes out every element, the root first each time, and returns them in
    /// the order in which they came out.
    pub fn drain(&mut self) -> (out: Vec<T>)
        requires
            old(self).wf(),
        ensures
            final(self).wf(),
            final(self).policy() == old(self).policy(),
            final(self).size() == 0,
            out@ == drained(old(self).ranks(), old(self).slots()),
            out@.len() == old(self).size(),
            out@.to_multiset() == old(self)@.to_multiset(),
            sorted_by(old(self).ranks(), out@),
    {
        let ghost ord = self.ranks();
        let ghost whole = drained(ord, self.slots());
        proof {
            lemma_drained_is_sorted(ord, self.slots());
        }
        let mut out: Vec<T> = Vec::new();
        loop
            invariant
                self.wf(),
                self.policy() == old(self).policy(),
                ord == self.ranks(),
                out@ + drained(ord, self.slots()) == whole,
            ensures
                self.wf(),
                self.policy() == old(self).policy(),
                self.size() == 0,
                out@ == whole,
            decreases self.size(),
        {
            match self.next() {
                Some(value) => {
                    out.push(value);
                },
                None => {
                    break ;
                },
            }
        }
        out
    }

    /// The slot of the parent of slot `idx`.
    fn parent_idx(&self, idx: usize) -> (parent: usize)
        ensures
            parent == idx / 2,
    {
        idx / 2
    }

    /// Whether slot `idx` has a child among the elements.
    fn children_present(&self, idx: usize) -> (present: bool)
        requires
            self.items@.len() == self.count + 1,
        ensures
            present == (2 * idx < self.items@.len()),
    {
        idx <= self.count / 2
    }

    /// The slot of the left child of slot `idx`.
    fn left_child_idx(&self, idx: usize) -> (left: usize)
        requires
            2 * idx <= usize::MAX,
        ensures
            left == 2 * idx,
    {
        idx * 2
    }

    /// The slot of the right child of slot `idx`.
    fn right_child_idx(&self, idx: usize) -> (right: usize)
        requires
            2 * idx + 1 <= usize::MAX,
        ensures
            right == 2 * idx + 1,
    {
        self.left_child_idx(idx) + 1
    }

    /// The child of slot `idx` that a sift-down trades with: the right one if
    /// there is one and it outranks the left one, else the left one.
    fn smallest_child_idx(&self, idx: usize) -> (child: usize)
        requires
            self.items@.len() == self.count + 1,
            self.comparator.decides(),
            idx >= 1,
            2 * idx < self.items@.len(),
        ensures
            child == preferred_child(ranking::<T, P>(self.comparator), self.items@, idx as int),
            child == 2 * idx || child == 2 * idx + 1,
            child < self.items@.len(),
    {
        let left_child_index: usize = self.left_child_idx(idx);
        let right_child_index: usize = self.right_child_idx(idx);
        if right_child_index <= self.count {
            if self.comparator.outranks(
                &self.items[right_child_index],
                &self.items[left_child_index],
            ) {
                return right_child_index;
            }
        }
        left_child_index
    }

    /// Trades the contents of two different slots.
    fn exchange(&mut self, i: usize, j: usize)
        requires
            i < old(self).items@.len(),
            j < old(self).items@.len(),
            i != j,
        ensures
            final(self).items@ == exchanged(old(self).items@, i as int, j as int),
            final(self).count == old(self).count,
            final(self).comparator == old(self).comparator,
    {
        let mut held: T = T::default();
        core::mem::swap(&mut held, &mut self.items[i]);
        core::mem::swap(&mut held, &mut self.items[j]);
        core::mem::swap(&mut held, &mut self.items[i]);
    }
}

impl<T> Heap<T, MinFirst> where T: Default + Ord + Clone {
    /// An empty min-heap: the smallest element comes out first.
    pub fn new_min() -> (heap: Self)
        requires
            total_order::<T>(),
        ensures
            heap.wf(),
            heap.policy() == MinFirst,
            heap.size() == 0,
            heap@ == Seq::<T>::empty(),
    {
        proof {
            lemma_min_first_is_strict_weak::<T>();
        }
        Heap::new(MinFirst)
    }
}

impl<T> Heap<T, MaxFirst> where T: Default + Ord + Clone {
    /// An empty max-heap: the largest element comes out first.
    pub fn new_max() -> (heap: Self)
        requires
            total_order::<T>(),
        ensures
            heap.wf(),
            heap.policy() == MaxFirst,
            heap.size() == 0,
            heap@ == Seq::<T>::empty(),
    {
        proof {
            lemma_max_first_is_strict_weak::<T>();
        }
        Heap::new(MaxFirst)
    }
}

/// Min-heaps: heaps ordered by [`MinFirst`].
pub struct MinHeap;

impl MinHeap {
    /// An empty min-heap: the smallest element comes out first.
    pub fn new<T: Clone>() -> (heap: Heap<T, MinFirst>) where T: Default + Ord
        requires
            total_order::<T>(),
        ensures
            heap.wf(),
            heap.policy() == MinFirst,
            heap.size() == 0,
            heap@ == Seq::<T>::empty(),
    {
        proof {
            lemma_min_first_is_strict_weak::<T>();
        }
        Heap::new(MinFirst)
    }
}

/// Max-heaps: heaps ordered by [`MaxFirst`].
pub struct MaxHeap;

impl MaxHeap {
    /// An empty max-heap: the largest element comes out first.
    pub fn new<T: Clone>() -> (heap: Heap<T, MaxFirst>) where T: Default + Ord
        requires
            total_order::<T>(),
        ensures
            heap.wf(),
            heap.policy() == MaxFirst,
            heap.size() == 0,
            heap@ == Seq::<T>::empty(),
    {
        proof {
            lemma_max_first_is_strict_weak::<T>();
        }
        Heap::new(MaxFirst)
    }
}

/// On a totally ordered type [`MinFirst`] is a policy a heap can be built
/// with.
pub proof fn lemma_min_first_is_strict_weak<T: Ord>()
    requires
        total_order::<T>(),
    ensures
        decisive::<T, MinFirst>(MinFirst),
        strict_weak_order(ranking::<T, MinFirst>(MinFirst)),
{
    lemma_ascending_is_strict_weak::<T>();
    let asc = ascending::<T>();
    let ord = ranking::<T, MinFirst>(MinFirst);
    assert forall|a: T, b: T| #[trigger] ord(a, b) implies !ord(b, a) by {
        assert(asc(a, b));
    }
    assert forall|a: T, b: T, c: T| !#[trigger] ord(a, b) && !#[trigger] ord(b, c) implies !ord(
        a,
        c,
    ) by {
        assert(!asc(a, b) && !asc(b, c));
    }
    lemma_total_order_decides::<T>();
}

/// On a totally ordered type [`MaxFirst`] is a policy a heap can be built
/// with.
pub proof fn lemma_max_first_is_strict_weak<T: Ord>()
    requires
        total_order::<T>(),
    ensures
        decisive::<T, MaxFirst>(MaxFirst),
        strict_weak_order(ranking::<T, MaxFirst>(MaxFirst)),
{
    lemma_descending_is_strict_weak::<T>();
    let desc = descending::<T>();
    let ord = ranking::<T, MaxFirst>(MaxFirst);
    assert forall|a: T, b: T| #[trigger] ord(a, b) implies !ord(b, a) by {
        assert(desc(a, b));
    }
    assert forall|a: T, b: T, c: T| !#[trigger] ord(a, b) && !#[trigger] ord(b, c) implies !ord(
        a,
        c,
    ) by {
        assert(!desc(a, b) && !desc(b, c));
    }
    lemma_total_order_decides::<T>();
}

} // verus!
