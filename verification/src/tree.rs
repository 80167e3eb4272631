//! The implicit binary tree behind the heap, as mathematics.
//!
//! A tree of `n` elements is a sequence of `n + 1` slots. Slot 0 is never
//! read; the root sits in slot 1, and the element in slot `i` has its parent
//! in slot `i / 2` and its children in slots `2 * i` and `2 * i + 1`.
//! Relations are read as in [`crate::order`]: `ord(a, b)` means that `a` has
//! to end up above `b`.

use vstd::prelude::*;
use vstd::multiset::Multiset;
use vstd::seq_lib::to_multiset_update;
use vstd::seq_lib::to_multiset_build;
use vstd::seq_lib::to_multiset_remove;
use vstd::seq_lib::to_multiset_contains;
use vstd::seq_lib::to_multiset_insert;
use crate::order::strict_weak_order;
use crate::order::sorted_by;

verus! {

/// The slots of `s` with the contents of `i` and `j` traded.
pub open spec fn exchanged<T>(s: Seq<T>, i: int, j: int) -> Seq<T> {
    s.update(i, s[j]).update(j, s[i])
}

/// The elements a tree holds, in slot order: everything but slot 0.
pub open spec fn live<T>(s: Seq<T>) -> Seq<T> {
    s.subrange(1, s.len() as int)
}

/// The heap property: no element outranks its parent.
pub open spec fn heap_ordered<T>(ord: spec_fn(T, T) -> bool, s: Seq<T>) -> bool {
    forall|i: int| 1 < i < s.len() ==> !ord(#[trigger] s[i], s[i / 2])
}

/// The heap property everywhere but between slot `k` and its parent, with the
/// children of `k` already in order below that parent.
pub open spec fn ordered_but_above<T>(ord: spec_fn(T, T) -> bool, s: Seq<T>, k: int) -> bool {
    &&& forall|i: int| 1 < i < s.len() && i != k ==> !ord(#[trigger] s[i], s[i / 2])
    &&& forall|i: int| 1 < i < s.len() && i / 2 == k && k > 1 ==> !ord(#[trigger] s[i], s[k / 2])
}

/// The heap property everywhere but between slot `k` and its children, with
/// those children already in order below the parent of `k`.
pub open spec fn ordered_but_below<T>(ord: spec_fn(T, T) -> bool, s: Seq<T>, k: int) -> bool {
    &&& forall|i: int| 1 < i < s.len() && i / 2 != k ==> !ord(#[trigger] s[i], s[i / 2])
    &&& forall|i: int| 1 < i < s.len() && i / 2 == k && k > 1 ==> !ord(#[trigger] s[i], s[k / 2])
}

/// Sift-up: while the element in slot `k` outranks its parent, trade the two
/// and go on from the parent's slot.
pub open spec fn sift_up<T>(ord: spec_fn(T, T) -> bool, s: Seq<T>, k: int) -> Seq<T>
    decreases k,
{
    if 1 < k < s.len() && ord(s[k], s[k / 2]) {
        sift_up(ord, exchanged(s, k, k / 2), k / 2)
    } else {
        s
    }
}

/// The child of slot `k` that a sift-down looks at: the right one if it
/// exists and outranks the left one, else the left one. A tie goes to the
/// left child.
pub open spec fn preferred_child<T>(ord: spec_fn(T, T) -> bool, s: Seq<T>, k: int) -> int {
    if 2 * k + 1 < s.len() && ord(s[2 * k + 1], s[2 * k]) {
        2 * k + 1
    } else {
        2 * k
    }
}

/// Sift-down: while the preferred child of slot `k` outranks the element in
/// slot `k`, trade the two and go on from that child's slot.
pub open spec fn sift_down<T>(ord: spec_fn(T, T) -> bool, s: Seq<T>, k: int) -> Seq<T>
    decreases s.len() - k,
{
    if 1 <= k && 2 * k < s.len() && ord(s[preferred_child(ord, s, k)], s[k]) {
        sift_down(ord, exchanged(s, k, preferred_child(ord, s, k)), preferred_child(ord, s, k))
    } else {
        s
    }
}

/// The tree after `value` has been added: put into the next free slot and
/// sifted up from there.
pub open spec fn inserted<T>(ord: spec_fn(T, T) -> bool, s: Seq<T>, value: T) -> Seq<T> {
    sift_up(ord, s.push(value), s.len() as int)
}

/// The tree after its root has been taken out: the last element moves into
/// slot 1 and is sifted down. A tree of one element just loses its slot; an
/// empty tree stays as it is.
pub open spec fn removed<T>(ord: spec_fn(T, T) -> bool, s: Seq<T>) -> Seq<T> {
    if s.len() <= 1 {
        s
    } else if s.len() == 2 {
        s.drop_last()
    } else {
        sift_down(ord, s.drop_last().update(1, s.last()), 1)
    }
}

/// What comes out when the root is taken again and again until the tree is
/// empty, first root first.
pub open spec fn drained<T>(ord: spec_fn(T, T) -> bool, s: Seq<T>) -> Seq<T>
    decreases s.len(),
    via drained_terminates::<T>
{
    if s.len() <= 1 {
        Seq::empty()
    } else {
        seq![s[1]] + drained(ord, removed(ord, s))
    }
}

/// One operation on a tree: adding a value, or taking the root out.
pub enum Step<T> {
    Add(T),
    Take,
}

/// The tree after the operations `steps`, done one after the other on `s`.
pub open spec fn after<T>(ord: spec_fn(T, T) -> bool, s: Seq<T>, steps: Seq<Step<T>>) -> Seq<T>
    decreases steps.len(),
{
    if steps.len() == 0 {
        s
    } else {
        let before = after(ord, s, steps.drop_last());
        match steps.last() {
            Step::Add(value) => inserted(ord, before, value),
            Step::Take => removed(ord, before),
        }
    }
}

/// How many of `steps` add a value.
pub open spec fn added<T>(steps: Seq<Step<T>>) -> nat
    decreases steps.len(),
{
    if steps.len() == 0 {
        0
    } else if steps.last() is Add {
        added(steps.drop_last()) + 1
    } else {
        added(steps.drop_last())
    }
}

/// How many of `steps`, done one after the other on `s`, take a root out of
/// a tree that has one.
pub open spec fn taken<T>(ord: spec_fn(T, T) -> bool, s: Seq<T>, steps: Seq<Step<T>>) -> nat
    decreases steps.len(),
{
    if steps.len() == 0 {
        0
    } else if steps.last() is Take && after(ord, s, steps.drop_last()).len() > 1 {
        taken(ord, s, steps.drop_last()) + 1
    } else {
        taken(ord, s, steps.drop_last())
    }
}

#[via_fn]
proof fn drained_terminates<T>(ord: spec_fn(T, T) -> bool, s: Seq<T>) {
    if s.len() > 2 {
        lemma_sift_down_keeps(ord, s.drop_last().update(1, s.last()), 1);
    }
}

/// Trading two slots changes neither the length nor the elements as a bag.
pub proof fn lemma_exchanged_keeps<T>(s: Seq<T>, i: int, j: int)
    requires
        0 <= i < s.len(),
        0 <= j < s.len(),
    ensures
        exchanged(s, i, j).len() == s.len(),
        exchanged(s, i, j).to_multiset() == s.to_multiset(),
{
    broadcast use vstd::multiset::group_multiset_axioms;

    let mid = s.update(i, s[j]);
    to_multiset_update(s, i, s[j]);
    to_multiset_update(mid, j, s[i]);
    if i != j {
        to_multiset_contains(s, s[i]);
    }
}

/// Sift-up keeps the length, slot 0 and the elements as a bag.
pub proof fn lemma_sift_up_keeps<T>(ord: spec_fn(T, T) -> bool, s: Seq<T>, k: int)
    ensures
        sift_up(ord, s, k).len() == s.len(),
        s.len() > 0 ==> sift_up(ord, s, k)[0] == s[0],
        sift_up(ord, s, k).to_multiset() == s.to_multiset(),
    decreases k,
{
    if 1 < k < s.len() && ord(s[k], s[k / 2]) {
        lemma_exchanged_keeps(s, k, k / 2);
        lemma_sift_up_keeps(ord, exchanged(s, k, k / 2), k / 2);
    }
}

/// Sift-down keeps the length, slot 0 and the elements as a bag.
pub proof fn lemma_sift_down_keeps<T>(ord: spec_fn(T, T) -> bool, s: Seq<T>, k: int)
    ensures
        sift_down(ord, s, k).len() == s.len(),
        s.len() > 0 ==> sift_down(ord, s, k)[0] == s[0],
        sift_down(ord, s, k).to_multiset() == s.to_multiset(),
    decreases s.len() - k,
{
    if 1 <= k && 2 * k < s.len() && ord(s[preferred_child(ord, s, k)], s[k]) {
        let c = preferred_child(ord, s, k);
        lemma_exchanged_keeps(s, k, c);
        lemma_sift_down_keeps(ord, exchanged(s, k, c), c);
    }
}

/// Sift-up from the one slot that may be out of order restores the heap
/// property.
pub proof fn lemma_sift_up_orders<T>(ord: spec_fn(T, T) -> bool, s: Seq<T>, k: int)
    requires
        strict_weak_order(ord),
        1 <= k < s.len(),
        ordered_but_above(ord, s, k),
    ensures
        heap_ordered(ord, sift_up(ord, s, k)),
    decreases k,
{
    if 1 < k && ord(s[k], s[k / 2]) {
        // After the trade the old parent sits below the element that outranks
        // it, the sibling is below an element that outranks its old parent,
        // and only the link above the parent's slot is left open.
        lemma_sift_up_orders(ord, exchanged(s, k, k / 2), k / 2);
    }
}

/// Sift-down from the one slot that may be out of order restores the heap
/// property.
pub proof fn lemma_sift_down_orders<T>(ord: spec_fn(T, T) -> bool, s: Seq<T>, k: int)
    requires
        strict_weak_order(ord),
        1 <= k < s.len(),
        ordered_but_below(ord, s, k),
    ensures
        heap_ordered(ord, sift_down(ord, s, k)),
    decreases s.len() - k,
{
    let c = preferred_child(ord, s, k);
    if 2 * k < s.len() && ord(s[c], s[k]) {
        // After the trade the preferred child sits above its sibling, which
        // does not outrank it, and above the element it outranks; only the
        // links below the child's slot are left open.
        lemma_sift_down_orders(ord, exchanged(s, k, c), c);
    }
    // Otherwise the preferred child does not outrank the element, and the
    // other child does not outrank the preferred one: nothing is left open.
}

/// In a heap nothing outranks the root.
pub proof fn lemma_root_is_top<T>(ord: spec_fn(T, T) -> bool, s: Seq<T>, i: int)
    requires
        strict_weak_order(ord),
        heap_ordered(ord, s),
        1 <= i < s.len(),
    ensures
        !ord(s[i], s[1]),
    decreases i,
{
    if i > 1 {
        lemma_root_is_top(ord, s, i / 2);
    }
}

/// Adding to a heap gives a heap with one more slot, the same slot 0, and the
/// new value among its elements.
pub proof fn lemma_inserted_is_heap<T>(ord: spec_fn(T, T) -> bool, s: Seq<T>, value: T)
    requires
        strict_weak_order(ord),
        heap_ordered(ord, s),
        s.len() >= 1,
    ensures
        heap_ordered(ord, inserted(ord, s, value)),
        inserted(ord, s, value).len() == s.len() + 1,
        inserted(ord, s, value)[0] == s[0],
        live(inserted(ord, s, value)).to_multiset() == live(s).to_multiset().insert(value),
{
    broadcast use vstd::multiset::group_multiset_axioms;

    let grown = s.push(value);
    let k = s.len() as int;
    lemma_sift_up_orders(ord, grown, k);
    lemma_sift_up_keeps(ord, grown, k);
    to_multiset_build(s, value);
    lemma_live_bag(s);
    lemma_live_bag(inserted(ord, s, value));
    assert(live(s).to_multiset().insert(value).insert(s[0]) =~= live(s).to_multiset().insert(
        s[0],
    ).insert(value));
    lemma_bag_cancel(
        live(inserted(ord, s, value)).to_multiset(),
        live(s).to_multiset().insert(value),
        s[0],
    );
}

/// Taking the root out of a heap gives a heap with one slot less, the same
/// slot 0, and the old elements but for that root.
pub proof fn lemma_removed_is_heap<T>(ord: spec_fn(T, T) -> bool, s: Seq<T>)
    requires
        strict_weak_order(ord),
        heap_ordered(ord, s),
        s.len() >= 2,
    ensures
        heap_ordered(ord, removed(ord, s)),
        removed(ord, s).len() == s.len() - 1,
        removed(ord, s)[0] == s[0],
        live(removed(ord, s)).to_multiset() == live(s).to_multiset().remove(s[1]),
{
    broadcast use vstd::multiset::group_multiset_axioms;

    lemma_live_bag(s);
    if s.len() == 2 {
        assert(live(removed(ord, s)) =~= live(s).remove(0));
        to_multiset_remove(live(s), 0);
    } else {
        let cut = s.drop_last();
        let moved = cut.update(1, s.last());
        lemma_sift_down_orders(ord, moved, 1);
        lemma_sift_down_keeps(ord, moved, 1);
        lemma_live_bag(removed(ord, s));
        to_multiset_update(cut, 1, s.last());
        to_multiset_remove(s, s.len() - 1);
        to_multiset_contains(s, s.last());
        assert(moved.to_multiset() =~= s.to_multiset().remove(s[1]));
        assert(live(s).to_multiset().remove(s[1]).insert(s[0]) =~= live(s).to_multiset().insert(
            s[0],
        ).remove(s[1]));
        lemma_bag_cancel(
            live(removed(ord, s)).to_multiset(),
            live(s).to_multiset().remove(s[1]),
            s[0],
        );
    }
}

/// Whatever is added to a heap and taken from it, in whatever order: it stays
/// a heap, and it holds as many elements as it held, plus those added, minus
/// those taken out.
pub proof fn lemma_steps_keep_heap<T>(ord: spec_fn(T, T) -> bool, s: Seq<T>, steps: Seq<Step<T>>)
    requires
        strict_weak_order(ord),
        heap_ordered(ord, s),
        s.len() >= 1,
    ensures
        heap_ordered(ord, after(ord, s, steps)),
        after(ord, s, steps).len() >= 1,
        after(ord, s, steps)[0] == s[0],
        after(ord, s, steps).len() - 1 == s.len() - 1 + added(steps) - taken(ord, s, steps),
    decreases steps.len(),
{
    if steps.len() > 0 {
        let before = after(ord, s, steps.drop_last());
        lemma_steps_keep_heap(ord, s, steps.drop_last());
        match steps.last() {
            Step::Add(value) => {
                lemma_inserted_is_heap(ord, before, value);
            },
            Step::Take => {
                if before.len() > 1 {
                    lemma_removed_is_heap(ord, before);
                }
            },
        }
    }
}

/// Two bags that agree once the same element is put into both agree.
pub proof fn lemma_bag_cancel<T>(m1: Multiset<T>, m2: Multiset<T>, x: T)
    requires
        m1.insert(x) == m2.insert(x),
    ensures
        m1 == m2,
{
    broadcast use vstd::multiset::group_multiset_axioms;

    assert forall|v: T| m1.count(v) == m2.count(v) by {
        if v == x {
            vstd::multiset::lemma_insert_increases_count_by_1(m1, x);
        } else {
            vstd::multiset::lemma_insert_other_elements_unchanged(m1, x, v);
        }
    }
}

/// The slots as a bag are the live elements together with slot 0.
pub proof fn lemma_live_bag<T>(s: Seq<T>)
    requires
        s.len() >= 1,
    ensures
        s.to_multiset() == live(s).to_multiset().insert(s[0]),
        live(s).len() == s.len() - 1,
{
    broadcast use vstd::multiset::group_multiset_axioms;

    to_multiset_remove(s, 0);
    to_multiset_contains(s, s[0]);
}

/// Draining a heap gives back every element it held, once each, and in an
/// order in which no later element outranks an earlier one.
pub proof fn lemma_drained_is_sorted<T>(ord: spec_fn(T, T) -> bool, s: Seq<T>)
    requires
        strict_weak_order(ord),
        heap_ordered(ord, s),
        s.len() >= 1,
    ensures
        drained(ord, s).len() == s.len() - 1,
        drained(ord, s).to_multiset() == live(s).to_multiset(),
        sorted_by(ord, drained(ord, s)),
    decreases s.len(),
{
    let out = drained(ord, s);
    if s.len() == 1 {
        assert(live(s) =~= Seq::<T>::empty());
    } else {
        let rest = removed(ord, s);
        let tail = drained(ord, rest);
        lemma_removed_is_heap(ord, s);
        lemma_drained_is_sorted(ord, rest);
        assert(out =~= tail.insert(0, s[1]));
        to_multiset_insert(tail, 0, s[1]);
        assert(live(s)[0] == s[1]);
        to_multiset_contains(live(s), s[1]);
        assert forall|i: int, j: int| 0 <= i < j < out.len() implies !ord(
            #[trigger] out[j],
            #[trigger] out[i],
        ) by {
            if i == 0 {
                let e = out[j];
                to_multiset_contains(tail, e);
                to_multiset_contains(live(s), e);
                let w = choose|w: int| 0 <= w < live(s).len() && live(s)[w] == e;
                lemma_root_is_top(ord, s, w + 1);
            }
        }
    }
}

} // verus!
