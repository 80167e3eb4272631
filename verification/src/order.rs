//! Ordering relations as mathematical objects.
//!
//! A relation is a `spec_fn(T, T) -> bool`; `ord(a, b)` reads "a comes
//! strictly before b". Everything the containers prove about priorities is
//! stated over such relations.

use vstd::prelude::*;
use vstd::std_specs::cmp::PartialOrdSpec;
use vstd::std_specs::cmp::PartialOrdIs;
use vstd::std_specs::cmp::PartialEqSpec;
use vstd::std_specs::cmp::OrdSpec;
use vstd::laws_cmp::obeys_cmp;
use vstd::laws_cmp::obeys_cmp_ord;
use vstd::laws_cmp::obeys_cmp_partial_ord;
use vstd::laws_cmp::obeys_partial_cmp_spec_properties;
use vstd::laws_eq::obeys_eq_spec_properties;
use vstd::laws_eq::obeys_concrete_eq;

verus! {

/// No two values come before each other.
pub open spec fn asymmetric<T>(ord: spec_fn(T, T) -> bool) -> bool {
    forall|a: T, b: T| #[trigger] ord(a, b) ==> !ord(b, a)
}

/// "Does not come before" chains: if `a` is not before `b` and `b` is not
/// before `c`, then `a` is not before `c`.
pub open spec fn negatively_transitive<T>(ord: spec_fn(T, T) -> bool) -> bool {
    forall|a: T, b: T, c: T| !#[trigger] ord(a, b) && !#[trigger] ord(b, c) ==> !ord(a, c)
}

/// A strict weak order: a strict order in which being tied is transitive.
/// This is what a priority rule has to be for "the top element" to make sense.
pub open spec fn strict_weak_order<T>(ord: spec_fn(T, T) -> bool) -> bool {
    asymmetric(ord) && negatively_transitive(ord)
}

/// `q` lists its elements so that no later one comes strictly before an
/// earlier one.
pub open spec fn sorted_by<T>(ord: spec_fn(T, T) -> bool, q: Seq<T>) -> bool {
    forall|i: int, j: int| 0 <= i < j < q.len() ==> !ord(#[trigger] q[j], #[trigger] q[i])
}

/// The relation `a < b` of a type's own order.
pub open spec fn ascending<T: PartialOrd>() -> spec_fn(T, T) -> bool {
    |a: T, b: T| a.is_lt(&b)
}

/// The relation `a > b` of a type's own order.
pub open spec fn descending<T: PartialOrd>() -> spec_fn(T, T) -> bool {
    |a: T, b: T| a.is_gt(&b)
}

/// The relation `a <= b` of a type's own order.
pub open spec fn at_most<T: PartialOrd>() -> spec_fn(T, T) -> bool {
    |a: T, b: T| a.is_le(&b)
}

/// The type's `<`, `<=`, `>` and `>=` compute what its order says.
pub open spec fn compares<T: PartialOrd>() -> bool {
    T::obeys_partial_cmp_spec()
}

/// `q` is in non-decreasing order by the relation `le`.
pub open spec fn nondecreasing<T>(le: spec_fn(T, T) -> bool, q: Seq<T>) -> bool {
    forall|i: int, j: int| 0 <= i < j < q.len() ==> le(#[trigger] q[i], #[trigger] q[j])
}

/// Any two values are related one way or the other, and the relation chains.
pub open spec fn total_preorder<T>(le: spec_fn(T, T) -> bool) -> bool {
    &&& forall|a: T, b: T| #[trigger] le(a, b) || le(b, a)
    &&& forall|a: T, b: T, c: T| #[trigger] le(a, b) && #[trigger] le(b, c) ==> le(a, c)
}

/// The type's comparison operators compute a total order.
pub open spec fn total_order<T: Ord>() -> bool {
    obeys_cmp::<T>()
}

/// The type's `==` computes equality of values.
pub open spec fn exact_equality<T: PartialEq>() -> bool {
    obeys_concrete_eq::<T>()
}

/// Under a total order `<`, `<=`, `>`, `>=` and `==` compute what the order
/// says.
pub proof fn lemma_total_order_decides<T: Ord>()
    requires
        total_order::<T>(),
    ensures
        T::obeys_partial_cmp_spec(),
        T::obeys_eq_spec(),
{
    reveal(obeys_cmp_partial_ord);
}

/// Under a total order with exact equality exactly one of `a < b`, `a == b`
/// and `a > b` holds, and `a > b` is `b < a`.
pub proof fn lemma_total_order_trichotomy<T: Ord>(a: T, b: T)
    requires
        total_order::<T>(),
        exact_equality::<T>(),
    ensures
        a.eq_spec(&b) <==> a == b,
        a.is_lt(&b) <==> b.is_gt(&a),
        a.is_gt(&b) <==> b.is_lt(&a),
        a == b || a.is_lt(&b) || a.is_gt(&b),
        !(a == b && a.is_lt(&b)),
        !(a == b && a.is_gt(&b)),
        !(a.is_lt(&b) && a.is_gt(&b)),
{
    reveal(obeys_partial_cmp_spec_properties);
    reveal(obeys_cmp_ord);
    reveal(obeys_concrete_eq);
}

/// Under a total order, `<` is a strict weak order.
pub proof fn lemma_ascending_is_strict_weak<T: Ord>()
    requires
        total_order::<T>(),
    ensures
        strict_weak_order(ascending::<T>()),
{
    reveal(obeys_eq_spec_properties);
    reveal(obeys_partial_cmp_spec_properties);
    reveal(obeys_cmp_ord);
}

/// Under a total order, `>` is a strict weak order.
pub proof fn lemma_descending_is_strict_weak<T: Ord>()
    requires
        total_order::<T>(),
    ensures
        strict_weak_order(descending::<T>()),
{
    reveal(obeys_eq_spec_properties);
    reveal(obeys_partial_cmp_spec_properties);
    reveal(obeys_cmp_ord);
}

} // verus!
