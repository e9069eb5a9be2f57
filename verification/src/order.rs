//! Ordering strategies for the heap.
//!
//! A heap is parameterized by a comparison strategy: a value whose
//! `higher_priority` method decides which of two elements must sit closer to
//! the root. The strategy's behaviour is pinned down by the specification
//! relation `outranks`, and the heap's contracts demand that this relation is
//! consistent: asymmetric and negatively transitive. The two stock strategies,
//! `MinOrder` and `MaxOrder`, order any element type that implements
//! `StrictOrdered`.

use vstd::prelude::*;

verus! {

/// A comparison strategy: decides which of two elements must end up closer to
/// the root of the heap. A min-heap strategy answers "is `a` smaller than
/// `b`?", a max-heap strategy the reverse.
pub trait Comparator<T>: Sized {
    /// The mathematical relation that `higher_priority` decides.
    spec fn outranks(self, a: T, b: T) -> bool;

    /// Returns true when `a` must sit above `b` in the heap.
    fn higher_priority(&self, a: &T, b: &T) -> (r: bool)
        ensures
            r == self.outranks(*a, *b),
    ;
}

/// A comparator is consistent when its relation is asymmetric and negatively
/// transitive, i.e. a strict weak ordering. The heap property is well defined
/// exactly for such comparators.
pub open spec fn consistent<T, C: Comparator<T>>(c: C) -> bool {
    &&& forall|a: T, b: T| #[trigger] c.outranks(a, b) ==> !c.outranks(b, a)
    &&& forall|a: T, b: T, x: T|
        !#[trigger] c.outranks(a, b) && !#[trigger] c.outranks(b, x) ==> !c.outranks(a, x)
}

/// Asymmetry and negative transitivity together give ordinary transitivity.
pub proof fn lemma_consistent_transitive<T, C: Comparator<T>>(c: C, a: T, b: T, x: T)
    requires
        consistent(c),
        c.outranks(a, b),
        c.outranks(b, x),
    ensures
        c.outranks(a, x),
{
    if !c.outranks(a, x) {
        assert(!c.outranks(x, b));
        assert(!c.outranks(a, b));
    }
}

/// An element type with a strict total order, enough to build the default
/// min-heap and max-heap strategies.
pub trait StrictOrdered: Sized + Copy {
    /// The strict order relation, "self comes strictly before `other`".
    spec fn lt_spec(self, other: Self) -> bool;

    /// The order is asymmetric.
    proof fn lemma_asymmetric(a: Self, b: Self)
        requires
            a.lt_spec(b),
        ensures
            !b.lt_spec(a),
    ;

    /// The order is negatively transitive.
    proof fn lemma_negative_transitive(a: Self, b: Self, x: Self)
        requires
            !a.lt_spec(b),
            !b.lt_spec(x),
        ensures
            !a.lt_spec(x),
    ;

    /// Returns true when `self` comes strictly before `other`.
    fn lt(&self, other: &Self) -> (r: bool)
        ensures
            r == self.lt_spec(*other),
    ;
}

/// The min-heap strategy: smaller elements outrank larger ones.
#[derive(Clone, Copy)]
pub struct MinOrder;

/// The max-heap strategy: larger elements outrank smaller ones.
#[derive(Clone, Copy)]
pub struct MaxOrder;

impl<T: StrictOrdered> Comparator<T> for MinOrder {
    open spec fn outranks(self, a: T, b: T) -> bool {
        a.lt_spec(b)
    }

    fn higher_priority(&self, a: &T, b: &T) -> (r: bool) {
        a.lt(b)
    }
}

impl<T: StrictOrdered> Comparator<T> for MaxOrder {
    open spec fn outranks(self, a: T, b: T) -> bool {
        b.lt_spec(a)
    }

    fn higher_priority(&self, a: &T, b: &T) -> (r: bool) {
        b.lt(a)
    }
}

/// The min-heap strategy is consistent for every strictly ordered type.
pub proof fn lemma_min_order_consistent<T: StrictOrdered>()
    ensures
        consistent::<T, MinOrder>(MinOrder),
{
    assert forall|a: T, b: T| #[trigger] MinOrder.outranks(a, b) implies !MinOrder.outranks(
        b,
        a,
    ) by {
        T::lemma_asymmetric(a, b);
    }
    assert forall|a: T, b: T, x: T|
        !#[trigger] MinOrder.outranks(a, b) && !#[trigger] MinOrder.outranks(
            b,
            x,
        ) implies !MinOrder.outranks(a, x) by {
        T::lemma_negative_transitive(a, b, x);
    }
}

/// The max-heap strategy is consistent for every strictly ordered type.
pub proof fn lemma_max_order_consistent<T: StrictOrdered>()
    ensures
        consistent::<T, MaxOrder>(MaxOrder),
{
    assert forall|a: T, b: T| #[trigger] MaxOrder.outranks(a, b) implies !MaxOrder.outranks(
        b,
        a,
    ) by {
        T::lemma_asymmetric(b, a);
    }
    assert forall|a: T, b: T, x: T|
        !#[trigger] MaxOrder.outranks(a, b) && !#[trigger] MaxOrder.outranks(
            b,
            x,
        ) implies !MaxOrder.outranks(a, x) by {
        T::lemma_negative_transitive(x, b, a);
    }
}

impl StrictOrdered for i32 {
    open spec fn lt_spec(self, other: Self) -> bool {
        self < other
    }

    proof fn lemma_asymmetric(a: Self, b: Self) {
    }

    proof fn lemma_negative_transitive(a: Self, b: Self, x: Self) {
    }

    fn lt(&self, other: &Self) -> (r: bool) {
        *self < *other
    }
}

impl StrictOrdered for u64 {
    open spec fn lt_spec(self, other: Self) -> bool {
        self < other
    }

    proof fn lemma_asymmetric(a: Self, b: Self) {
    }

    proof fn lemma_negative_transitive(a: Self, b: Self, x: Self) {
    }

    fn lt(&self, other: &Self) -> (r: bool) {
        *self < *other
    }
}

impl StrictOrdered for usize {
    open spec fn lt_spec(self, other: Self) -> bool {
        self < other
    }

    proof fn lemma_asymmetric(a: Self, b: Self) {
    }

    proof fn lemma_negative_transitive(a: Self, b: Self, x: Self) {
    }

    fn lt(&self, other: &Self) -> (r: bool) {
        *self < *other
    }
}

} // verus!
