//! The total order behind the comparison operators of an ordered type.

use std::cmp::Ordering;
use vstd::laws_cmp::{obeys_cmp, obeys_cmp_ord, obeys_cmp_partial_ord, obeys_partial_cmp_spec_properties};
use vstd::laws_eq::obeys_eq_spec_properties;
use vstd::prelude::*;
use vstd::std_specs::cmp::{OrdSpec, PartialEqSpec, PartialOrdSpec};

verus! {

/// The comparisons of `T` form a total order that the operators `<`, `<=`,
/// `>` and `>=` follow.
pub open spec fn total_order<T: Ord>() -> bool {
    obeys_cmp::<T>()
}

/// `a` does not come after `b`.
pub open spec fn le<T: Ord>(a: T, b: T) -> bool {
    a.cmp_spec(&b) != Ordering::Greater
}

/// No element of `s` comes after a later one.
pub open spec fn sorted<T: Ord>(s: Seq<T>) -> bool {
    forall|i: int, j: int| 0 <= i < j < s.len() ==> le(s[i], s[j])
}

/// What `a < b` evaluates to.
pub open spec fn op_lt<T: Ord>(a: T, b: T) -> bool {
    a.partial_cmp_spec(&b) == Some(Ordering::Less)
}

/// What `a <= b` evaluates to.
pub open spec fn op_le<T: Ord>(a: T, b: T) -> bool {
    a.partial_cmp_spec(&b) matches Some(Ordering::Less | Ordering::Equal)
}

/// What `a > b` evaluates to.
pub open spec fn op_gt<T: Ord>(a: T, b: T) -> bool {
    a.partial_cmp_spec(&b) == Some(Ordering::Greater)
}

/// What `a >= b` evaluates to.
pub open spec fn op_ge<T: Ord>(a: T, b: T) -> bool {
    a.partial_cmp_spec(&b) matches Some(Ordering::Greater | Ordering::Equal)
}

/// What the comparison operators return on `a` and `b`, in terms of `le`.
pub proof fn lemma_operators<T: Ord>(a: T, b: T)
    requires
        total_order::<T>(),
    ensures
        T::obeys_partial_cmp_spec(),
        op_le(a, b) == le(a, b),
        op_gt(a, b) == !le(a, b),
        op_lt(a, b) == !le(b, a),
        op_ge(a, b) == le(b, a),
{
    reveal(obeys_cmp_ord);
    reveal(obeys_cmp_partial_ord);
    reveal(obeys_partial_cmp_spec_properties);
    assert(a.partial_cmp_spec(&b) == Some(a.cmp_spec(&b)));
    assert(b.partial_cmp_spec(&a) == Some(b.cmp_spec(&a)));
}

/// Of two elements, one does not come after the other.
pub proof fn lemma_le_total<T: Ord>(a: T, b: T)
    requires
        total_order::<T>(),
    ensures
        le(a, b) || le(b, a),
{
    lemma_operators(a, b);
}

/// Nothing comes after itself.
pub proof fn lemma_le_reflexive<T: Ord>(a: T)
    requires
        total_order::<T>(),
    ensures
        le(a, a),
{
    lemma_operators(a, a);
}

/// `le` is transitive.
pub proof fn lemma_le_transitive<T: Ord>(a: T, b: T, c: T)
    requires
        total_order::<T>(),
        le(a, b),
        le(b, c),
    ensures
        le(a, c),
{
    reveal(obeys_cmp_ord);
    reveal(obeys_cmp_partial_ord);
    reveal(obeys_partial_cmp_spec_properties);
    reveal(obeys_eq_spec_properties);
    assert(a.partial_cmp_spec(&b) == Some(a.cmp_spec(&b)));
    assert(b.partial_cmp_spec(&c) == Some(b.cmp_spec(&c)));
    assert(a.partial_cmp_spec(&c) == Some(a.cmp_spec(&c)));
    assert(c.partial_cmp_spec(&a) == Some(c.cmp_spec(&a)));
    assert(b.partial_cmp_spec(&a) == Some(b.cmp_spec(&a)));
    assert(c.partial_cmp_spec(&b) == Some(c.cmp_spec(&b)));
    if a.cmp_spec(&c) == Ordering::Greater {
        assert(c.partial_cmp_spec(&a) == Some(Ordering::Less));
        if a.cmp_spec(&b) == Ordering::Less {
            assert(c.partial_cmp_spec(&b) == Some(Ordering::Less));
        } else if b.cmp_spec(&c) == Ordering::Less {
            assert(b.partial_cmp_spec(&a) == Some(Ordering::Less));
        } else {
            assert(a.eq_spec(&b) && b.eq_spec(&c));
            assert(a.eq_spec(&c));
        }
    }
}

} // verus!
