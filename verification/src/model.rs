//! The vocabulary of the contracts: views that turn results holding references
//! into plain mathematical values, and the relation that `==` stands for.

use vstd::prelude::*;
use vstd::std_specs::cmp::PartialEqSpec;

verus! {

/// The elements that a sequence of references points at, in order.
pub open spec fn values<T>(r: Seq<&T>) -> Seq<T> {
    r.map_values(|e: &T| *e)
}

/// The element that an optional reference points at, if there is one.
pub open spec fn value<T>(r: Option<&T>) -> Option<T> {
    match r {
        Some(e) => Some(*e),
        None => None,
    }
}

/// Whether the element type's `==` finds `a` equal to `b`.
///
/// This is the relation that every comparing operation is specified over. It
/// is whatever the element type declares for `==`; the contracts ask nothing
/// more of it, not even that it be symmetric or transitive.
pub open spec fn same<T: PartialEq>(a: T, b: T) -> bool {
    a.eq_spec(&b)
}

/// Whether the element type's `==` is plain equality of values.
pub open spec fn same_is_equal<T: PartialEq>() -> bool {
    forall|a: T, b: T| #[trigger] same(a, b) <==> a == b
}

/// Appending a reference appends the element it points at.
pub proof fn values_push<T>(r: Seq<&T>, e: &T)
    ensures
        values(r.push(e)) == values(r).push(*e),
{
}

/// Concatenating references concatenates the elements they point at.
pub proof fn values_append<T>(a: Seq<&T>, b: Seq<&T>)
    ensures
        values(a + b) == values(a) + values(b),
{
}

} // verus!
