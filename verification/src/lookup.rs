//! Looking up single elements, and counting them.

use vstd::prelude::*;
use crate::model::value;

verus! {

/// The element at 0-based position `k` of `s`, absent when `k` is out of range.
pub open spec fn kth_of<T>(s: Seq<T>, k: int) -> Option<T> {
    if 0 <= k < s.len() {
        Some(s[k])
    } else {
        None
    }
}

/// The last element of `s`, absent when `s` is empty.
pub open spec fn last_of<T>(s: Seq<T>) -> Option<T> {
    if s.len() > 0 {
        Some(s.last())
    } else {
        None
    }
}

/// The element just before the last one, absent when `s` has fewer than two.
pub open spec fn next_to_last_of<T>(s: Seq<T>) -> Option<T> {
    if s.len() >= 2 {
        Some(s[s.len() - 2])
    } else {
        None
    }
}

/// Returns the last element of `v`, or `None` for an empty slice.
pub fn find_last<T>(v: &[T]) -> (r: Option<&T>)
    ensures
        value(r) == last_of(v@),
{
    let mut r: Option<&T> = None;
    for e in it: v.iter()
        invariant
            it.seq().len() == v@.len(),
            forall|i: int| 0 <= i < v@.len() ==> *it.seq()[i] == v@[i],
            value(r) == last_of(v@.take(it.index() as int)),
    {
        r = Some(e);
    }
    assert(v@.take(v@.len() as int) == v@);
    r
}

/// Returns the element before the last one, or `None` when `v` has fewer than
/// two elements. A window of two slots slides over the slice.
pub fn find_next_to_last<T>(v: &[T]) -> (r: Option<&T>)
    ensures
        value(r) == next_to_last_of(v@),
{
    let mut window: (Option<&T>, Option<&T>) = (None, None);
    for e in it: v.iter()
        invariant
            it.seq().len() == v@.len(),
            forall|i: int| 0 <= i < v@.len() ==> *it.seq()[i] == v@[i],
            value(window.0) == next_to_last_of(v@.take(it.index() as int)),
            value(window.1) == last_of(v@.take(it.index() as int)),
    {
        window = (window.1, Some(e));
    }
    assert(v@.take(v@.len() as int) == v@);
    window.0
}

/// Returns the element at 0-based position `k`, or `None` when `k` is not
/// below the length. The traversal stops as soon as position `k` is reached.
pub fn find_kth<T>(v: &[T], k: usize) -> (r: Option<&T>)
    ensures
        value(r) == kth_of(v@, k as int),
{
    let mut i: usize = 0;
    for e in it: v.iter()
        invariant
            it.seq().len() == v@.len(),
            forall|j: int| 0 <= j < v@.len() ==> *it.seq()[j] == v@[j],
            i == it.index(),
            i <= k,
    {
        if i == k {
            return Some(e);
        }
        i = i + 1;
    }
    None
}

/// Returns the number of elements of `v`, counted one traversal step at a time.
pub fn find_length<T>(v: &[T]) -> (n: usize)
    ensures
        n == v@.len(),
{
    let mut n: usize = 0;
    for _e in it: v.iter()
        invariant
            it.seq().len() == v.len(),
            n == it.index(),
    {
        n = n + 1;
    }
    n
}

/// The last element is the element at the last position: on a non-empty
/// sequence, looking up the last element and looking up position
/// `len - 1` give the same answer.
pub proof fn last_is_kth_at_end<T>(s: Seq<T>)
    requires
        s.len() > 0,
    ensures
        last_of(s) == kth_of(s, s.len() - 1),
        next_to_last_of(s) == kth_of(s, s.len() - 2),
{
}

} // verus!
