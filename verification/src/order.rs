//! Operations on the order of elements: reversal, rotation, symmetry.

use vstd::prelude::*;
use vstd::std_specs::cmp::PartialEqSpec;
use crate::model::{same, same_is_equal, values, values_append, values_push};
use crate::parts::clamp_to;

verus! {

/// Whether each of the first `k` elements of `s` is found equal to the one
/// that mirrors it: the element as far from the end as it is from the start.
pub open spec fn mirrors<T: PartialEq>(s: Seq<T>, k: int) -> bool {
    forall|i: int| 0 <= i < k ==> same(#[trigger] s[i], s[s.len() - 1 - i])
}

/// Whether `s` reads the same from both ends: every element of its first half
/// is found equal to its mirror.
pub open spec fn palindrome<T: PartialEq>(s: Seq<T>) -> bool {
    mirrors(s, s.len() as int / 2)
}

/// `s` rotated left: its first `min(n, len)` elements moved behind the rest.
pub open spec fn rotated<T>(s: Seq<T>, n: int) -> Seq<T>
    recommends
        0 <= n,
{
    let m = clamp_to(n, s.len() as int);
    s.skip(m) + s.take(m)
}

/// Returns the elements of `v` in opposite order.
pub fn reverse<T>(v: &[T]) -> (r: Vec<&T>)
    ensures
        values(r@) == v@.reverse(),
{
    let mut r: Vec<&T> = Vec::with_capacity(v.len());
    for e in it: v.iter().rev()
        invariant
            it.seq().len() == v@.len(),
            forall|i: int| 0 <= i < v@.len() ==> *it.seq()[i] == v@[v@.len() - 1 - i],
            values(r@) == v@.reverse().take(it.index() as int),
    {
        proof {
            values_push(r@, e);
        }
        r.push(e);
    }
    r
}

/// Tells whether `v` is a palindrome. Empty and one-element slices are.
pub fn is_palindrome<T: PartialEq>(v: &[T]) -> (r: bool)
    ensures
        T::obeys_eq_spec() ==> r == palindrome(v@),
{
    let n: usize = v.len();
    let mut r: bool = true;
    for i in 0..n / 2
        invariant
            n == v@.len(),
            T::obeys_eq_spec() ==> r == mirrors(v@, i as int),
    {
        r = r && v[i] == v[n - i - 1];
    }
    r
}

/// Rotates `v` left by `n` places: the first `n` elements move to the end.
/// A count beyond the length moves every element, which leaves the order as
/// it was.
pub fn rotate<T>(v: &[T], n: usize) -> (r: Vec<&T>)
    ensures
        values(r@) == rotated(v@, n as int),
{
    let mut r: Vec<&T> = Vec::new();
    let mut t: Vec<&T> = Vec::new();
    let mut k: usize = n;
    for e in it: v.iter()
        invariant
            it.seq().len() == v@.len(),
            forall|i: int| 0 <= i < v@.len() ==> *it.seq()[i] == v@[i],
            k == n - clamp_to(n as int, it.index() as int),
            values(t@) == v@.take(clamp_to(n as int, it.index() as int)),
            values(r@) == v@.subrange(clamp_to(n as int, it.index() as int), it.index() as int),
    {
        proof {
            values_push(t@, e);
            values_push(r@, e);
        }
        if k > 0 {
            t.push(e);
            k = k - 1;
        } else {
            r.push(e);
        }
    }
    proof {
        values_append(r@, t@);
    }
    r.append(&mut t);
    r
}

/// Reversal keeps the length and the elements, and undoes itself: reversing
/// twice gives the sequence back.
pub proof fn reverse_twice<T>(s: Seq<T>)
    ensures
        s.reverse().len() == s.len(),
        s.reverse().to_multiset() == s.to_multiset(),
        s.reverse().reverse() == s,
{
    s.lemma_reverse_to_multiset();
}

/// Where `==` is plain equality, a palindrome is a sequence that equals its
/// own reversal.
pub proof fn palindrome_is_own_reverse<T: PartialEq>(s: Seq<T>)
    requires
        same_is_equal::<T>(),
    ensures
        palindrome(s) <==> s.reverse() == s,
{
    if palindrome(s) {
        assert forall|i: int| 0 <= i < s.len() implies s.reverse()[i] == s[i] by {
            let j = s.len() - 1 - i;
            if i < s.len() / 2 {
                assert(same(s[i], s[s.len() - 1 - i]));
            } else if j < s.len() / 2 {
                assert(same(s[j], s[s.len() - 1 - j]));
            }
        }
        assert(s.reverse() =~= s);
    }
    if s.reverse() == s {
        assert forall|i: int| 0 <= i < s.len() / 2 implies same(
            #[trigger] s[i],
            s[s.len() - 1 - i],
        ) by {
            assert(s.reverse()[i] == s[s.len() - 1 - i]);
        }
    }
}

} // verus!
