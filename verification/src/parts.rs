//! Cutting a sequence into parts, and taking single elements out or in.

use vstd::prelude::*;
use vstd::arithmetic::div_mod::{lemma_fundamental_div_mod, lemma_fundamental_div_mod_converse};
use crate::lookup::kth_of;
use crate::model::{value, values, values_push};

verus! {

/// `n` narrowed to the positions of a sequence of length `len`.
pub open spec fn clamp_to(n: int, len: int) -> int {
    if n < len {
        n
    } else {
        len
    }
}

/// The elements of `s` at positions `i <= p < j` that exist in `s`.
pub open spec fn slice_of<T>(s: Seq<T>, i: int, j: int) -> Seq<T>
    recommends
        0 <= i,
{
    let end = clamp_to(j, s.len() as int);
    if i < end {
        s.subrange(i, end)
    } else {
        Seq::empty()
    }
}

/// `s` without the element at position `k`; `s` itself when there is none.
pub open spec fn without_kth<T>(s: Seq<T>, k: int) -> Seq<T> {
    if 0 <= k < s.len() {
        s.remove(k)
    } else {
        s
    }
}

/// `s` with `t` put before position `k`, or at the end when `k` is not a
/// position of `s`.
pub open spec fn with_inserted<T>(s: Seq<T>, t: T, k: int) -> Seq<T>
    recommends
        0 <= k,
{
    s.insert(clamp_to(k, s.len() as int), t)
}

/// Whether 0-based position `p` is dropped when every `n`-th element goes:
/// its 1-based position `p + 1` is a multiple of `n`. Nothing is dropped for
/// `n == 0`, since no position from 1 on is a multiple of 0.
pub open spec fn dropped_at(p: int, n: int) -> bool {
    n > 0 && (p + 1) % n == 0
}

/// `s` without the elements at the dropped positions.
pub open spec fn drop_nth_of<T>(s: Seq<T>, n: int) -> Seq<T>
    decreases s.len(),
{
    if s.len() == 0 {
        s
    } else if dropped_at(s.len() - 1, n) {
        drop_nth_of(s.drop_last(), n)
    } else {
        drop_nth_of(s.drop_last(), n).push(s.last())
    }
}

/// A countdown that starts at `n` and restarts on reaching 1 stands at 1
/// exactly at the dropped positions: `k` is the countdown at position `p`,
/// after `q` full rounds.
proof fn countdown_marks_dropped(p: int, n: int, q: int, k: int)
    requires
        1 <= k <= n,
        p == q * n + (n - k),
    ensures
        dropped_at(p, n) <==> k == 1,
{
    if k == 1 {
        assert(p + 1 == (q + 1) * n + 0) by (nonlinear_arith)
            requires
                p == q * n + (n - 1),
        ;
        lemma_fundamental_div_mod_converse(p + 1, n, q + 1, 0);
    } else {
        lemma_fundamental_div_mod_converse(p + 1, n, q, n - k + 1);
    }
}

/// Drops every `n`-th element of `v`: the `n`-th, the `2n`-th and so on,
/// counting from 1. With `n == 0` nothing is dropped.
pub fn drop_nth<T>(v: &[T], n: usize) -> (r: Vec<&T>)
    ensures
        values(r@) == drop_nth_of(v@, n as int),
{
    let mut r: Vec<&T> = Vec::new();
    let mut k: usize = n;
    let ghost mut rounds: int = 0;
    for e in it: v.iter()
        invariant
            it.seq().len() == v@.len(),
            forall|i: int| 0 <= i < v@.len() ==> *it.seq()[i] == v@[i],
            n == 0 ==> k == 0,
            n > 0 ==> 1 <= k <= n && it.index() == rounds * n + (n - k),
            values(r@) == drop_nth_of(v@.take(it.index() as int), n as int),
    {
        proof {
            let p = it.index() as int;
            values_push(r@, e);
            assert(v@.take(p + 1).drop_last() == v@.take(p));
            if n > 0 {
                countdown_marks_dropped(p, n as int, rounds, k as int);
            }
        }
        if k == 1 {
            proof {
                assert((rounds + 1) * n == rounds * n + n) by (nonlinear_arith);
                rounds = rounds + 1;
            }
            k = n;
        } else {
            r.push(e);
            if k > 0 {
                k = k - 1;
            }
        }
    }
    assert(v@.take(v@.len() as int) == v@);
    r
}

/// Splits `v` into its first `min(n, len)` elements and the rest.
pub fn split<T>(v: &[T], n: usize) -> (r: (Vec<&T>, Vec<&T>))
    ensures
        values(r.0@) == v@.take(clamp_to(n as int, v@.len() as int)),
        values(r.1@) == v@.skip(clamp_to(n as int, v@.len() as int)),
{
    let mut a: Vec<&T> = Vec::new();
    let mut b: Vec<&T> = Vec::new();
    let mut k: usize = n;
    for e in it: v.iter()
        invariant
            it.seq().len() == v@.len(),
            forall|i: int| 0 <= i < v@.len() ==> *it.seq()[i] == v@[i],
            k == n - clamp_to(n as int, it.index() as int),
            values(a@) == v@.take(clamp_to(n as int, it.index() as int)),
            values(b@) == v@.subrange(clamp_to(n as int, it.index() as int), it.index() as int),
    {
        proof {
            values_push(a@, e);
            values_push(b@, e);
        }
        if k > 0 {
            a.push(e);
            k = k - 1;
        } else {
            b.push(e);
        }
    }
    (a, b)
}

/// Returns the part of `v` at positions `i <= p < j`. An upper bound beyond
/// the end is narrowed to the length; the result is empty when no position
/// lies in the range.
pub fn slice<T>(v: &[T], i: usize, j: usize) -> (r: &[T])
    ensures
        r@ == slice_of(v@, i as int, j as int),
{
    let n: usize = v.len();
    let k: usize = if j > n { n } else { j };
    if i < k {
        &v[i..k]
    } else {
        &v[0..0]
    }
}

/// Removes the element at position `k`. Returns the remaining elements and the
/// removed one; when `k` is not a position of `v`, nothing is removed.
pub fn remove_kth<T>(v: &[T], k: usize) -> (r: (Vec<&T>, Option<&T>))
    ensures
        values(r.0@) == without_kth(v@, k as int),
        value(r.1) == kth_of(v@, k as int),
{
    let mut rest: Vec<&T> = Vec::new();
    let mut taken: Option<&T> = None;
    let mut j: usize = 0;
    for e in it: v.iter()
        invariant
            it.seq().len() == v.len(),
            forall|i: int| 0 <= i < v@.len() ==> *it.seq()[i] == v@[i],
            j == it.index(),
            values(rest@) == without_kth(v@.take(j as int), k as int),
            value(taken) == kth_of(v@.take(j as int), k as int),
    {
        proof {
            values_push(rest@, e);
            assert(v@.take(j + 1) == v@.take(j as int).push(*e));
        }
        if j == k {
            taken = Some(e);
        } else {
            rest.push(e);
        }
        j = j + 1;
    }
    assert(v@.take(v@.len() as int) == v@);
    (rest, taken)
}

/// Puts `t` before position `k` of `v`, or behind the last element when `k`
/// is not a position of `v`.
pub fn insert_at<'a, T>(v: &'a [T], t: &'a T, k: usize) -> (r: Vec<&'a T>)
    ensures
        values(r@) == with_inserted(v@, *t, k as int),
{
    let mut r: Vec<&'a T> = Vec::new();
    let mut i: usize = 0;
    for e in it: v.iter()
        invariant
            it.seq().len() == v.len(),
            forall|j: int| 0 <= j < v@.len() ==> *it.seq()[j] == v@[j],
            i == it.index(),
            values(r@) == if k < i {
                v@.take(i as int).insert(k as int, *t)
            } else {
                v@.take(i as int)
            },
    {
        if i == k {
            proof {
                values_push(r@, t);
            }
            r.push(t);
        }
        proof {
            values_push(r@, e);
            assert(v@.take(i + 1) == v@.take(i as int).push(*e));
        }
        r.push(e);
        i = i + 1;
    }
    assert(v@.take(v@.len() as int) == v@);
    if k >= v.len() {
        proof {
            values_push(r@, t);
        }
        r.push(t);
    }
    r
}

/// How many elements stay: of `len` elements, `len / n` stand at a multiple of
/// `n` and go. With `n == 0` all of them stay.
pub proof fn drop_nth_len<T>(s: Seq<T>, n: nat)
    ensures
        n == 0 ==> drop_nth_of(s, n as int) == s,
        n > 0 ==> drop_nth_of(s, n as int).len() == s.len() - s.len() / n,
    decreases s.len(),
{
    if s.len() > 0 {
        let len = s.len() as int;
        let n = n as int;
        drop_nth_len(s.drop_last(), n as nat);
        if n == 0 {
            assert(s.drop_last().push(s.last()) == s);
        } else {
            let q = len / n;
            lemma_fundamental_div_mod(len, n);
            if len % n == 0 {
                assert(len - 1 == (q - 1) * n + (n - 1)) by (nonlinear_arith)
                    requires
                        len == n * q,
                ;
                lemma_fundamental_div_mod_converse(len - 1, n, q - 1, n - 1);
            } else {
                assert(len - 1 == q * n + (len % n - 1)) by (nonlinear_arith)
                    requires
                        len == n * q + len % n,
                ;
                lemma_fundamental_div_mod_converse(len - 1, n, q, len % n - 1);
            }
        }
    }
}

/// Splitting and joining again gives the sequence back: the two parts that
/// `split` returns, first then second, concatenate to the whole.
pub proof fn split_parts_join<T>(s: Seq<T>, n: nat)
    ensures
        s.take(clamp_to(n as int, s.len() as int)) + s.skip(clamp_to(n as int, s.len() as int))
            == s,
{
}

} // verus!
