//! Repeating elements, and joining sequences of sequences.

use vstd::prelude::*;
use vstd::arithmetic::div_mod::{
    lemma_div_pos_is_pos, lemma_fundamental_div_mod_converse, lemma_multiply_divide_lt,
};
use crate::model::{values, values_push};

verus! {

/// `count` copies of `value`.
pub open spec fn run<T>(count: nat, value: T) -> Seq<T> {
    Seq::new(count, |i: int| value)
}

/// `s` with every element standing `n` times in a row: position `p` of the
/// result holds element `p / n` of `s`.
pub open spec fn repeated<T>(s: Seq<T>, n: nat) -> Seq<T> {
    Seq::new(s.len() * n, |p: int| s[p / n as int])
}

/// The contents of each slice of `v`, in order.
pub open spec fn rows<T>(v: Seq<&[T]>) -> Seq<Seq<T>> {
    v.map_values(|row: &[T]| row@)
}

/// Repeating one element more appends one run of it.
pub proof fn repeated_push<T>(s: Seq<T>, x: T, n: nat)
    ensures
        repeated(s.push(x), n) == repeated(s, n) + run(n, x),
{
    let len = s.len() as int;
    let n = n as int;
    assert((len + 1) * n == len * n + n) by (nonlinear_arith);
    assert forall|p: int| 0 <= p < (len + 1) * n implies #[trigger] repeated(s.push(x), n as nat)[p]
        == (repeated(s, n as nat) + run(n as nat, x))[p] by {
        if p < len * n {
            assert(n * len == len * n) by (nonlinear_arith);
            lemma_div_pos_is_pos(p, n);
            lemma_multiply_divide_lt(p, n, len);
        } else {
            lemma_fundamental_div_mod_converse(p, n, len, p - len * n);
        }
    }
    assert(repeated(s.push(x), n as nat) =~= repeated(s, n as nat) + run(n as nat, x));
}

/// Returns the elements of all slices of `v`, slice by slice, in order.
pub fn flatten<'a, T>(v: &[&'a [T]]) -> (r: Vec<&'a T>)
    ensures
        values(r@) == rows(v@).flatten(),
{
    let mut r: Vec<&'a T> = Vec::new();
    for row in rows_it: v.iter()
        invariant
            rows_it.seq().len() == v@.len(),
            forall|i: int| 0 <= i < v@.len() ==> *rows_it.seq()[i] == v@[i],
            values(r@) == rows(v@).take(rows_it.index() as int).flatten(),
    {
        let ghost done = values(r@);
        for e in it: row.iter()
            invariant
                it.seq().len() == row@.len(),
                forall|i: int| 0 <= i < row@.len() ==> *it.seq()[i] == row@[i],
                values(r@) == done + row@.take(it.index() as int),
        {
            proof {
                values_push(r@, e);
            }
            r.push(e);
        }
        proof {
            let i = rows_it.index() as int;
            assert(row@.take(row@.len() as int) == row@);
            assert(rows(v@).take(i + 1) == rows(v@).take(i).push(row@));
            rows(v@).take(i).lemma_flatten_push(row@);
        }
    }
    assert(rows(v@).take(v@.len() as int) == rows(v@));
    r
}

/// Returns `v` with every element standing twice in a row.
pub fn duplicate<T>(v: &[T]) -> (r: Vec<&T>)
    ensures
        values(r@) == repeated(v@, 2),
{
    let mut r: Vec<&T> = Vec::new();
    for e in it: v.iter()
        invariant
            it.seq().len() == v@.len(),
            forall|i: int| 0 <= i < v@.len() ==> *it.seq()[i] == v@[i],
            values(r@) == repeated(v@.take(it.index() as int), 2),
    {
        proof {
            let i = it.index() as int;
            values_push(r@, e);
            values_push(r@.push(e), e);
            assert(v@.take(i + 1) == v@.take(i).push(*e));
            repeated_push(v@.take(i), *e, 2);
            assert(run(2, *e) == seq![*e, *e]);
        }
        r.push(e);
        r.push(e);
    }
    assert(v@.take(v@.len() as int) == v@);
    r
}

/// Returns `v` with every element standing `n` times in a row; with `n == 0`
/// the result is empty.
pub fn duplicate_times<T>(v: &[T], n: usize) -> (r: Vec<&T>)
    ensures
        values(r@) == repeated(v@, n as nat),
{
    let mut r: Vec<&T> = Vec::new();
    for e in it: v.iter()
        invariant
            it.seq().len() == v@.len(),
            forall|i: int| 0 <= i < v@.len() ==> *it.seq()[i] == v@[i],
            values(r@) == repeated(v@.take(it.index() as int), n as nat),
    {
        let ghost done = values(r@);
        for j in 0..n
            invariant
                values(r@) == done + run(j as nat, *e),
        {
            proof {
                values_push(r@, e);
            }
            r.push(e);
        }
        proof {
            let i = it.index() as int;
            assert(v@.take(i + 1) == v@.take(i).push(*e));
            repeated_push(v@.take(i), *e, n as nat);
        }
    }
    assert(v@.take(v@.len() as int) == v@);
    r
}

} // verus!
