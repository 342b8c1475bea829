//! Runs of consecutive equal elements: collapsing, grouping, run-length coding.
//!
//! A run is grown greedily from its first element, its head: the next element
//! joins the run when `==` finds the head equal to it, and starts a new run
//! otherwise.

use vstd::prelude::*;
use vstd::std_specs::cmp::PartialEqSpec;
use crate::lookup::last_of;
use crate::model::{same, same_is_equal, value, values, values_push};
use crate::repeat::run;

verus! {

/// `s` with each run collapsed to its head.
pub open spec fn compressed<T: PartialEq>(s: Seq<T>) -> Seq<T>
    decreases s.len(),
{
    if s.len() == 0 {
        s
    } else {
        let heads = compressed(s.drop_last());
        if heads.len() > 0 && same(heads.last(), s.last()) {
            heads
        } else {
            heads.push(s.last())
        }
    }
}

/// Removes consecutive duplicates from `v`: of each run only the first
/// element stays. Equal elements that are not neighbours all stay.
pub fn compress<T: PartialEq>(v: &[T]) -> (r: Vec<&T>)
    ensures
        T::obeys_eq_spec() ==> values(r@) == compressed(v@),
{
    let mut r: Vec<&T> = Vec::new();
    let mut head: Option<&T> = None;
    for e in it: v.iter()
        invariant
            it.seq().len() == v@.len(),
            forall|i: int| 0 <= i < v@.len() ==> *it.seq()[i] == v@[i],
            value(head) == last_of(values(r@)),
            T::obeys_eq_spec() ==> values(r@) == compressed(v@.take(it.index() as int)),
    {
        proof {
            values_push(r@, e);
            assert(v@.take(it.index() + 1).drop_last() == v@.take(it.index() as int));
        }
        match head {
            Some(h) if *h == *e => {},
            _ => {
                r.push(e);
                head = Some(e);
            },
        }
    }
    assert(v@.take(v@.len() as int) == v@);
    r
}

/// `s` cut into its runs, in order.
pub open spec fn packed<T: PartialEq>(s: Seq<T>) -> Seq<Seq<T>>
    decreases s.len(),
{
    if s.len() == 0 {
        Seq::empty()
    } else {
        let runs = packed(s.drop_last());
        if runs.len() > 0 && same(runs.last()[0], s.last()) {
            runs.drop_last().push(runs.last().push(s.last()))
        } else {
            runs.push(seq![s.last()])
        }
    }
}

/// The elements of each group of `r`, in order.
pub open spec fn groups<T>(r: Seq<Vec<&T>>) -> Seq<Seq<T>> {
    r.map_values(|g: Vec<&T>| values(g@))
}

/// Groups the elements of `v` into its runs. No group is empty, and the
/// groups, joined in order, give `v` back.
pub fn pack<T: PartialEq>(v: &[T]) -> (r: Vec<Vec<&T>>)
    ensures
        forall|j: int| 0 <= j < r@.len() ==> (#[trigger] r@[j])@.len() > 0,
        groups(r@).flatten() == v@,
        T::obeys_eq_spec() ==> groups(r@) == packed(v@),
{
    let mut r: Vec<Vec<&T>> = Vec::new();
    let mut head: Option<&T> = None;
    for e in it: v.iter()
        invariant
            it.seq().len() == v@.len(),
            forall|i: int| 0 <= i < v@.len() ==> *it.seq()[i] == v@[i],
            forall|j: int| 0 <= j < r@.len() ==> (#[trigger] r@[j])@.len() > 0,
            head is Some <==> r@.len() > 0,
            r@.len() > 0 ==> value(head) == Some(*r@.last()@[0]),
            groups(r@).flatten() == v@.take(it.index() as int),
            T::obeys_eq_spec() ==> groups(r@) == packed(v@.take(it.index() as int)),
    {
        let ghost before = groups(r@);
        proof {
            assert(v@.take(it.index() + 1).drop_last() == v@.take(it.index() as int));
        }
        match head {
            Some(h) if *h == *e => {
                proof {
                    values_push(r@.last()@, e);
                    flatten_grown(before, *e);
                }
                r.last_mut().unwrap().push(e);
                assert(groups(r@) == before.drop_last().push(before.last().push(*e)));
            },
            _ => {
                proof {
                    flatten_started(before, *e);
                }
                let group: Vec<&T> = vec![e];
                assert(values(group@) == seq![*e]);
                r.push(group);
                assert(groups(r@) == before.push(seq![*e]));
                head = Some(e);
            },
        }
    }
    assert(v@.take(v@.len() as int) == v@);
    r
}

/// Growing the last of some groups by one element appends that element to
/// what the groups join to.
proof fn flatten_grown<T>(x: Seq<Seq<T>>, e: T)
    requires
        x.len() > 0,
    ensures
        x.drop_last().push(x.last().push(e)).flatten() == x.flatten().push(e),
{
    assert(x == x.drop_last().push(x.last()));
    x.drop_last().lemma_flatten_push(x.last());
    x.drop_last().lemma_flatten_push(x.last().push(e));
}

/// Starting a new group with one element appends that element to what the
/// groups join to.
proof fn flatten_started<T>(x: Seq<Seq<T>>, e: T)
    ensures
        x.push(seq![e]).flatten() == x.flatten().push(e),
{
    x.lemma_flatten_push(seq![e]);
}

/// One entry per group: how many elements it has, and its first one.
pub open spec fn run_entries<T>(runs: Seq<Seq<T>>) -> Seq<(nat, T)> {
    runs.map_values(|g: Seq<T>| (g.len(), g[0]))
}

/// The run-length code of `s`: for each run its length and its head.
pub open spec fn encoded<T: PartialEq>(s: Seq<T>) -> Seq<(nat, T)> {
    run_entries(packed(s))
}

/// What a run-length code stands for: each entry expanded to `count` copies
/// of its value, in order.
pub open spec fn decoded<T>(code: Seq<(nat, T)>) -> Seq<T> {
    code.map_values(|entry: (nat, T)| run(entry.0, entry.1)).flatten()
}

/// The entries of a run-length code that holds its values by reference.
pub open spec fn code_values<T>(r: Seq<(usize, &T)>) -> Seq<(nat, T)> {
    r.map_values(|entry: (usize, &T)| (entry.0 as nat, *entry.1))
}

/// The entries of a run-length code that owns its values.
pub open spec fn code_entries<T>(v: Seq<(usize, T)>) -> Seq<(nat, T)> {
    v.map_values(|entry: (usize, T)| (entry.0 as nat, entry.1))
}

/// Run-length encodes `v`: packs it, then keeps of each run its length and
/// its first element.
pub fn encode<T: PartialEq>(v: &[T]) -> (r: Vec<(usize, &T)>)
    ensures
        T::obeys_eq_spec() ==> code_values(r@) == encoded(v@),
{
    let runs: Vec<Vec<&T>> = pack(v);
    let mut r: Vec<(usize, &T)> = Vec::with_capacity(runs.len());
    for g in it: runs.iter()
        invariant
            it.seq().len() == runs@.len(),
            forall|i: int| 0 <= i < runs@.len() ==> *it.seq()[i] == runs@[i],
            forall|j: int| 0 <= j < runs@.len() ==> (#[trigger] runs@[j])@.len() > 0,
            code_values(r@) == run_entries(groups(runs@).take(it.index() as int)),
    {
        let ghost before = code_values(r@);
        r.push((g.len(), g[0]));
        proof {
            let i = it.index() as int;
            assert(code_values(r@) == before.push((g@.len(), *g@[0])));
            assert(values(g@)[0] == *g@[0]);
            assert(groups(runs@).take(i + 1) == groups(runs@).take(i).push(values(g@)));
            assert(run_entries(groups(runs@).take(i + 1)) == run_entries(
                groups(runs@).take(i),
            ).push((g@.len(), *g@[0])));
        }
    }
    assert(groups(runs@).take(runs@.len() as int) == groups(runs@));
    r
}

/// Decodes a run-length code: each entry `(count, value)` gives `count`
/// references to `value`.
pub fn decode<T>(v: &[(usize, T)]) -> (r: Vec<&T>)
    ensures
        values(r@) == decoded(code_entries(v@)),
{
    let mut r: Vec<&T> = Vec::new();
    for entry in it: v.iter()
        invariant
            it.seq().len() == v@.len(),
            forall|i: int| 0 <= i < v@.len() ==> *it.seq()[i] == v@[i],
            values(r@) == decoded(code_entries(v@).take(it.index() as int)),
    {
        let ghost done = values(r@);
        let n: usize = entry.0;
        let e: &T = &entry.1;
        for j in 0..n
            invariant
                values(r@) == done + run(j as nat, *e),
        {
            proof {
                values_push(r@, e);
            }
            r.push(e);
        }
        proof {
            let i = it.index() as int;
            let code = code_entries(v@);
            let expand = |entry: (nat, T)| run(entry.0, entry.1);
            assert(code.take(i + 1).map_values(expand) == code.take(i).map_values(expand).push(
                run(n as nat, *e),
            ));
            code.take(i).map_values(expand).lemma_flatten_push(run(n as nat, *e));
        }
    }
    assert(code_entries(v@).take(v@.len() as int) == code_entries(v@));
    r
}

/// No two neighbours in a compressed sequence are found equal.
pub proof fn compressed_neighbours_differ<T: PartialEq>(s: Seq<T>)
    ensures
        forall|i: int|
            0 <= i < compressed(s).len() - 1 ==> !same(
                #[trigger] compressed(s)[i],
                compressed(s)[i + 1],
            ),
    decreases s.len(),
{
    if s.len() > 0 {
        let heads = compressed(s.drop_last());
        compressed_neighbours_differ(s.drop_last());
        assert forall|i: int| 0 <= i < compressed(s).len() - 1 implies !same(
            #[trigger] compressed(s)[i],
            compressed(s)[i + 1],
        ) by {
            if i + 1 < heads.len() {
                assert(!same(heads[i], heads[i + 1]));
            }
        }
    }
}

/// What makes the groups of `packed` the runs of `s`: joined in order they
/// give `s` back, none is empty, each holds only elements that its head is
/// found equal to, and the head of a group is not found equal to the head of
/// the next.
pub proof fn packed_is_runs<T: PartialEq>(s: Seq<T>)
    ensures
        packed(s).flatten() == s,
        forall|j: int| 0 <= j < packed(s).len() ==> (#[trigger] packed(s)[j]).len() > 0,
        forall|j: int, k: int|
            0 <= j < packed(s).len() && 0 < k < packed(s)[j].len() ==> same(
                packed(s)[j][0],
                #[trigger] packed(s)[j][k],
            ),
        forall|j: int|
            0 <= j < packed(s).len() - 1 ==> !same(
                (#[trigger] packed(s)[j])[0],
                packed(s)[j + 1][0],
            ),
    decreases s.len(),
{
    if s.len() == 0 {
        assert(packed(s).flatten() == s);
    } else {
        let runs = packed(s.drop_last());
        packed_is_runs(s.drop_last());
        assert(s == s.drop_last().push(s.last()));
        if runs.len() > 0 && same(runs.last()[0], s.last()) {
            flatten_grown(runs, s.last());
        } else {
            flatten_started(runs, s.last());
        }
        assert forall|j: int, k: int|
            0 <= j < packed(s).len() && 0 < k < packed(s)[j].len() implies same(
            packed(s)[j][0],
            #[trigger] packed(s)[j][k],
        ) by {
            if j < runs.len() && k < runs[j].len() {
                assert(same(runs[j][0], runs[j][k]));
            }
        }
        assert forall|j: int| 0 <= j < packed(s).len() - 1 implies !same(
            (#[trigger] packed(s)[j])[0],
            packed(s)[j + 1][0],
        ) by {
            if j + 1 < runs.len() {
                assert(!same(runs[j][0], runs[j + 1][0]));
            }
        }
    }
}

/// Compressing keeps one element of each run: the compressed sequence is made
/// of the heads of the packed groups.
pub proof fn compressed_is_heads_of_packed<T: PartialEq>(s: Seq<T>)
    ensures
        compressed(s) == packed(s).map_values(|g: Seq<T>| g[0]),
    decreases s.len(),
{
    if s.len() > 0 {
        compressed_is_heads_of_packed(s.drop_last());
        packed_is_runs(s.drop_last());
    }
    assert(compressed(s) =~= packed(s).map_values(|g: Seq<T>| g[0]));
}

/// Decoding a code with one more entry of count 1 appends that entry's value.
proof fn decoded_started<T>(code: Seq<(nat, T)>, x: T)
    ensures
        decoded(code.push((1, x))) == decoded(code).push(x),
{
    let expand = |entry: (nat, T)| run(entry.0, entry.1);
    assert(code.push((1, x)).map_values(expand) == code.map_values(expand).push(run(1, x)));
    code.map_values(expand).lemma_flatten_push(run(1, x));
    assert(run(1, x) == seq![x]);
}

/// Decoding a code whose last count is one higher appends the last value once.
proof fn decoded_grown<T>(code: Seq<(nat, T)>)
    requires
        code.len() > 0,
    ensures
        decoded(code.drop_last().push((code.last().0 + 1, code.last().1))) == decoded(code).push(
            code.last().1,
        ),
{
    let expand = |entry: (nat, T)| run(entry.0, entry.1);
    let (count, x) = code.last();
    let front = code.drop_last().map_values(expand);
    assert(code.map_values(expand) == front.push(run(count, x)));
    assert(code.drop_last().push((count + 1, x)).map_values(expand) == front.push(
        run(count + 1, x),
    ));
    front.lemma_flatten_push(run(count, x));
    front.lemma_flatten_push(run(count + 1, x));
    assert(run(count + 1, x) == run(count, x).push(x));
}

/// Encoding and decoding again gives the sequence back up to `==`: the result
/// has the length of `s`, and holds at each position either the element of
/// `s` itself or one that `==` finds equal to it, namely the head of its run.
/// Where `==` is plain equality, the result is `s`.
pub proof fn decode_inverts_encode<T: PartialEq>(s: Seq<T>)
    ensures
        decoded(encoded(s)).len() == s.len(),
        forall|i: int|
            0 <= i < s.len() ==> (#[trigger] decoded(encoded(s))[i]) == s[i] || same(
                decoded(encoded(s))[i],
                s[i],
            ),
        same_is_equal::<T>() ==> decoded(encoded(s)) == s,
    decreases s.len(),
{
    if s.len() == 0 {
        assert(decoded(encoded(s)) == s);
    } else {
        let runs = packed(s.drop_last());
        let code = run_entries(runs);
        decode_inverts_encode(s.drop_last());
        packed_is_runs(s.drop_last());
        if runs.len() > 0 && same(runs.last()[0], s.last()) {
            assert(encoded(s) == code.drop_last().push((code.last().0 + 1, code.last().1)));
            decoded_grown(code);
        } else {
            assert(encoded(s) == code.push((1, s.last())));
            decoded_started(code, s.last());
        }
        if same_is_equal::<T>() {
            assert(decoded(encoded(s)) =~= s);
        }
    }
}

} // verus!
