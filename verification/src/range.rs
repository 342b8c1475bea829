//! Ranges of consecutive integers.

use vstd::prelude::*;

verus! {

/// The integers from `begin` up to, and without, `end`, in rising order;
/// empty when `begin` is not below `end`.
pub open spec fn range_seq(begin: u32, end: u32) -> Seq<u32> {
    Seq::new(
        if begin < end {
            (end - begin) as nat
        } else {
            0
        },
        |k: int| (begin + k) as u32,
    )
}

/// Returns the integers `begin, begin + 1, ..` below `end`.
pub fn range_of(begin: u32, end: u32) -> (r: Vec<u32>)
    ensures
        r@ == range_seq(begin, end),
{
    let mut r: Vec<u32> = Vec::new();
    if begin < end {
        let mut i: u32 = begin;
        while i < end
            invariant
                begin <= i <= end,
                r@ == range_seq(begin, i),
            decreases end - i,
        {
            r.push(i);
            i += 1;
        }
    }
    r
}

} // verus!
