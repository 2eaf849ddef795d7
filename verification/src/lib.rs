//! A grow-only region allocator and two wrapping integer utilities, meant to
//! be embedded in a host that calls them.
//!
//! - [`add`] and [`sum`] add 32-bit integers with two's-complement
//!   wrap-around; [`wrapping`] holds the arithmetic that their contracts are
//!   stated in.
//! - [`bump::BumpAllocator`] hands out successive byte ranges of one
//!   contiguous region and never takes one back; [`region`] holds its model
//!   and the proofs that the ranges never overlap.

use vstd::prelude::*;

pub mod bump;
pub mod region;
pub mod wrapping;

use crate::wrapping::{fold_wrapping, lemma_fold_wrapping_total, total, wrap_i32};

verus! {

/// Adds two 32-bit integers. A sum that leaves the range of `i32` wraps
/// around; there is no failure.
pub fn add(a: i32, b: i32) -> (r: i32)
    ensures
        r == wrap_i32(a + b),
        i32::MIN <= a + b <= i32::MAX ==> r == a + b,
        a + b > i32::MAX ==> r == a + b - 0x1_0000_0000,
        a + b < i32::MIN ==> r == a + b + 0x1_0000_0000,
{
    a.wrapping_add(b)
}

/// Adds up the elements of `slice`, wrapping around as [`add`] does. The sum
/// of no elements is 0.
///
/// The result is the wrapped mathematical sum, so it is also what adding the
/// elements one by one gives, in the order of the slice or in any other.
pub fn sum(slice: &[i32]) -> (r: i32)
    ensures
        r == wrap_i32(total(slice@)),
        r == fold_wrapping(slice@),
        slice@.len() == 0 ==> r == 0,
        i32::MIN <= total(slice@) <= i32::MAX ==> r == total(slice@),
{
    let mut acc: i32 = 0;
    let mut i: usize = 0;
    while i < slice.len()
        invariant
            i <= slice.len(),
            acc == fold_wrapping(slice@.take(i as int)),
        decreases slice.len() - i,
    {
        proof {
            assert(slice@.take(i + 1).drop_last() =~= slice@.take(i as int));
        }
        acc = acc.wrapping_add(slice[i]);
        i = i + 1;
    }
    proof {
        assert(slice@.take(i as int) =~= slice@);
        lemma_fold_wrapping_total(slice@);
    }
    acc
}

} // verus!
