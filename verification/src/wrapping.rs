//! Two's-complement reduction of mathematical integers to `i32`, and the sum
//! of a sequence under it.
//!
//! Addition on `i32` wraps around: a result that leaves the range comes back
//! in at the other end. Here that rule is stated once, over `int`, as
//! [`wrap_i32`], and the facts that make it usable are proved: it leaves
//! values in range alone, it changes a value by a multiple of 2^32 only, and
//! reducing after every step gives the same result as reducing once at the
//! end.

use vstd::prelude::*;
use vstd::seq_lib::to_multiset_remove;

verus! {

/// The one value in the range of `i32` that differs from `n` by a multiple of
/// 2^32.
pub open spec fn wrap_i32(n: int) -> i32 {
    let r = n % 0x1_0000_0000;
    if r > i32::MAX {
        (r - 0x1_0000_0000) as i32
    } else {
        r as i32
    }
}

/// The sum of the elements of `s` as a mathematical integer; 0 for the empty
/// sequence.
pub open spec fn total(s: Seq<i32>) -> int
    decreases s.len(),
{
    if s.len() == 0 {
        0
    } else {
        total(s.drop_last()) + s.last()
    }
}

/// The result of adding the elements of `s` to 0 one by one, first to last,
/// wrapping after each addition.
pub open spec fn fold_wrapping(s: Seq<i32>) -> i32
    decreases s.len(),
{
    if s.len() == 0 {
        0
    } else {
        wrap_i32(fold_wrapping(s.drop_last()) + s.last())
    }
}

/// A value inside the range of `i32` is left as it is.
pub proof fn lemma_wrap_i32_in_range(n: int)
    requires
        i32::MIN <= n <= i32::MAX,
    ensures
        wrap_i32(n) == n,
{
}

/// Wrapping changes a value by a multiple of 2^32.
pub proof fn lemma_wrap_i32_congruent(n: int)
    ensures
        (wrap_i32(n) - n) % 0x1_0000_0000 == 0,
{
}

/// Nothing else in the range of `i32` differs from `n` by a multiple of 2^32.
pub proof fn lemma_wrap_i32_unique(n: int, v: i32)
    requires
        (v - n) % 0x1_0000_0000 == 0,
    ensures
        v == wrap_i32(n),
{
}

/// Wrapping a partial result and going on gives what wrapping at the end
/// gives.
pub proof fn lemma_wrap_i32_absorbs(x: int, y: int)
    ensures
        wrap_i32(wrap_i32(x) + y) == wrap_i32(x + y),
{
}

/// Wrapping addition is commutative and associative.
pub proof fn lemma_wrapping_add_laws(a: i32, b: i32, c: i32)
    ensures
        wrap_i32(a + b) == wrap_i32(b + a),
        wrap_i32(wrap_i32(a + b) + c) == wrap_i32(a + wrap_i32(b + c)),
{
    lemma_wrap_i32_absorbs(a + b, c as int);
    lemma_wrap_i32_absorbs(b + c, a as int);
}

/// Adding the elements first to last with wrapping at every step gives the
/// wrapped mathematical sum.
pub proof fn lemma_fold_wrapping_total(s: Seq<i32>)
    ensures
        fold_wrapping(s) == wrap_i32(total(s)),
    decreases s.len(),
{
    if s.len() > 0 {
        lemma_fold_wrapping_total(s.drop_last());
        lemma_wrap_i32_absorbs(total(s.drop_last()), s.last() as int);
    }
}

/// Taking one element out of a sequence lowers its sum by that element.
pub proof fn lemma_total_remove(s: Seq<i32>, k: int)
    requires
        0 <= k < s.len(),
    ensures
        total(s) == total(s.remove(k)) + s[k],
    decreases s.len(),
{
    if k == s.len() - 1 {
        assert(s.remove(k) =~= s.drop_last());
    } else {
        assert(s.remove(k).drop_last() =~= s.drop_last().remove(k));
        assert(s.remove(k).last() == s.last());
        lemma_total_remove(s.drop_last(), k);
    }
}

/// The sum does not depend on the order of the elements: two sequences with
/// the same elements, each as often in one as in the other, have the same
/// sum.
pub proof fn lemma_total_permutation(a: Seq<i32>, b: Seq<i32>)
    requires
        a.to_multiset() == b.to_multiset(),
    ensures
        total(a) == total(b),
        wrap_i32(total(a)) == wrap_i32(total(b)),
        fold_wrapping(a) == fold_wrapping(b),
    decreases a.len(),
{
    a.to_multiset_ensures();
    b.to_multiset_ensures();
    if a.len() > 0 {
        let last = a.len() - 1;
        let x = a[last];
        assert(a.contains(x));
        assert(a.to_multiset().count(x) > 0);
        assert(b.to_multiset().count(x) > 0);
        assert(b.contains(x));
        let k = choose|k: int| 0 <= k < b.len() && b[k] == x;
        to_multiset_remove(a, last);
        to_multiset_remove(b, k);
        lemma_total_permutation(a.remove(last), b.remove(k));
        lemma_total_remove(a, last);
        lemma_total_remove(b, k);
    }
    lemma_fold_wrapping_total(a);
    lemma_fold_wrapping_total(b);
}

} // verus!
