//! Arithmetic shared by the limits and the counters.

use vstd::prelude::*;

verus! {

/// `n`, or the largest `usize` where `n` does not fit.
pub open spec fn saturate(n: int) -> usize {
    if n > usize::MAX {
        usize::MAX
    } else {
        n as usize
    }
}

/// The larger of two numbers.
pub open spec fn larger(a: usize, b: usize) -> usize {
    if a >= b {
        a
    } else {
        b
    }
}

/// The smaller of two numbers.
pub open spec fn smaller(a: usize, b: usize) -> usize {
    if a <= b {
        a
    } else {
        b
    }
}

/// The counter value after one more; the counter starts over after its
/// largest value.
pub open spec fn one_more(n: u64) -> u64 {
    if n == u64::MAX {
        0
    } else {
        (n + 1) as u64
    }
}

/// The counter value after one less, at least zero.
pub open spec fn one_less(n: u64) -> u64 {
    if n == 0 {
        0
    } else {
        (n - 1) as u64
    }
}

/// Product of `a` and `b`, saturating at `usize::MAX`.
pub fn saturating_product(a: usize, b: usize) -> (product: usize)
    ensures
        product == saturate(a * b),
{
    proof {
        assert(a * b >= 0) by (nonlinear_arith)
            requires
                a >= 0,
                b >= 0,
        ;
    }
    match a.checked_mul(b) {
        Some(product) => product,
        None => usize::MAX,
    }
}

/// The larger of `a` and `b`.
pub fn larger_of(a: usize, b: usize) -> (m: usize)
    ensures
        m == larger(a, b),
{
    if a >= b {
        a
    } else {
        b
    }
}

/// The smaller of `a` and `b`.
pub fn smaller_of(a: usize, b: usize) -> (m: usize)
    ensures
        m == smaller(a, b),
{
    if a <= b {
        a
    } else {
        b
    }
}

/// The larger of two numbers is one of them and no smaller than either; the
/// smaller one is one of them and no larger.
pub proof fn extremes_bound_both(a: usize, b: usize)
    ensures
        larger(a, b) >= a,
        larger(a, b) >= b,
        larger(a, b) == a || larger(a, b) == b,
        smaller(a, b) <= a,
        smaller(a, b) <= b,
        smaller(a, b) == a || smaller(a, b) == b,
{
}

/// A number that fits a machine word stays as it is; one that does not becomes
/// the largest that does.
pub proof fn saturating_keeps_what_fits(n: int)
    ensures
        0 <= n <= usize::MAX ==> saturate(n) == n,
        n > usize::MAX ==> saturate(n) == usize::MAX,
{
}

/// One more and one less undo each other between the ends of the range; below
/// zero there is nothing, and after the largest value comes zero.
pub proof fn counters_step_by_one(n: u64)
    ensures
        n < u64::MAX ==> one_more(n) == n + 1,
        one_more(u64::MAX) == 0,
        n > 0 ==> one_less(n) + 1 == n,
        one_less(0) == 0,
{
}

} // verus!
