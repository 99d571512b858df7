//! Integer square roots, rounded up.

use vstd::prelude::*;

verus! {

/// `r` is the least natural number whose square is at least `n`.
pub open spec fn is_ceil_sqrt(n: int, r: int) -> bool {
    &&& 0 <= r
    &&& n <= r * r
    &&& r > 0 ==> (r - 1) * (r - 1) < n
}

/// The square root of `n`, rounded up to a whole number; 0 for `n <= 0`.
pub open spec fn ceil_sqrt(n: int) -> int {
    choose|r: int| is_ceil_sqrt(n, r)
}

/// Squaring keeps the order of natural numbers.
pub proof fn lemma_square_monotone(a: int, b: int)
    requires
        0 <= a <= b,
    ensures
        a * a <= b * b,
{
    assert(a * a <= b * b) by (nonlinear_arith)
        requires
            0 <= a <= b,
    ;
}

/// Every integer has a rounded-up square root.
proof fn lemma_ceil_sqrt_exists(n: int) -> (r: int)
    ensures
        is_ceil_sqrt(n, r),
    decreases n,
{
    if n <= 0 {
        0
    } else {
        let p = lemma_ceil_sqrt_exists(n - 1);
        if n <= p * p {
            if p > 0 {
            } else {
                assert(p * p == 0);
            }
            p
        } else {
            assert((p + 1) * (p + 1) == p * p + 2 * p + 1) by (nonlinear_arith);
            assert((p + 1 - 1) * (p + 1 - 1) == p * p);
            p + 1
        }
    }
}

/// At most one number is the rounded-up square root of `n`.
pub proof fn lemma_ceil_sqrt_unique(n: int, a: int, b: int)
    requires
        is_ceil_sqrt(n, a),
        is_ceil_sqrt(n, b),
    ensures
        a == b,
{
    if a < b {
        lemma_square_monotone(a, b - 1);
    } else if b < a {
        lemma_square_monotone(b, a - 1);
    }
}

/// `ceil_sqrt(n)` is the rounded-up square root of `n`, and the only one.
pub proof fn lemma_ceil_sqrt(n: int)
    ensures
        is_ceil_sqrt(n, ceil_sqrt(n)),
        forall|r: int| is_ceil_sqrt(n, r) ==> r == ceil_sqrt(n),
{
    let w = lemma_ceil_sqrt_exists(n);
    assert(is_ceil_sqrt(n, ceil_sqrt(n)));
    assert forall|r: int| is_ceil_sqrt(n, r) implies r == ceil_sqrt(n) by {
        lemma_ceil_sqrt_unique(n, r, ceil_sqrt(n));
    }
}

/// A larger number has no smaller root.
pub proof fn lemma_ceil_sqrt_monotone(n: int, m: int)
    requires
        n <= m,
    ensures
        ceil_sqrt(n) <= ceil_sqrt(m),
{
    lemma_ceil_sqrt(n);
    lemma_ceil_sqrt(m);
    let a = ceil_sqrt(n);
    let b = ceil_sqrt(m);
    if b < a {
        lemma_square_monotone(b, a - 1);
    }
}

/// The root of a square is its base.
pub proof fn lemma_ceil_sqrt_of_square(r: int)
    requires
        0 <= r,
    ensures
        ceil_sqrt(r * r) == r,
{
    lemma_ceil_sqrt(r * r);
    if r > 0 {
        assert((r - 1) * (r - 1) < r * r) by (nonlinear_arith)
            requires
                r > 0,
        ;
    }
    assert(is_ceil_sqrt(r * r, r));
}

/// Computes the square root of `n`, rounded up.
pub fn ceil_sqrt_u64(n: u64) -> (r: u64)
    ensures
        r == ceil_sqrt(n as int),
        r <= 0x1_0000_0000,
{
    let mut lo: u64 = 0;
    let mut hi: u64 = 0x1_0000_0000;
    assert(0x1_0000_0000 * 0x1_0000_0000 >= n) by (nonlinear_arith)
        requires
            n <= 0xffff_ffff_ffff_ffff,
    ;
    while lo < hi
        invariant
            lo <= hi <= 0x1_0000_0000,
            n <= hi * hi,
            lo > 0 ==> (lo - 1) * (lo - 1) < n,
        decreases hi - lo,
    {
        let mid: u64 = lo + (hi - lo) / 2;
        assert(mid * mid <= 0xffff_ffff * 0xffff_ffff) by (nonlinear_arith)
            requires
                0 <= mid <= 0xffff_ffff,
        ;
        if mid * mid >= n {
            hi = mid;
        } else {
            lo = mid + 1;
        }
    }
    proof {
        lemma_ceil_sqrt(n as int);
        assert(is_ceil_sqrt(n as int, lo as int));
    }
    lo
}

} // verus!
