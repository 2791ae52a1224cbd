use vstd::prelude::*;

verus! {

/// Largest argument `ceil_isqrt` accepts; the square of `SQRT_HI`.
pub const SQRT_ARG_MAX: u128 = 16_000_000_000_000_000_000_000_000;

/// Upper end of the square-root search range.
pub const SQRT_HI: u64 = 4_000_000_000_000;

/// `r` is the ceiling of the square root of `n`: the least non-negative
/// integer whose square is at least `n`.
pub open spec fn is_ceil_sqrt(n: int, r: int) -> bool {
    &&& r >= 0
    &&& n <= r * r
    &&& r > 0 ==> (r - 1) * (r - 1) < n
}

/// The ceiling of the square root of a non-negative integer.
pub open spec fn ceil_sqrt(n: int) -> int {
    choose|r: int| #[trigger] is_ceil_sqrt(n, r)
}

pub proof fn lemma_ceil_sqrt_exists(n: nat)
    ensures
        exists|r: int| #[trigger] is_ceil_sqrt(n as int, r),
    decreases n,
{
    if n == 0 {
        assert(is_ceil_sqrt(0, 0));
    } else {
        lemma_ceil_sqrt_exists((n - 1) as nat);
        let r = choose|r: int| #[trigger] is_ceil_sqrt(n as int - 1, r);
        if n <= r * r {
            assert(is_ceil_sqrt(n as int, r));
        } else {
            assert(n as int <= (r + 1) * (r + 1)) by (nonlinear_arith)
                requires r >= 0 && n as int - 1 <= r * r,
            {}
            assert(is_ceil_sqrt(n as int, r + 1));
        }
    }
}

pub proof fn lemma_ceil_sqrt_unique(n: int, r1: int, r2: int)
    requires
        is_ceil_sqrt(n, r1),
        is_ceil_sqrt(n, r2),
    ensures
        r1 == r2,
{
    if r1 < r2 {
        assert(r1 * r1 <= (r2 - 1) * (r2 - 1)) by (nonlinear_arith)
            requires 0 <= r1 <= r2 - 1,
        {}
    }
    if r2 < r1 {
        assert(r2 * r2 <= (r1 - 1) * (r1 - 1)) by (nonlinear_arith)
            requires 0 <= r2 <= r1 - 1,
        {}
    }
}

/// Any witness of `is_ceil_sqrt` is the value of `ceil_sqrt`.
pub proof fn lemma_ceil_sqrt_is(n: int, r: int)
    requires
        n >= 0,
        is_ceil_sqrt(n, r),
    ensures
        ceil_sqrt(n) == r,
{
    lemma_ceil_sqrt_exists(n as nat);
    let w = choose|w: int| #[trigger] is_ceil_sqrt(n, w);
    lemma_ceil_sqrt_unique(n, w, r);
}

pub proof fn lemma_ceil_sqrt_nonneg(n: int)
    requires
        n >= 0,
    ensures
        ceil_sqrt(n) >= 0,
{
    lemma_ceil_sqrt_exists(n as nat);
}

/// Ceiling integer square root by binary search for the least `r` with
/// `r * r >= n`.
pub fn ceil_isqrt(n: u128) -> (r: u64)
    requires
        n <= SQRT_ARG_MAX,
    ensures
        is_ceil_sqrt(n as int, r as int),
        r as int == ceil_sqrt(n as int),
        r <= SQRT_HI,
{
    let mut lo: u64 = 0;
    let mut hi: u64 = SQRT_HI;
    proof {
        assert((SQRT_HI as int) * (SQRT_HI as int) == SQRT_ARG_MAX as int) by (nonlinear_arith);
    }
    while lo < hi
        invariant
            lo <= hi <= SQRT_HI,
            n as int <= (hi as int) * (hi as int),
            lo > 0 ==> ((lo as int) - 1) * ((lo as int) - 1) < n as int,
        decreases hi - lo,
    {
        let mid: u64 = lo + (hi - lo) / 2;
        proof {
            assert((mid as int) * (mid as int) <= (SQRT_HI as int) * (SQRT_HI as int))
                by (nonlinear_arith)
                requires 0 <= mid as int <= SQRT_HI as int,
            {}
        }
        let sq: u128 = (mid as u128) * (mid as u128);
        if sq >= n {
            hi = mid;
        } else {
            lo = mid + 1;
        }
    }
    proof {
        lemma_ceil_sqrt_is(n as int, lo as int);
    }
    lo
}

} // verus!
