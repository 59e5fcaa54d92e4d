//! Integer square roots, used by the windowed standard deviation.

use vstd::prelude::*;

verus! {

/// The floor of the square root of `x`, defined by counting up.
pub open spec fn isqrt_of(x: nat) -> nat
    decreases x,
{
    if x == 0 {
        0
    } else {
        let p = isqrt_of((x - 1) as nat);
        if (p + 1) * (p + 1) <= x {
            p + 1
        } else {
            p
        }
    }
}

/// `isqrt_of` is exactly the floor of the square root.
pub proof fn lemma_isqrt_of(x: nat)
    ensures
        isqrt_of(x) * isqrt_of(x) <= x,
        x < (isqrt_of(x) + 1) * (isqrt_of(x) + 1),
    decreases x,
{
    if x == 0 {
        assert(isqrt_of(0) == 0);
        assert((0 + 1) * (0 + 1) == 1) by (nonlinear_arith);
        assert(0 * 0 == 0) by (nonlinear_arith);
    } else {
        lemma_isqrt_of((x - 1) as nat);
        let p = isqrt_of((x - 1) as nat);
        let q = isqrt_of(x);
        if (p + 1) * (p + 1) <= x {
            assert(q == p + 1);
            assert(q * q == (p + 1) * (p + 1));
            assert((p + 1) * (p + 1) == x);
            assert(x < (q + 1) * (q + 1)) by (nonlinear_arith)
                requires
                    q == p + 1,
                    x == (p + 1) * (p + 1),
                    p >= 0,
            ;
        } else {
            assert(q == p);
            assert(q * q == p * p);
            assert((q + 1) * (q + 1) == (p + 1) * (p + 1));
        }
    }
}

/// Any value bracketed by consecutive squares is the integer square root.
pub proof fn lemma_isqrt_unique(x: nat, r: nat)
    requires
        r * r <= x,
        x < (r + 1) * (r + 1),
    ensures
        r == isqrt_of(x),
{
    lemma_isqrt_of(x);
    let q = isqrt_of(x);
    if r < q {
        assert((r + 1) * (r + 1) <= q * q) by (nonlinear_arith)
            requires
                r + 1 <= q,
                r >= 0,
        ;
    }
    if q < r {
        assert((q + 1) * (q + 1) <= r * r) by (nonlinear_arith)
            requires
                q + 1 <= r,
                q >= 0,
        ;
    }
}

/// The integer square root is monotone: a bound on `x` by a perfect square
/// bounds the root.
pub proof fn lemma_isqrt_le_of_square_bound(x: nat, b: nat)
    requires
        x <= b * b,
    ensures
        isqrt_of(x) <= b,
{
    lemma_isqrt_of(x);
    let q = isqrt_of(x);
    if b < q {
        assert((b + 1) * (b + 1) <= q * q) by (nonlinear_arith)
            requires
                b + 1 <= q,
                b >= 0,
        ;
        assert(b * b < (b + 1) * (b + 1)) by (nonlinear_arith)
            requires
                b >= 0,
        ;
    }
}

/// Bounds for the floor bin index of a position on an axis `[lo, hi)`
/// split into `n` equal bins: positions strictly inside land strictly
/// below `n`, and the upper edge itself lands exactly at `n`.
pub proof fn lemma_axis_bin_bounds(lo: int, hi: int, n: int, v: int)
    requires
        lo < hi,
        n >= 1,
        lo <= v <= hi,
    ensures
        0 <= (v - lo) * n / (hi - lo) <= n,
        v < hi ==> (v - lo) * n / (hi - lo) < n,
{
    let w = hi - lo;
    assert(0 <= (v - lo) * n && (v - lo) * n <= w * n) by (nonlinear_arith)
        requires
            lo <= v,
            v - lo <= w,
            n >= 1,
    ;
    vstd::arithmetic::div_mod::lemma_multiply_divide_le((v - lo) * n, w, n);
    vstd::arithmetic::div_mod::lemma_div_pos_is_pos((v - lo) * n, w);
    if v < hi {
        assert((v - lo) * n < w * n) by (nonlinear_arith)
            requires
                v - lo < w,
                n >= 1,
        ;
        vstd::arithmetic::div_mod::lemma_multiply_divide_lt((v - lo) * n, w, n);
    }
}

/// Computes the floor of the square root by bisection.
pub fn isqrt(x: u128) -> (r: u128)
    ensures
        r == isqrt_of(x as nat),
        r * r <= x,
{
    if x == 0 {
        proof {
            lemma_isqrt_of(0);
        }
        return 0;
    }
    let mut lo: u128 = 0;
    let mut hi: u128 = 18446744073709551616u128;
    proof {
        assert((18446744073709551616 as int) * (18446744073709551616 as int) > u128::MAX as int)
            by (nonlinear_arith);
    }
    while hi - lo > 1
        invariant
            0 <= lo < hi <= 18446744073709551616u128,
            (lo as int) * (lo as int) <= x as int,
            (x as int) < (hi as int) * (hi as int),
        decreases hi - lo,
    {
        let mid: u128 = lo + (hi - lo) / 2;
        proof {
            assert((mid as int) * (mid as int) <= (18446744073709551615 as int) * (
            18446744073709551615 as int)) by (nonlinear_arith)
                requires
                    0 <= mid as int <= 18446744073709551615 as int,
            ;
            assert((18446744073709551615 as int) * (18446744073709551615 as int)
                <= u128::MAX as int) by (nonlinear_arith);
        }
        let m2: u128 = mid * mid;
        if m2 <= x {
            lo = mid;
        } else {
            hi = mid;
        }
    }
    proof {
        lemma_isqrt_unique(x as nat, lo as nat);
    }
    lo
}

} // verus!
