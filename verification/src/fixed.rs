//! 16.16 fixed-point scalars and the integer square root used for vector
//! lengths and draw distances.

use vstd::prelude::*;

verus! {

/// One whole unit in 16.16 fixed point.
pub const FX_ONE: i32 = 65536;

/// Floor of the square root, defined by digit-pair recursion.
pub open spec fn isqrt_spec(n: nat) -> nat
    decreases n,
{
    if n == 0 {
        0
    } else {
        let r = 2 * isqrt_spec(n / 4);
        if (r + 1) * (r + 1) <= n {
            r + 1
        } else {
            r
        }
    }
}

/// `isqrt_spec(n)` really is the floor of the square root of `n`.
pub proof fn lemma_isqrt_bounds(n: nat)
    ensures
        isqrt_spec(n) * isqrt_spec(n) <= n,
        n < (isqrt_spec(n) + 1) * (isqrt_spec(n) + 1),
    decreases n,
{
    if n == 0 {
        assert(isqrt_spec(0) == 0);
        assert(isqrt_spec(n) * isqrt_spec(n) <= n
            && n < (isqrt_spec(n) + 1) * (isqrt_spec(n) + 1)) by (nonlinear_arith)
            requires n == 0, isqrt_spec(n) == 0;
    } else {
        let q = n / 4;
        lemma_isqrt_bounds(q);
        let r0 = isqrt_spec(q);
        let r = 2 * r0;
        let s = isqrt_spec(n);
        assert(s == if (r + 1) * (r + 1) <= n { r + 1 } else { r });
        assert(s * s <= n && n < (s + 1) * (s + 1)) by (nonlinear_arith)
            requires
                r0 * r0 <= q,
                q < (r0 + 1) * (r0 + 1),
                q == n / 4,
                r == 2 * r0,
                s == if (r + 1) * (r + 1) <= n { r + 1 } else { r },
                n > 0;
        assert(isqrt_spec(n) * isqrt_spec(n) <= n);
        assert(n < (isqrt_spec(n) + 1) * (isqrt_spec(n) + 1));
    }
    assert(isqrt_spec(n) * isqrt_spec(n) <= n);
    assert(n < (isqrt_spec(n) + 1) * (isqrt_spec(n) + 1));
}

/// Any value squeezed the same way equals `isqrt_spec(n)`.
pub proof fn lemma_isqrt_unique(n: nat, r: nat)
    requires
        r * r <= n,
        n < (r + 1) * (r + 1),
    ensures
        r == isqrt_spec(n),
{
    lemma_isqrt_bounds(n);
    let s = isqrt_spec(n);
    if r < s {
        assert((r + 1) * (r + 1) <= s * s) by (nonlinear_arith)
            requires r + 1 <= s;
    }
    if s < r {
        assert((s + 1) * (s + 1) <= r * r) by (nonlinear_arith)
            requires s + 1 <= r;
    }
}

/// Floor of the square root of `n`, for `n` below `2^66`.
pub fn isqrt(n: u128) -> (r: u64)
    requires
        n < 0x4_0000_0000_0000_0000u128,
    ensures
        r == isqrt_spec(n as nat),
{
    let mut lo: u128 = 0;
    let mut hi: u128 = 0x2_0000_0000u128;
    proof {
        assert(hi * hi > n) by (nonlinear_arith)
            requires hi == 0x2_0000_0000u128, n < 0x4_0000_0000_0000_0000u128;
    }
    while hi - lo > 1
        invariant
            lo < hi,
            hi <= 0x2_0000_0000u128,
            lo * lo <= n,
            n < hi * hi,
        decreases hi - lo,
    {
        let mid = lo + (hi - lo) / 2;
        proof {
            assert(mid * mid < 0x4_0000_0000_0000_0000u128) by (nonlinear_arith)
                requires mid < 0x2_0000_0000u128;
        }
        if mid * mid <= n {
            lo = mid;
        } else {
            hi = mid;
        }
    }
    proof {
        assert(hi == lo + 1);
        lemma_isqrt_unique(n as nat, lo as nat);
    }
    lo as u64
}

} // verus!
