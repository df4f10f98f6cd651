//! Fixed-point scalars.
//!
//! Every geometric quantity in this crate is a binary fixed-point number: an
//! `i64` holding the real value multiplied by `FX_ONE` (2^16).  Addition and
//! subtraction are the plain integer operations; `fx_mul` multiplies two
//! fixed-point values and rescales, rounding the magnitude down (truncation
//! toward zero); `isqrt_u128` is the floor square root used for vector
//! lengths.

use vstd::prelude::*;

verus! {

/// The fixed-point representation of 1.0.
pub const FX_ONE: i64 = 65536;

/// Truncating fixed-point product: the integer of largest magnitude whose
/// magnitude is at most `|a * b| / FX_ONE`, with the sign of `a * b`.
pub open spec fn fxmul(a: int, b: int) -> int {
    if a * b >= 0 {
        (a * b) / (FX_ONE as int)
    } else {
        -((-(a * b)) / (FX_ONE as int))
    }
}

/// Floor of the square root of a non-positive-free integer.
pub open spec fn sqrt_floor(n: int) -> int
    decreases n,
{
    if n <= 0 {
        0
    } else {
        let p = sqrt_floor(n - 1);
        if (p + 1) * (p + 1) <= n {
            p + 1
        } else {
            p
        }
    }
}

/// `sqrt_floor(n)` really is the floor of the square root.
pub proof fn lemma_sqrt_floor_bounds(n: int)
    requires
        n >= 0,
    ensures
        sqrt_floor(n) >= 0,
        sqrt_floor(n) * sqrt_floor(n) <= n,
        n < (sqrt_floor(n) + 1) * (sqrt_floor(n) + 1),
    decreases n,
{
    if n == 0 {
    } else {
        lemma_sqrt_floor_bounds(n - 1);
        let p = sqrt_floor(n - 1);
        if (p + 1) * (p + 1) <= n {
            assert((p + 2) * (p + 2) > n) by (nonlinear_arith)
                requires
                    p >= 0,
                    n - 1 < (p + 1) * (p + 1),
                    n >= 1,
            ;
        }
    }
}

/// Any integer square-root witness equals `sqrt_floor`.
pub proof fn lemma_sqrt_floor_unique(n: int, r: int)
    requires
        n >= 0,
        r >= 0,
        r * r <= n,
        n < (r + 1) * (r + 1),
    ensures
        r == sqrt_floor(n),
{
    lemma_sqrt_floor_bounds(n);
    let s = sqrt_floor(n);
    if r < s {
        assert((r + 1) * (r + 1) <= s * s) by (nonlinear_arith)
            requires
                0 <= r,
                r + 1 <= s,
            ;
    }
    if s < r {
        assert((s + 1) * (s + 1) <= r * r) by (nonlinear_arith)
            requires
                0 <= s,
                s + 1 <= r,
            ;
    }
}

/// Floor square root of a `u128`.
pub fn isqrt_u128(n: u128) -> (r: u64)
    ensures
        r == sqrt_floor(n as int),
{
    let mut lo: u128 = 0;
    let mut hi: u128 = 0x1_0000_0000_0000_0000;
    proof {
        assert((0x1_0000_0000_0000_0000 as int) * (0x1_0000_0000_0000_0000 as int) > n as int)
            by (nonlinear_arith)
            requires
                n <= u128::MAX,
            ;
    }
    while hi - lo > 1
        invariant
            0 <= lo < hi <= 0x1_0000_0000_0000_0000,
            (lo as int) * (lo as int) <= n as int,
            (n as int) < (hi as int) * (hi as int),
        decreases hi - lo,
    {
        let mid: u128 = lo + (hi - lo) / 2;
        proof {
            assert((mid as int) * (mid as int) <= u128::MAX) by (nonlinear_arith)
                requires
                    0 <= (mid as int) && (mid as int) < 0x1_0000_0000_0000_0000,
            ;
        }
        let sq: u128 = mid * mid;
        if sq <= n {
            lo = mid;
        } else {
            hi = mid;
        }
    }
    proof {
        lemma_sqrt_floor_unique(n as int, lo as int);
    }
    lo as u64
}

/// Truncating fixed-point multiplication.
pub fn fx_mul(a: i64, b: i64) -> (r: i64)
    requires
        -0x4000_0000 <= a <= 0x4000_0000,
        -0x4000_0000 <= b <= 0x4000_0000,
    ensures
        r == fxmul(a as int, b as int),
{
    proof {
        assert(-0x1000_0000_0000_0000 <= (a as int) * (b as int) <= 0x1000_0000_0000_0000)
            by (nonlinear_arith)
            requires
                -0x4000_0000 <= a as int <= 0x4000_0000,
                -0x4000_0000 <= b as int <= 0x4000_0000,
            ;
    }
    let p: i128 = (a as i128) * (b as i128);
    if p >= 0 {
        let q: u128 = (p as u128) / 65536;
        proof {
            vstd::arithmetic::div_mod::lemma_div_is_ordered(p as int, 0x1000_0000_0000_0000, 65536);
            vstd::arithmetic::div_mod::lemma_div_pos_is_pos(p as int, 65536);
        }
        q as i64
    } else {
        let m: u128 = (-p) as u128;
        let q: u128 = m / 65536;
        proof {
            vstd::arithmetic::div_mod::lemma_div_is_ordered(m as int, 0x1000_0000_0000_0000, 65536);
            vstd::arithmetic::div_mod::lemma_div_pos_is_pos(m as int, 65536);
        }
        -(q as i64)
    }
}

/// Magnitude bound for the truncating product.
pub proof fn lemma_fxmul_bound(a: int, b: int, m: int)
    requires
        -m <= a * b <= m,
        m >= 0,
    ensures
        -(m / (FX_ONE as int)) <= fxmul(a, b) <= m / (FX_ONE as int),
{
    if a * b >= 0 {
        vstd::arithmetic::div_mod::lemma_div_is_ordered(a * b, m, FX_ONE as int);
        vstd::arithmetic::div_mod::lemma_div_pos_is_pos(a * b, FX_ONE as int);
    } else {
        vstd::arithmetic::div_mod::lemma_div_is_ordered(-(a * b), m, FX_ONE as int);
        vstd::arithmetic::div_mod::lemma_div_pos_is_pos(-(a * b), FX_ONE as int);
    }
}

} // verus!
