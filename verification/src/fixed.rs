//! Fixed-point arithmetic underlying all geometry in this crate.
//!
//! A real number `x` is stored as the integer `x * SCALE`, rounded toward
//! zero.  The spec functions `tdiv`, `fmul`, `fdiv` and `sqrt_floor` are the
//! mathematical model of the executable operations: every executable
//! function here returns exactly the value of its model.

use vstd::prelude::*;
use vstd::arithmetic::div_mod::*;

verus! {

/// Number of raw integer units that stand for the real value one.
pub const SCALE: i64 = 65536;

/// Division rounded toward zero, the rounding of all fixed-point operations.
/// Meaningful for positive divisors only.
pub open spec fn tdiv(a: int, b: int) -> int {
    if a >= 0 {
        a / b
    } else {
        -((-a) / b)
    }
}

/// Fixed-point product: the scaled representation of the real product.
pub open spec fn fmul(a: int, b: int) -> int {
    tdiv(a * b, SCALE as int)
}

/// Fixed-point quotient: the scaled representation of the real quotient.
pub open spec fn fdiv(a: int, b: int) -> int {
    tdiv(a * (SCALE as int), b)
}

/// Rounding toward zero never grows a bound: if `|a| <= b * m` then
/// `|tdiv(a, b)| <= m`.
pub proof fn lemma_tdiv_le(a: int, b: int, m: int)
    requires
        1 <= b,
        0 <= m,
        -(b * m) <= a <= b * m,
    ensures
        -m <= tdiv(a, b) <= m,
{
    if a >= 0 {
        lemma_div_pos_is_pos(a, b);
        lemma_div_is_ordered(a, b * m, b);
        lemma_div_multiples_vanish(m, b);
    } else {
        lemma_div_pos_is_pos(-a, b);
        lemma_div_is_ordered(-a, b * m, b);
        lemma_div_multiples_vanish(m, b);
    }
}

/// Truncating division keeps the sign of the dividend.
pub proof fn lemma_tdiv_sign(a: int, b: int)
    requires
        1 <= b,
    ensures
        a >= 0 ==> 0 <= tdiv(a, b) <= a,
        a <= 0 ==> a <= tdiv(a, b) <= 0,
{
    if a >= 0 {
        lemma_div_pos_is_pos(a, b);
        lemma_div_nonincreasing(a, b);
    } else {
        lemma_div_pos_is_pos(-a, b);
        lemma_div_nonincreasing(-a, b);
    }
}

/// Truncating division is monotone for non-negative dividends.
pub proof fn lemma_tdiv_ordered(a: int, c: int, b: int)
    requires
        1 <= b,
        0 <= a <= c,
    ensures
        tdiv(a, b) <= tdiv(c, b),
{
    lemma_div_is_ordered(a, c, b);
}

/// Division rounded toward zero, on machine integers.
pub fn div_trunc(a: i64, b: i64) -> (q: i64)
    requires
        1 <= b,
        i64::MIN < a,
    ensures
        q as int == tdiv(a as int, b as int),
{
    if a >= 0 {
        let q0: u64 = (a as u64) / (b as u64);
        proof {
            lemma_div_pos_is_pos(a as int, b as int);
            lemma_div_nonincreasing(a as int, b as int);
        }
        q0 as i64
    } else {
        let m: u64 = ((-a) as u64) / (b as u64);
        proof {
            lemma_div_pos_is_pos(-(a as int), b as int);
            lemma_div_nonincreasing(-(a as int), b as int);
        }
        -(m as i64)
    }
}

/// Division rounded toward zero, on wide intermediates.
pub fn div_trunc_wide(a: i128, b: i128) -> (q: i128)
    requires
        1 <= b,
        i128::MIN < a,
    ensures
        q as int == tdiv(a as int, b as int),
{
    if a >= 0 {
        let q0: u128 = (a as u128) / (b as u128);
        proof {
            lemma_div_pos_is_pos(a as int, b as int);
            lemma_div_nonincreasing(a as int, b as int);
        }
        q0 as i128
    } else {
        let m: u128 = ((-a) as u128) / (b as u128);
        proof {
            lemma_div_pos_is_pos(-(a as int), b as int);
            lemma_div_nonincreasing(-(a as int), b as int);
        }
        -(m as i128)
    }
}

/// Fixed-point multiplication: `fmul` on machine integers.
pub fn fix_mul(a: i64, b: i64) -> (r: i64)
    requires
        -(i64::MAX as int) * (SCALE as int) <= (a as int) * (b as int) <= (i64::MAX as int) * (
        SCALE as int),
    ensures
        r as int == fmul(a as int, b as int),
{
    let p: i128 = (a as i128) * (b as i128);
    let q = div_trunc_wide(p, SCALE as i128);
    proof {
        lemma_tdiv_le(p as int, SCALE as int, i64::MAX as int);
    }
    q as i64
}

/// Fixed-point division: `fdiv` on machine integers.  The bound on
/// `a * SCALE` keeps the quotient inside the machine range.
pub fn fix_div(a: i64, b: i64) -> (r: i64)
    requires
        1 <= b,
        -(b as int) * (i64::MAX as int) <= (a as int) * (SCALE as int) <= (b as int) * (
        i64::MAX as int),
    ensures
        r as int == fdiv(a as int, b as int),
{
    let p: i128 = (a as i128) * (SCALE as i128);
    let q = div_trunc_wide(p, b as i128);
    proof {
        lemma_tdiv_le(p as int, b as int, i64::MAX as int);
    }
    q as i64
}

/// A quotient of a dividend at least the divisor is at least one.
pub proof fn lemma_tdiv_ge_one(x: int, b: int)
    requires
        1 <= b <= x,
    ensures
        1 <= tdiv(x, b),
{
    lemma_div_is_ordered(b, x, b);
    lemma_div_multiples_vanish(1, b);
}

/// Bounds on two factors bound their product.
pub proof fn lemma_mul_bound(a: int, b: int, ma: int, mb: int)
    by (nonlinear_arith)
    requires
        -ma <= a <= ma,
        -mb <= b <= mb,
        0 <= ma,
        0 <= mb,
    ensures
        -(ma * mb) <= a * b <= ma * mb,
{
}

/// A bound on the square bounds the absolute value.
pub proof fn lemma_abs_le_of_sq(x: int, l: int)
    by (nonlinear_arith)
    requires
        0 <= l,
        x * x < (l + 1) * (l + 1),
    ensures
        -l <= x <= l,
{
}

/// Multiplying by the fixed-point one is exact.
pub proof fn lemma_fmul_one_exact(x: int)
    ensures
        fmul(SCALE as int, x) == x,
{
    if x >= 0 {
        lemma_div_multiples_vanish(x, SCALE as int);
    } else {
        lemma_div_multiples_vanish(-x, SCALE as int);
        assert(-((SCALE as int) * x) == (SCALE as int) * (-x)) by (nonlinear_arith);
    }
}

/// A fixed-point product of two factors in `[0, 1]` stays in `[0, 1]`.
pub proof fn lemma_fmul_unit_range(a: int, b: int)
    requires
        0 <= a <= SCALE as int,
        0 <= b <= SCALE as int,
    ensures
        0 <= fmul(a, b) <= SCALE as int,
{
    lemma_mul_bound(a, b, SCALE as int, SCALE as int);
    lemma_tdiv_le(a * b, SCALE as int, SCALE as int);
    lemma_tdiv_sign(a * b, SCALE as int);
    assert(a * b >= 0) by (nonlinear_arith)
        requires
            0 <= a && 0 <= b,
    ;
}

/// Absolute value as a spec function.
pub open spec fn absi(a: int) -> int {
    if a >= 0 {
        a
    } else {
        -a
    }
}

/// The integer square root: the greatest `r` with `r * r <= n`.
pub open spec fn sqrt_floor(n: int) -> int {
    choose|r: int| 0 <= r && #[trigger] (r * r) <= n && n < (r + 1) * (r + 1)
}

proof fn lemma_sqrt_floor_exists(n: int)
    requires
        0 <= n,
    ensures
        exists|r: int| 0 <= r && #[trigger] (r * r) <= n && n < (r + 1) * (r + 1),
    decreases n,
{
    if n == 0 {
        let w: int = 0;
        assert(0 <= w && w * w <= n && n < (w + 1) * (w + 1));
    } else {
        lemma_sqrt_floor_exists(n - 1);
        let r = choose|r: int| 0 <= r && #[trigger] (r * r) <= n - 1 && n - 1 < (r + 1) * (r + 1);
        if n < (r + 1) * (r + 1) {
            assert(0 <= r && r * r <= n && n < (r + 1) * (r + 1));
        } else {
            assert(n == (r + 1) * (r + 1));
            assert((r + 2) * (r + 2) == (r + 1) * (r + 1) + 2 * (r + 1) + 1) by (nonlinear_arith);
            assert(0 <= r + 1 && (r + 1) * (r + 1) <= n && n < (r + 2) * (r + 2));
        }
    }
}

/// What `sqrt_floor` returns on a non-negative argument.
pub proof fn lemma_sqrt_floor_props(n: int)
    requires
        0 <= n,
    ensures
        0 <= sqrt_floor(n),
        sqrt_floor(n) * sqrt_floor(n) <= n,
        n < (sqrt_floor(n) + 1) * (sqrt_floor(n) + 1),
{
    lemma_sqrt_floor_exists(n);
}

/// Any `r` with `r * r <= n < (r + 1) * (r + 1)` is `sqrt_floor(n)`.
pub proof fn lemma_sqrt_floor_is(n: int, r: int)
    requires
        0 <= n,
        0 <= r,
        r * r <= n,
        n < (r + 1) * (r + 1),
    ensures
        r == sqrt_floor(n),
{
    lemma_sqrt_floor_props(n);
    let s = sqrt_floor(n);
    if r < s {
        assert((r + 1) * (r + 1) <= s * s) by (nonlinear_arith)
            requires
                0 <= r + 1 <= s,
        ;
    }
    if s < r {
        assert((s + 1) * (s + 1) <= r * r) by (nonlinear_arith)
            requires
                0 <= s + 1 <= r,
        ;
    }
}

/// The integer square root on machine integers, by bisection.
pub fn isqrt(n: u128) -> (r: u64)
    requires
        n < 0x4000_0000_0000_0000_0000_0000_0000_0000u128,
    ensures
        r as int == sqrt_floor(n as int),
        (r as int) * (r as int) <= n as int,
        (n as int) < ((r as int) + 1) * ((r as int) + 1),
{
    let mut lo: u128 = 0;
    let mut hi: u128 = if n >= 0xFFFF_FFFF_FFFF_FFFF {
        0x1_0000_0000_0000_0000
    } else {
        n + 1
    };
    proof {
        if n >= 0xFFFF_FFFF_FFFF_FFFF {
            assert((hi as int) * (hi as int) > n as int) by (nonlinear_arith)
                requires
                    hi as int == 0x1_0000_0000_0000_0000,
                    (n as int) < 0x4000_0000_0000_0000_0000_0000_0000_0000,
            ;
        } else {
            assert((hi as int) * (hi as int) > n as int) by (nonlinear_arith)
                requires
                    hi as int == n as int + 1,
                    0 <= n as int,
            ;
        }
    }
    while lo + 1 < hi
        invariant
            0 <= lo < hi <= 0x1_0000_0000_0000_0000,
            (lo as int) * (lo as int) <= n as int,
            (n as int) < (hi as int) * (hi as int),
        decreases hi - lo,
    {
        let mid: u128 = lo + (hi - lo) / 2;
        assert(lo < mid < hi);
        proof {
            assert((mid as int) * (mid as int) <= 0xFFFF_FFFF_FFFF_FFFF * 0xFFFF_FFFF_FFFF_FFFF)
                by (nonlinear_arith)
                requires
                    0 <= mid as int <= 0xFFFF_FFFF_FFFF_FFFF,
            ;
        }
        if mid * mid <= n {
            lo = mid;
        } else {
            hi = mid;
        }
    }
    proof {
        assert(hi == lo + 1);
        lemma_sqrt_floor_is(n as int, lo as int);
    }
    lo as u64
}

} // verus!
