//! Fixed-point scalar arithmetic.
//!
//! Every quantity of the tracer is a real number represented as a raw `i64`
//! scaled by `FP_ONE`: the raw value `v` stands for `v / FP_ONE`. All
//! operations round toward zero, so each function here has an exact
//! integer-level contract.

use vstd::arithmetic::div_mod::{
    lemma_div_is_ordered, lemma_div_nonincreasing, lemma_div_pos_is_pos,
    lemma_remainder_lower, lemma_remainder_upper,
};
use vstd::arithmetic::mul::lemma_mul_nonnegative;
use vstd::prelude::*;

verus! {

/// Scale factor of the fixed-point representation: raw value `v` stands for
/// the real number `v / 65536`.
pub const FP_ONE: i64 = 65536;

/// Truncating (round-toward-zero) division, the behaviour of Rust's `/` on
/// signed integers, over mathematical integers. Only meaningful for `b > 0`.
pub open spec fn fdiv(a: int, b: int) -> int {
    if a >= 0 {
        a / b
    } else {
        -((-a) / b)
    }
}

/// The product `fdiv(a, b) * b` lands within `b` of `a`, on the zero side of it,
/// and the quotient itself is bounded by any bound on `|a|`.
pub proof fn lemma_fdiv_bounds(a: int, b: int)
    requires
        b >= 1,
    ensures
        a >= 0 ==> 0 <= fdiv(a, b) * b <= a && a - b < fdiv(a, b) * b,
        a <= 0 ==> a <= fdiv(a, b) * b <= 0 && fdiv(a, b) * b < a + b,
        a >= 0 ==> 0 <= fdiv(a, b) <= a,
        a <= 0 ==> a <= fdiv(a, b) <= 0,
{
    if a >= 0 {
        lemma_remainder_upper(a, b);
        lemma_remainder_lower(a, b);
        lemma_div_pos_is_pos(a, b);
        lemma_div_nonincreasing(a, b);
        lemma_mul_nonnegative(a / b, b);
    } else {
        lemma_remainder_upper(-a, b);
        lemma_remainder_lower(-a, b);
        lemma_div_pos_is_pos(-a, b);
        lemma_div_nonincreasing(-a, b);
        lemma_mul_nonnegative((-a) / b, b);
        assert((-((-a) / b)) * b == -(((-a) / b) * b)) by (nonlinear_arith);
    }
}

/// A bound on the dividend gives the corresponding bound on the quotient:
/// `|a| <= c` implies `|fdiv(a, b)| <= c / b`.
pub proof fn lemma_fdiv_le(a: int, b: int, c: int)
    requires
        b >= 1,
        0 <= c,
        -c <= a <= c,
    ensures
        -(c / b) <= fdiv(a, b) <= c / b,
        c / b <= c,
{
    lemma_div_nonincreasing(c, b);
    lemma_div_pos_is_pos(c, b);
    if a >= 0 {
        lemma_div_is_ordered(a, c, b);
        lemma_div_pos_is_pos(a, b);
    } else {
        lemma_div_is_ordered(-a, c, b);
        lemma_div_pos_is_pos(-a, b);
    }
}

/// Exact multiples divide without loss: `fdiv(k * b, b) == k`.
pub proof fn lemma_fdiv_exact(k: int, b: int)
    requires
        b >= 1,
    ensures
        fdiv(k * b, b) == k,
{
    lemma_fdiv_bounds(k * b, b);
    let q = fdiv(k * b, b);
    if k >= 0 {
        assert(k * b >= 0) by (nonlinear_arith)
            requires k >= 0 && b >= 1;
        assert(q * b <= k * b && k * b - b < q * b);
        assert(q == k) by (nonlinear_arith)
            requires b >= 1 && q * b <= k * b && k * b - b < q * b;
    } else {
        assert(k * b <= 0) by (nonlinear_arith)
            requires k <= 0 && b >= 1;
        assert(k * b <= q * b && q * b < k * b + b);
        assert(q == k) by (nonlinear_arith)
            requires b >= 1 && k * b <= q * b && q * b < k * b + b;
    }
}

/// Truncating division with a positive divisor; exec counterpart of `fdiv`.
pub fn div_trunc(a: i64, b: i64) -> (r: i64)
    requires
        1 <= b,
    ensures
        r == fdiv(a as int, b as int),
{
    proof {
        lemma_fdiv_bounds(a as int, b as int);
    }
    a / b
}

/// `r` is the integer square root of `n`: the greatest `r` with `r * r <= n`.
pub open spec fn is_isqrt(n: int, r: int) -> bool {
    &&& 0 <= r
    &&& r * r <= n
    &&& n < (r + 1) * (r + 1)
}

/// Integer square root by bisection.
pub fn isqrt(n: u64) -> (r: u64)
    requires
        n < 0x4000_0000_0000_0000,
    ensures
        is_isqrt(n as int, r as int),
        r < 0x8000_0000,
{
    let mut lo: u64 = 0;
    let mut hi: u64 = 0x8000_0000;
    proof {
        assert((0x8000_0000u64 as int) * (0x8000_0000u64 as int) == 0x4000_0000_0000_0000);
    }
    while lo + 1 < hi
        invariant
            lo < hi <= 0x8000_0000,
            lo * lo <= n,
            (n as int) < (hi as int) * (hi as int),
        decreases hi - lo,
    {
        let mid: u64 = lo + (hi - lo) / 2;
        assert(lo < mid < hi);
        proof {
            assert((mid as int) * (mid as int) < 0x4000_0000_0000_0000) by (nonlinear_arith)
                requires 0 <= (mid as int) && (mid as int) < 0x8000_0000;
        }
        if mid * mid <= n {
            lo = mid;
        } else {
            hi = mid;
        }
    }
    assert(hi == lo + 1);
    lo
}

/// Fixed-point multiplication: the raw product rescaled by `FP_ONE`,
/// rounded toward zero.
pub fn mul_fix(a: i64, b: i64) -> (r: i64)
    requires
        -0x4000_0000_0000_0000 <= (a as int) * (b as int) <= 0x4000_0000_0000_0000,
    ensures
        r == fdiv((a as int) * (b as int), FP_ONE as int),
{
    let p: i64 = a * b;
    div_trunc(p, FP_ONE)
}

/// Clamps `v` into the inclusive range `[lo, hi]`.
pub fn clamp_i64(v: i64, lo: i64, hi: i64) -> (r: i64)
    requires
        lo <= hi,
    ensures
        r == clamp_spec(v as int, lo as int, hi as int),
        lo <= r <= hi,
{
    if v < lo {
        lo
    } else if v > hi {
        hi
    } else {
        v
    }
}

/// The value of clamping `v` into `[lo, hi]`.
pub open spec fn clamp_spec(v: int, lo: int, hi: int) -> int {
    if v < lo {
        lo
    } else if v > hi {
        hi
    } else {
        v
    }
}

/// Fixed-point power: `pow_fix_spec(b, e)` is the raw value of `(b / FP_ONE)^e`,
/// each multiplication rounded toward zero.
pub open spec fn pow_fix_spec(b: int, e: nat) -> int
    decreases e,
{
    if e == 0 {
        FP_ONE as int
    } else {
        fdiv(pow_fix_spec(b, (e - 1) as nat) * b, FP_ONE as int)
    }
}

/// A fixed-point base in `[0, 1]` keeps every partial power in `[0, 1]`.
pub proof fn lemma_pow_fix_range(b: int, e: nat)
    requires
        0 <= b <= FP_ONE as int,
    ensures
        0 <= pow_fix_spec(b, e) <= FP_ONE as int,
    decreases e,
{
    if e > 0 {
        lemma_pow_fix_range(b, (e - 1) as nat);
        let p = pow_fix_spec(b, (e - 1) as nat);
        assert(0 <= p * b <= (FP_ONE as int) * (FP_ONE as int)) by (nonlinear_arith)
            requires 0 <= p <= FP_ONE as int && 0 <= b <= FP_ONE as int;
        lemma_fdiv_le(p * b, FP_ONE as int, (FP_ONE as int) * (FP_ONE as int));
        assert(((FP_ONE as int) * (FP_ONE as int)) / (FP_ONE as int) == FP_ONE as int) by {
            lemma_fdiv_exact(FP_ONE as int, FP_ONE as int);
        }
    }
}

/// Fixed-point exponentiation by repeated multiplication.
pub fn pow_fix(b: i64, e: u32) -> (r: i64)
    requires
        0 <= b <= FP_ONE,
    ensures
        r == pow_fix_spec(b as int, e as nat),
        0 <= r <= FP_ONE,
{
    let mut acc: i64 = FP_ONE;
    let mut i: u32 = 0;
    while i < e
        invariant
            0 <= i <= e,
            0 <= b <= FP_ONE,
            acc == pow_fix_spec(b as int, i as nat),
            0 <= acc <= FP_ONE,
        decreases e - i,
    {
        proof {
            assert(0 <= (acc as int) * (b as int) <= (FP_ONE as int) * (FP_ONE as int))
                by (nonlinear_arith)
                requires 0 <= acc as int <= FP_ONE as int && 0 <= b as int <= FP_ONE as int;
        }
        let next: i64 = mul_fix(acc, b);
        proof {
            lemma_fdiv_le((acc as int) * (b as int), FP_ONE as int,
                (FP_ONE as int) * (FP_ONE as int));
            lemma_fdiv_exact(FP_ONE as int, FP_ONE as int);
            lemma_fdiv_bounds((acc as int) * (b as int), FP_ONE as int);
        }
        acc = next;
        i = i + 1;
    }
    acc
}

} // verus!
