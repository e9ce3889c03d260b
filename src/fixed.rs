//! Fixed-point scalars: an `i64` holds a real number times [`SCALE`].
//!
//! Every operation truncates toward zero and then saturates to
//! `[-LIMIT, LIMIT]`, so negation is exact and `op(-a, b) == -op(a, b)`.
use vstd::prelude::*;

verus! {

/// Units per 1.0.
pub const SCALE: i64 = 1_000_000_000_000_000;

/// Saturation bound of every scalar (2^61).
pub const LIMIT: i64 = 2_305_843_009_213_693_952;

pub open spec fn in_range(a: int) -> bool {
    -LIMIT <= a <= LIMIT
}

pub open spec fn clamp(a: int) -> int {
    if a > LIMIT {
        LIMIT as int
    } else if a < -LIMIT {
        -LIMIT
    } else {
        a
    }
}

/// Division that rounds toward zero, for a positive divisor.
pub open spec fn trunc_div(a: int, d: int) -> int {
    if a >= 0 {
        a / d
    } else {
        -((-a) / d)
    }
}

pub open spec fn add_spec(a: int, b: int) -> int {
    clamp(a + b)
}

pub open spec fn sub_spec(a: int, b: int) -> int {
    clamp(a - b)
}

/// Product of two fixed-point numbers.
pub open spec fn mul_spec(a: int, b: int) -> int {
    clamp(trunc_div(a * b, SCALE as int))
}

/// Quotient of two fixed-point numbers, for a positive divisor.
pub open spec fn div_spec(a: int, b: int) -> int {
    clamp(trunc_div(a * SCALE, b))
}

pub proof fn lemma_trunc_div_bound(a: int, d: int)
    requires
        d >= 1,
    ensures
        -(if a >= 0 { a } else { -a }) <= trunc_div(a, d) <= (if a >= 0 { a } else { -a }),
{
    if a >= 0 {
        assert(a / d <= a) by (nonlinear_arith)
            requires a >= 0, d >= 1;
        assert(a / d >= 0) by (nonlinear_arith)
            requires a >= 0, d >= 1;
    } else {
        assert((-a) / d <= -a) by (nonlinear_arith)
            requires -a >= 0, d >= 1;
        assert((-a) / d >= 0) by (nonlinear_arith)
            requires -a >= 0, d >= 1;
    }
}

/// Saturates a wide integer to `[-LIMIT, LIMIT]`.
pub(crate) fn clamp_wide(a: i128) -> (r: i64)
    ensures
        r == clamp(a as int),
{
    if a > LIMIT as i128 {
        LIMIT
    } else if a < -(LIMIT as i128) {
        -LIMIT
    } else {
        a as i64
    }
}

/// Wide division rounding toward zero.
pub(crate) fn trunc_div_wide(a: i128, d: i128) -> (r: i128)
    requires
        d >= 1,
        a > i128::MIN,
    ensures
        r == trunc_div(a as int, d as int),
{
    proof {
        lemma_trunc_div_bound(a as int, d as int);
    }
    if a >= 0 {
        a / d
    } else {
        let m: i128 = -a;
        -(m / d)
    }
}

/// Saturating sum.
pub fn fx_add(a: i64, b: i64) -> (r: i64)
    requires
        in_range(a as int),
        in_range(b as int),
    ensures
        r == add_spec(a as int, b as int),
        in_range(r as int),
{
    clamp_wide(a as i128 + b as i128)
}

/// Saturating difference.
pub fn fx_sub(a: i64, b: i64) -> (r: i64)
    requires
        in_range(a as int),
        in_range(b as int),
    ensures
        r == sub_spec(a as int, b as int),
        in_range(r as int),
{
    clamp_wide(a as i128 - b as i128)
}

/// Saturating fixed-point product, rounded toward zero.
pub fn fx_mul(a: i64, b: i64) -> (r: i64)
    requires
        in_range(a as int),
        in_range(b as int),
    ensures
        r == mul_spec(a as int, b as int),
        in_range(r as int),
{
    assert(-0x4000_0000_0000_0000_0000_0000_0000_0000int <= (a as int) * (b as int)
        <= 0x4000_0000_0000_0000_0000_0000_0000_0000int) by (nonlinear_arith)
        requires in_range(a as int), in_range(b as int);
    let p: i128 = a as i128 * b as i128;
    clamp_wide(trunc_div_wide(p, SCALE as i128))
}

/// Saturating fixed-point quotient, rounded toward zero.
pub fn fx_div(a: i64, b: i64) -> (r: i64)
    requires
        in_range(a as int),
        in_range(b as int),
        b > 0,
    ensures
        r == div_spec(a as int, b as int),
        in_range(r as int),
{
    assert(-0x4000_0000_0000_0000_0000_0000_0000_0000int <= (a as int) * (SCALE as int)
        <= 0x4000_0000_0000_0000_0000_0000_0000_0000int) by (nonlinear_arith)
        requires in_range(a as int);
    let p: i128 = a as i128 * SCALE as i128;
    clamp_wide(trunc_div_wide(p, b as i128))
}


/// `r` is the integer square root of `n`.
pub open spec fn is_root(n: int, r: int) -> bool {
    0 <= r && r * r <= n < (r + 1) * (r + 1)
}

/// The integer square root: the largest `r` with `r * r <= n`.
pub open spec fn isqrt_spec(n: int) -> int {
    if exists|r: int| is_root(n, r) {
        choose|r: int| is_root(n, r)
    } else {
        0
    }
}

pub proof fn lemma_isqrt_nonneg(n: int)
    ensures
        isqrt_spec(n) >= 0,
{
}

proof fn lemma_root_unique(n: int, r: int, s: int)
    requires
        is_root(n, r),
        is_root(n, s),
    ensures
        r == s,
{
    if r < s {
        assert((r + 1) * (r + 1) <= s * s) by (nonlinear_arith)
            requires 0 <= r, r + 1 <= s;
    } else if s < r {
        assert((s + 1) * (s + 1) <= r * r) by (nonlinear_arith)
            requires 0 <= s, s + 1 <= r;
    }
}

/// Integer square root by bisection.
pub fn isqrt(n: u128) -> (r: u128)
    requires
        n < 0x4000_0000_0000_0000_0000_0000_0000_0000,
    ensures
        is_root(n as int, r as int),
        r == isqrt_spec(n as int),
{
    let mut lo: u128 = 0;
    let mut hi: u128 = 0x8000_0000_0000_0000;
    assert(hi * hi == 0x4000_0000_0000_0000_0000_0000_0000_0000u128) by (nonlinear_arith)
        requires hi == 0x8000_0000_0000_0000u128;
    while hi - lo > 1
        invariant
            lo < hi <= 0x8000_0000_0000_0000,
            lo * lo <= n,
            n < hi * hi,
        decreases hi - lo,
    {
        let mid: u128 = lo + (hi - lo) / 2;
        assert(mid * mid <= 0x4000_0000_0000_0000_0000_0000_0000_0000) by (nonlinear_arith)
            requires mid <= 0x8000_0000_0000_0000;
        if mid * mid <= n {
            lo = mid;
        } else {
            hi = mid;
        }
    }
    proof {
        assert(hi == lo + 1);
        assert(is_root(n as int, lo as int));
        lemma_root_unique(n as int, lo as int, isqrt_spec(n as int));
    }
    lo
}


/// Half of `a`, rounded toward zero.
pub fn fx_halve(a: i64) -> (r: i64)
    requires
        in_range(a as int),
    ensures
        r == trunc_div(a as int, 2),
        in_range(r as int),
{
    proof {
        lemma_trunc_div_bound(a as int, 2);
    }
    clamp_wide(trunc_div_wide(a as i128, 2))
}

} // verus!
