//! The two field kernels: a short-range repulsion and a Gaussian bump, each
//! returning a value and its derivative.
use vstd::prelude::*;
use vstd::arithmetic::div_mod::{lemma_div_is_ordered, lemma_div_multiples_vanish, lemma_fundamental_div_mod, lemma_mod_bound};
use crate::fixed::{
    add_spec, clamp, clamp_wide, div_spec, fx_add, fx_div, fx_halve, fx_mul, fx_sub, in_range,
    lemma_trunc_div_bound, mul_spec, sub_spec, trunc_div, trunc_div_wide, LIMIT, SCALE,
};

verus! {

/// Unit of the internal exponential (2^60).
pub const ONE: u128 = 1_152_921_504_606_846_976;

/// The exponential is evaluated as `(1 - z + z^2 / 2)^(2^HALVINGS)`, with `z = y / 2^HALVINGS`.
pub const HALVINGS: u32 = 20;

/// Beyond this exponent (64.0) the Gaussian factor is taken as zero.
pub const EXP_CUTOFF: i64 = 64_000_000_000_000_000;

/// Second-order approximation of `ONE * exp(-y / (SCALE * 2^HALVINGS))`.
pub open spec fn exp_base(y: int) -> int {
    let z = y * 0x100_0000_0000 / (SCALE as int);
    ONE - z + (z * z) / (2 * ONE)
}

/// `k` fixed-point squarings of `b`, in units of [`ONE`].
pub open spec fn square_steps(b: int, k: nat) -> int
    decreases k,
{
    if k == 0 {
        b
    } else {
        square_steps(b * b / (ONE as int), (k - 1) as nat)
    }
}

/// `ONE * exp(-y / SCALE)`, as computed: zero past [`EXP_CUTOFF`].
pub open spec fn exp_neg_spec(y: int) -> int {
    if y > EXP_CUTOFF {
        0
    } else {
        square_steps(exp_base(y), HALVINGS as nat)
    }
}

/// `max(0, 1 - r)`.
pub open spec fn repulsion_reach(r: int) -> int {
    if r < SCALE {
        SCALE - r
    } else {
        0
    }
}

/// Repulsion at distance `r` with strength `c`: `(c t^2 / 2, -c t)` where `t = max(0, 1 - r)`.
pub open spec fn repulsion_spec(r: int, c: int) -> (int, int) {
    let t = repulsion_reach(r);
    let ct = mul_spec(c, t);
    (trunc_div(mul_spec(ct, t), 2), -ct)
}

/// `(x - mu) / sigma`.
pub open spec fn radial_arg(x: int, mu: int, sigma: int) -> int {
    div_spec(sub_spec(x, mu), sigma)
}

/// Gaussian bump `w exp(-t^2)` with `t = (x - mu) / sigma`, and its derivative `-2 t value / sigma`.
pub open spec fn radial_spec(x: int, mu: int, sigma: int, w: int) -> (int, int) {
    let t = radial_arg(x, mu, sigma);
    let e = exp_neg_spec(mul_spec(t, t));
    let value = clamp(trunc_div(w * e, ONE as int));
    (value, div_spec(-mul_spec(add_spec(t, t), value), sigma))
}

proof fn lemma_square_step(b: int)
    requires
        0 <= b <= ONE,
    ensures
        0 <= b * b / (ONE as int) <= b,
{
    assert(b * b <= b * (ONE as int)) by (nonlinear_arith)
        requires 0 <= b <= ONE;
    assert(0 <= b * b / (ONE as int) <= b) by (nonlinear_arith)
        requires 0 <= b, b * b <= b * (ONE as int), ONE > 0;
}

proof fn lemma_exp_base_bounds(y: int)
    requires
        0 <= y <= EXP_CUTOFF,
    ensures
        0 < exp_base(y) <= ONE,
{
    let z = y * 0x100_0000_0000 / (SCALE as int);
    assert(0 <= z <= 0x4000_0000_0000) by (nonlinear_arith)
        requires z == y * 0x100_0000_0000 / (SCALE as int), 0 <= y <= EXP_CUTOFF;
    assert(0 <= (z * z) / (2 * ONE) <= z) by (nonlinear_arith)
        requires 0 <= z <= 0x4000_0000_0000;
}

/// Fixed-point `ONE * exp(-y / SCALE)` for `y >= 0`.
fn exp_neg(y: i64) -> (r: u128)
    requires
        0 <= y <= LIMIT,
    ensures
        r == exp_neg_spec(y as int),
        r <= ONE,
{
    if y > EXP_CUTOFF {
        return 0;
    }
    proof {
        lemma_exp_base_bounds(y as int);
    }
    let z: u128 = (y as u128) * 0x100_0000_0000 / (SCALE as u128);
    assert(z <= 0x4000_0000_0000) by (nonlinear_arith)
        requires z == (y as int) * 0x100_0000_0000 / (SCALE as int), 0 <= y <= EXP_CUTOFF;
    assert(z * z <= 0x1000_0000_0000_0000_0000_0000) by (nonlinear_arith)
        requires z <= 0x4000_0000_0000;
    let mut b: u128 = ONE - z + (z * z) / (2 * ONE);
    let mut i: u32 = 0;
    while i < HALVINGS
        invariant
            i <= HALVINGS,
            0 <= b <= ONE,
            square_steps(b as int, (HALVINGS - i) as nat) == exp_neg_spec(y as int),
        decreases HALVINGS - i,
    {
        proof {
            lemma_square_step(b as int);
        }
        assert(b * b <= ONE * ONE) by (nonlinear_arith)
            requires b <= ONE;
        b = b * b / ONE;
        i = i + 1;
    }
    b
}

/// Repulsion kernel at distance `r >= 0`: `(c_rep t^2 / 2, -c_rep t)` with `t = max(0, 1 - r)`.
pub fn repulsion_field(r: i64, c_rep: i64) -> (res: (i64, i64))
    requires
        0 <= r <= LIMIT,
        in_range(c_rep as int),
    ensures
        res.0 == repulsion_spec(r as int, c_rep as int).0,
        res.1 == repulsion_spec(r as int, c_rep as int).1,
        in_range(res.0 as int),
        in_range(res.1 as int),
{
    let t: i64 = if r < SCALE { SCALE - r } else { 0 };
    let ct = fx_mul(c_rep, t);
    (fx_halve(fx_mul(ct, t)), -ct)
}

/// Gaussian kernel: `(w exp(-t^2), -2 t value / sigma)` with `t = (x - mu) / sigma`.
pub fn radial_field(x: i64, mu: i64, sigma: i64, w: i64) -> (res: (i64, i64))
    requires
        in_range(x as int),
        in_range(mu as int),
        in_range(w as int),
        0 < sigma <= LIMIT,
    ensures
        res.0 == radial_spec(x as int, mu as int, sigma as int, w as int).0,
        res.1 == radial_spec(x as int, mu as int, sigma as int, w as int).1,
        in_range(res.0 as int),
        in_range(res.1 as int),
{
    let t = fx_div(fx_sub(x, mu), sigma);
    let tt = fx_mul(t, t);
    proof {
        lemma_trunc_div_bound((t as int) * (t as int), SCALE as int);
        assert((t as int) * (t as int) >= 0) by (nonlinear_arith);
    }
    let e = exp_neg(tt);
    assert(-0x4000_0000_0000_0000_0000_0000_0000_0000int <= (w as int) * (e as int)
        <= 0x4000_0000_0000_0000_0000_0000_0000_0000int) by (nonlinear_arith)
        requires in_range(w as int), 0 <= e <= ONE;
    let wide: i128 = (w as i128) * (e as i128);
    let value = clamp_wide(trunc_div_wide(wide, ONE as i128));
    let m = fx_mul(fx_add(t, t), value);
    (value, fx_div(-m, sigma))
}


/// At distance 1.0 and beyond, the repulsion kernel is exactly zero, value and
/// derivative, whatever the strength.
pub proof fn lemma_repulsion_cutoff(r: int, c_rep: int)
    requires
        r >= SCALE,
        in_range(c_rep),
    ensures
        repulsion_spec(r, c_rep) == (0int, 0int),
{
    assert(c_rep * 0 == 0);
}


pub open spec fn abs(a: int) -> int {
    if a >= 0 {
        a
    } else {
        -a
    }
}

proof fn lemma_clamp_abs(a: int, b: int)
    requires
        abs(a) <= abs(b),
    ensures
        abs(clamp(a)) <= abs(clamp(b)),
{
}

proof fn lemma_trunc_div_abs(a: int, b: int, d: int)
    requires
        d >= 1,
        abs(a) <= abs(b),
    ensures
        abs(trunc_div(a, d)) <= abs(trunc_div(b, d)),
{
    assert(abs(a) / d >= 0 && abs(b) / d >= 0) by (nonlinear_arith)
        requires abs(a) >= 0, abs(b) >= 0, d >= 1;
    assert(abs(trunc_div(a, d)) == abs(a) / d);
    assert(abs(trunc_div(b, d)) == abs(b) / d);
    lemma_div_is_ordered(abs(a), abs(b), d);
}

proof fn lemma_mul_abs(a: int, b: int, k: int)
    requires
        abs(a) <= abs(b),
    ensures
        abs(a * k) <= abs(b * k),
{
    assert(abs(a * k) == abs(a) * abs(k)) by (nonlinear_arith);
    assert(abs(b * k) == abs(b) * abs(k)) by (nonlinear_arith);
    assert(abs(a) * abs(k) <= abs(b) * abs(k)) by (nonlinear_arith)
        requires abs(a) <= abs(b), abs(k) >= 0;
}

proof fn lemma_half_square_gap(z1: int, z2: int)
    requires
        0 <= z1 <= z2 <= 0x4000_0000_0000,
    ensures
        (z2 * z2) / (2 * ONE) - (z1 * z1) / (2 * ONE) <= z2 - z1,
{
    let d: int = 2 * ONE;
    let q1 = (z1 * z1) / d;
    let q2 = (z2 * z2) / d;
    lemma_fundamental_div_mod(z1 * z1, d);
    lemma_fundamental_div_mod(z2 * z2, d);
    assert(0 <= (z1 * z1) % d < d) by {
        lemma_mod_bound(z1 * z1, d);
    };
    assert(0 <= (z2 * z2) % d < d) by {
        lemma_mod_bound(z2 * z2, d);
    };
    assert(z2 * z2 - z1 * z1 <= (z2 - z1) * d) by (nonlinear_arith)
        requires 0 <= z1 <= z2 <= 0x4000_0000_0000, d == 0x2000_0000_0000_0000;
    assert((q2 - q1) * d < (z2 - z1) * d + d) by (nonlinear_arith)
        requires
            z1 * z1 == d * q1 + (z1 * z1) % d,
            z2 * z2 == d * q2 + (z2 * z2) % d,
            0 <= (z1 * z1) % d < d,
            0 <= (z2 * z2) % d,
            z2 * z2 - z1 * z1 <= (z2 - z1) * d;
    assert(q2 - q1 < (z2 - z1) + 1) by (nonlinear_arith)
        requires (q2 - q1) * d < (z2 - z1 + 1) * d, d > 0;
}

proof fn lemma_exp_base_mono(y1: int, y2: int)
    requires
        0 <= y1 <= y2 <= EXP_CUTOFF,
    ensures
        exp_base(y2) <= exp_base(y1),
{
    let z1 = y1 * 0x100_0000_0000 / (SCALE as int);
    let z2 = y2 * 0x100_0000_0000 / (SCALE as int);
    assert(y1 * 0x100_0000_0000 <= y2 * 0x100_0000_0000) by (nonlinear_arith)
        requires y1 <= y2;
    lemma_div_is_ordered(y1 * 0x100_0000_0000, y2 * 0x100_0000_0000, SCALE as int);
    assert(0 <= z2 <= 0x4000_0000_0000) by (nonlinear_arith)
        requires z2 == y2 * 0x100_0000_0000 / (SCALE as int), 0 <= y2 <= EXP_CUTOFF;
    assert(0 <= z1) by (nonlinear_arith)
        requires z1 == y1 * 0x100_0000_0000 / (SCALE as int), 0 <= y1;
    lemma_half_square_gap(z1, z2);
}

proof fn lemma_square_steps_mono(b1: int, b2: int, k: nat)
    requires
        0 <= b1 <= b2 <= ONE,
    ensures
        0 <= square_steps(b1, k) <= square_steps(b2, k) <= ONE,
    decreases k,
{
    if k > 0 {
        lemma_square_step(b1);
        lemma_square_step(b2);
        assert(b1 * b1 <= b2 * b2) by (nonlinear_arith)
            requires 0 <= b1 <= b2;
        lemma_div_is_ordered(b1 * b1, b2 * b2, ONE as int);
        lemma_square_steps_mono(b1 * b1 / (ONE as int), b2 * b2 / (ONE as int), (k - 1) as nat);
    }
}

/// The exponential is non-increasing in its exponent and stays within `[0, ONE]`.
pub proof fn lemma_exp_neg_mono(y1: int, y2: int)
    requires
        0 <= y1 <= y2,
    ensures
        0 <= exp_neg_spec(y2) <= exp_neg_spec(y1) <= ONE,
{
    if y1 <= EXP_CUTOFF {
        lemma_exp_base_bounds(y1);
        lemma_square_steps_mono(exp_base(y1), exp_base(y1), HALVINGS as nat);
        if y2 <= EXP_CUTOFF {
            lemma_exp_base_bounds(y2);
            lemma_exp_base_mono(y1, y2);
            lemma_square_steps_mono(exp_base(y2), exp_base(y1), HALVINGS as nat);
        }
    }
}

/// The Gaussian kernel does not grow in magnitude as its input moves away
/// from the centre: `|x1 - mu| <= |x2 - mu|` gives `|value(x2)| <= |value(x1)|`.
pub proof fn lemma_radial_decay(x1: int, x2: int, mu: int, sigma: int, w: int)
    requires
        in_range(x1),
        in_range(x2),
        in_range(mu),
        in_range(w),
        0 < sigma <= LIMIT,
        abs(x1 - mu) <= abs(x2 - mu),
    ensures
        abs(radial_spec(x2, mu, sigma, w).0) <= abs(radial_spec(x1, mu, sigma, w).0),
{
    let a1 = sub_spec(x1, mu);
    let a2 = sub_spec(x2, mu);
    lemma_clamp_abs(x1 - mu, x2 - mu);
    lemma_mul_abs(a1, a2, SCALE as int);
    lemma_trunc_div_abs(a1 * SCALE, a2 * SCALE, sigma);
    lemma_clamp_abs(trunc_div(a1 * SCALE, sigma), trunc_div(a2 * SCALE, sigma));
    let t1 = radial_arg(x1, mu, sigma);
    let t2 = radial_arg(x2, mu, sigma);
    assert(0 <= t1 * t1 <= t2 * t2) by (nonlinear_arith)
        requires abs(t1) <= abs(t2);
    lemma_trunc_div_abs(t1 * t1, t2 * t2, SCALE as int);
    lemma_trunc_div_bound(t1 * t1, SCALE as int);
    lemma_clamp_abs(trunc_div(t1 * t1, SCALE as int), trunc_div(t2 * t2, SCALE as int));
    let y1 = mul_spec(t1, t1);
    let y2 = mul_spec(t2, t2);
    lemma_exp_neg_mono(y1, y2);
    let e1 = exp_neg_spec(y1);
    let e2 = exp_neg_spec(y2);
    lemma_mul_abs(e2, e1, w);
    assert(w * e2 == e2 * w && w * e1 == e1 * w) by (nonlinear_arith);
    lemma_trunc_div_abs(w * e2, w * e1, ONE as int);
    lemma_clamp_abs(trunc_div(w * e2, ONE as int), trunc_div(w * e1, ONE as int));
}


proof fn lemma_square_steps_one(k: nat)
    ensures
        square_steps(ONE as int, k) == ONE,
    decreases k,
{
    if k > 0 {
        assert((ONE as int) * (ONE as int) / (ONE as int) == ONE) by {
            lemma_div_multiples_vanish(ONE as int, ONE as int);
        };
        lemma_square_steps_one((k - 1) as nat);
    }
}

/// The exponential of zero is exactly one.
pub proof fn lemma_exp_neg_zero()
    ensures
        exp_neg_spec(0) == ONE,
{
    assert(0int * 0x100_0000_0000 == 0);
    assert(0int / (SCALE as int) == 0);
    assert(0int / (2 * ONE) == 0);
    assert(exp_base(0) == ONE);
    lemma_square_steps_one(HALVINGS as nat);
}

/// At its centre the Gaussian kernel takes its weight, with zero slope.
pub proof fn lemma_radial_peak(mu: int, sigma: int, w: int)
    requires
        in_range(mu),
        in_range(w),
        0 < sigma <= LIMIT,
    ensures
        radial_spec(mu, mu, sigma, w) == (w, 0int),
{
    assert(radial_arg(mu, mu, sigma) == 0);
    assert(mul_spec(0, 0) == 0);
    lemma_exp_neg_zero();
    assert(w * (ONE as int) / (ONE as int) == w) by {
        lemma_div_multiples_vanish(w, ONE as int);
        assert(w * (ONE as int) == (ONE as int) * w) by (nonlinear_arith);
    };
    assert((-w) * (ONE as int) / (ONE as int) == -w) by {
        lemma_div_multiples_vanish(-w, ONE as int);
        assert((-w) * (ONE as int) == (ONE as int) * (-w)) by (nonlinear_arith);
    };
    assert((-w) * (ONE as int) == -(w * (ONE as int))) by (nonlinear_arith);
    assert(clamp(trunc_div(w * ONE, ONE as int)) == w);
    assert(add_spec(0, 0) == 0);
    assert(mul_spec(0, w) == 0);
    assert(div_spec(0, sigma) == 0);
}

/// With a non-negative weight the Gaussian kernel's value lies in `[0, w]`.
pub proof fn lemma_radial_bounds(x: int, mu: int, sigma: int, w: int)
    requires
        in_range(x),
        in_range(mu),
        0 <= w <= LIMIT,
        0 < sigma <= LIMIT,
    ensures
        0 <= radial_spec(x, mu, sigma, w).0 <= w,
{
    let t = radial_arg(x, mu, sigma);
    assert(t * t >= 0) by (nonlinear_arith);
    lemma_trunc_div_bound(t * t, SCALE as int);
    let y = mul_spec(t, t);
    lemma_exp_neg_mono(y, y);
    let e = exp_neg_spec(y);
    assert(0 <= w * e <= w * (ONE as int)) by (nonlinear_arith)
        requires 0 <= w, 0 <= e <= ONE;
    lemma_div_is_ordered(w * e, w * (ONE as int), ONE as int);
    lemma_div_multiples_vanish(w, ONE as int);
    assert(w * (ONE as int) == (ONE as int) * w) by (nonlinear_arith);
    assert(w * e / (ONE as int) >= 0) by (nonlinear_arith)
        requires w * e >= 0;
}

} // verus!
