use particle_lenia::fixed::{fx_div, fx_mul, isqrt, LIMIT, SCALE};
use particle_lenia::kernel::{radial_field, repulsion_field};

fn fx(v: f64) -> i64 {
    (v * SCALE as f64).round() as i64
}

fn as_f64(v: i64) -> f64 {
    v as f64 / SCALE as f64
}

fn radial_closed_form(x: f64, mu: f64, sigma: f64, w: f64) -> (f64, f64) {
    let t = (x - mu) / sigma;
    let y = w * (-t * t).exp();
    (y, -2.0 * t * y / sigma)
}

#[test]
fn repulsion_is_zero_from_distance_one() {
    for &r in &[1.0, 1.5, 2.0, 100.0] {
        for &c in &[0.0, 0.5, 1.0, 7.0] {
            assert_eq!(repulsion_field(fx(r), fx(c)), (0, 0));
        }
    }
}

#[test]
fn repulsion_at_half_distance() {
    assert_eq!(repulsion_field(fx(0.5), fx(1.0)), (fx(0.125), fx(-0.5)));
}

#[test]
fn repulsion_at_zero_is_half_the_strength() {
    assert_eq!(repulsion_field(0, fx(1.0)), (fx(0.5), fx(-1.0)));
    assert_eq!(repulsion_field(0, fx(3.0)), (fx(1.5), fx(-3.0)));
}

#[test]
fn radial_matches_closed_form() {
    let cases = [
        (2.0, 4.0, 1.0, 0.022),
        (0.0, 4.0, 1.0, 0.022),
        (5.5, 4.0, 1.0, 0.022),
        (0.3, 0.6, 0.15, 1.0),
        (0.7, 0.6, 0.15, 1.0),
        (0.6, 0.6, 0.15, 1.0),
    ];
    for &(x, mu, sigma, w) in &cases {
        let (v, d) = radial_field(fx(x), fx(mu), fx(sigma), fx(w));
        let (ev, ed) = radial_closed_form(x, mu, sigma, w);
        assert!((as_f64(v) - ev).abs() < 1e-6, "value at {x}: {} vs {ev}", as_f64(v));
        assert!((as_f64(d) - ed).abs() < 1e-6, "derivative at {x}: {} vs {ed}", as_f64(d));
    }
}

#[test]
fn radial_far_tail_is_resolved() {
    let (v, d) = radial_field(0, fx(4.0), fx(1.0), fx(0.022));
    let (ev, ed) = radial_closed_form(0.0, 4.0, 1.0, 0.022);
    assert!((as_f64(v) - 2.4757738e-9).abs() < 1e-14);
    assert!((as_f64(v) - ev).abs() < 1e-14);
    assert!((as_f64(d) - ed).abs() < 1e-14);
}

#[test]
fn radial_peak_is_the_weight() {
    assert_eq!(radial_field(fx(4.0), fx(4.0), fx(1.0), fx(0.022)), (fx(0.022), 0));
}

#[test]
fn radial_decays_away_from_the_centre() {
    let mut last = radial_field(fx(4.0), fx(4.0), fx(1.0), fx(1.0)).0;
    for k in 1..40i64 {
        let off = k * fx(0.1);
        let right = radial_field(fx(4.0) + off, fx(4.0), fx(1.0), fx(1.0)).0;
        let left = radial_field(fx(4.0) - off, fx(4.0), fx(1.0), fx(1.0)).0;
        assert_eq!(left, right);
        assert!(right < last);
        last = right;
    }
    assert_eq!(radial_field(fx(20.0), fx(4.0), fx(1.0), fx(1.0)), (0, 0));
}

#[test]
fn fixed_point_product_and_quotient() {
    assert_eq!(fx_mul(fx(1.5), fx(-2.0)), fx(-3.0));
    assert_eq!(fx_mul(LIMIT, fx(2.0)), LIMIT);
    assert_eq!(fx_mul(-LIMIT, fx(2.0)), -LIMIT);
    assert_eq!(fx_div(fx(1.0), fx(3.0)), 333_333_333_333_333);
    assert_eq!(fx_div(fx(-1.0), fx(3.0)), -333_333_333_333_333);
}

#[test]
fn integer_square_roots() {
    assert_eq!(isqrt(0), 0);
    assert_eq!(isqrt(1), 1);
    assert_eq!(isqrt(15), 3);
    assert_eq!(isqrt(16), 4);
    assert_eq!(isqrt(1u128 << 122), 1u128 << 61);
}
