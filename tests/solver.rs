use particle_lenia::field::{Fields, Parameters, Vec2};
use particle_lenia::fixed::{LIMIT, SCALE};
use particle_lenia::kernel::{radial_field, repulsion_field};
use particle_lenia::solver::{
    accumulate_pairs, calculate_fields, display_radius, pair_term, reset_fields, update_position,
    Creature, STEP_SIZE,
};

fn fx(v: f64) -> i64 {
    (v * SCALE as f64).round() as i64
}

fn as_f64(v: i64) -> f64 {
    v as f64 / SCALE as f64
}

fn pt(x: f64, y: f64) -> Vec2 {
    Vec2::new(fx(x), fx(y))
}

fn baseline(p: &Parameters) -> Fields {
    Fields {
        R_val: repulsion_field(0, p.c_rep).0,
        R_grad: Vec2::zero(),
        U_val: radial_field(0, p.mu_k, p.sigma_k, p.w_k).0,
        U_grad: Vec2::zero(),
        E_grad: Vec2::zero(),
    }
}

fn after_pairs(positions: &Vec<Vec2>, p: &Parameters) -> Vec<Fields> {
    let mut fields = vec![Fields::default(); positions.len()];
    reset_fields(&mut fields, p);
    accumulate_pairs(&mut fields, positions, p);
    fields
}

#[test]
fn default_parameters() {
    let p = Parameters::default();
    assert_eq!(p.mu_k, fx(4.0));
    assert_eq!(p.sigma_k, fx(1.0));
    assert_eq!(p.w_k, fx(0.022));
    assert_eq!(p.mu_g, fx(0.6));
    assert_eq!(p.sigma_g, fx(0.15));
    assert_eq!(p.c_rep, fx(1.0));
    assert_eq!(STEP_SIZE, fx(0.1));
}

#[test]
fn reset_sets_the_baseline() {
    let p = Parameters::default();
    let mut fields = vec![
        Fields { R_val: 7, R_grad: Vec2::new(1, 2), U_val: -3, U_grad: Vec2::new(4, 5), E_grad: Vec2::new(6, 7) };
        3
    ];
    reset_fields(&mut fields, &p);
    for f in &fields {
        assert_eq!(*f, baseline(&p));
    }
    assert_eq!(fields[0].R_val, fx(0.5));
    assert!((as_f64(fields[0].U_val) - 0.022 * (-16.0f64).exp()).abs() < 1e-14);
}

#[test]
fn reset_twice_equals_reset_once() {
    let p = Parameters::default();
    let mut fields = vec![Fields::default(); 4];
    reset_fields(&mut fields, &p);
    let once = fields.clone();
    reset_fields(&mut fields, &p);
    assert_eq!(fields, once);
}

#[test]
fn two_particles_at_distance_two() {
    let p = Parameters::default();
    let positions = vec![pt(1.0, 0.0), pt(-1.0, 0.0)];
    let fields = after_pairs(&positions, &p);
    let base = baseline(&p);
    let (k, dk) = radial_field(fx(2.0), p.mu_k, p.sigma_k, p.w_k);
    for f in &fields {
        assert_eq!(f.R_val, base.R_val);
        assert_eq!(f.R_grad, Vec2::zero());
        assert_eq!(f.U_val, base.U_val + k);
        assert!((as_f64(f.U_val - base.U_val) - 0.022 * (-4.0f64).exp()).abs() < 1e-6);
    }
    assert_eq!(fields[0].U_grad, Vec2::new(dk, 0));
    assert_eq!(fields[1].U_grad, Vec2::new(-dk, 0));
    assert!((as_f64(dk) - 4.0 * 0.022 * (-4.0f64).exp()).abs() < 1e-6);
}

#[test]
fn two_particles_at_distance_half() {
    let p = Parameters::default();
    let positions = vec![pt(0.0, 0.5), pt(0.0, 0.0)];
    let fields = after_pairs(&positions, &p);
    let base = baseline(&p);
    assert_eq!(fields[0].R_val - base.R_val, fx(0.125));
    assert_eq!(fields[1].R_val - base.R_val, fx(0.125));
    assert_eq!(fields[0].R_grad, Vec2::new(0, fx(-0.5)));
    assert_eq!(fields[1].R_grad, Vec2::new(0, fx(0.5)));
}

#[test]
fn pair_terms_are_symmetric() {
    let p = Parameters::default();
    let pairs = [
        (pt(0.3, -0.2), pt(-0.1, 0.4)),
        (pt(3.0, 1.0), pt(-0.5, 2.25)),
        (pt(0.0, 0.0), pt(0.7, 0.0)),
    ];
    for (a, b) in pairs {
        let ab = pair_term(a, b, &p);
        let ba = pair_term(b, a, &p);
        assert_eq!(ab.R, ba.R);
        assert_eq!(ab.U, ba.U);
        assert_eq!(ab.R_grad, ba.R_grad.neg());
        assert_eq!(ab.U_grad, ba.U_grad.neg());
    }
}

#[test]
fn coincident_particles_add_values_but_no_gradient() {
    let p = Parameters::default();
    let positions = vec![pt(1.0, 1.0), pt(1.0, 1.0)];
    let fields = after_pairs(&positions, &p);
    let base = baseline(&p);
    let k = radial_field(0, p.mu_k, p.sigma_k, p.w_k).0;
    for f in &fields {
        assert_eq!(f.R_val, base.R_val + fx(0.5));
        assert_eq!(f.U_val, base.U_val + k);
        assert_eq!(f.R_grad, Vec2::zero());
        assert_eq!(f.U_grad, Vec2::zero());
    }
}

#[test]
fn three_particles_sum_every_pair() {
    let p = Parameters::default();
    let positions = vec![pt(0.0, 0.0), pt(0.5, 0.0), pt(0.0, 0.75)];
    let fields = after_pairs(&positions, &p);
    let base = baseline(&p);
    let r01 = repulsion_field(fx(0.5), p.c_rep).0;
    let r02 = repulsion_field(fx(0.75), p.c_rep).0;
    let r12 = pair_term(positions[1], positions[2], &p).R;
    assert!((as_f64(r12) - 0.5 * (1.0 - 0.8125f64.sqrt()).powi(2)).abs() < 1e-12);
    assert_eq!(fields[0].R_val, base.R_val + r01 + r02);
    assert_eq!(fields[1].R_val, base.R_val + r01 + r12);
    assert_eq!(fields[2].R_val, base.R_val + r02 + r12);
}

#[test]
fn single_particle_step_keeps_the_baseline() {
    let p = Parameters::default();
    let mut c = Creature::new(p, vec![pt(2.0, -3.0)]);
    c.step();
    let base = baseline(&p);
    let dg = radial_field(base.U_val, p.mu_g, p.sigma_g, SCALE).1;
    assert_eq!(c.fields[0].R_val, base.R_val);
    assert_eq!(c.fields[0].U_val, base.U_val);
    assert_eq!(c.fields[0].R_grad, Vec2::zero());
    assert_eq!(c.fields[0].U_grad, Vec2::zero());
    assert_eq!(c.fields[0].E_grad, Vec2::zero().sub(Vec2::zero().scale(dg)));
    assert_eq!(c.positions[0], pt(2.0, -3.0));
}

#[test]
fn energy_gradient_combines_repulsion_and_growth() {
    let p = Parameters::default();
    let positions = vec![pt(0.0, 0.0), pt(0.6, 0.0), pt(3.5, 1.0)];
    let mut fields = vec![Fields::default(); 3];
    reset_fields(&mut fields, &p);
    let mut expected = fields.clone();
    accumulate_pairs(&mut expected, &positions, &p);
    calculate_fields(&mut fields, &positions, &p);
    for (f, e) in fields.iter().zip(expected.iter()) {
        let dg = radial_field(e.U_val, p.mu_g, p.sigma_g, SCALE).1;
        assert_eq!(f.E_grad, e.R_grad.sub(e.U_grad.scale(dg)));
        assert_eq!(f.R_val, e.R_val);
        assert_eq!(f.U_grad, e.U_grad);
    }
    let mut moved = positions.clone();
    update_position(&mut moved, &fields);
    for k in 0..3 {
        let step = fields[k].E_grad.neg().scale(STEP_SIZE);
        assert_eq!(moved[k], positions[k].add(step));
    }
}

#[test]
fn close_pair_is_pushed_apart() {
    let p = Parameters::default();
    let mut c = Creature::new(p, vec![pt(0.2, 0.0), pt(-0.2, 0.0)]);
    c.step();
    assert!(c.positions[0].x > fx(0.2));
    assert!(c.positions[1].x < fx(-0.2));
    assert_eq!(c.positions[0].x, -c.positions[1].x);
    assert!((as_f64(c.positions[0].x) - 0.26).abs() < 1e-6);
}

#[test]
fn steps_are_deterministic() {
    let p = Parameters::default();
    let start = vec![pt(0.0, 0.0), pt(0.9, 0.1), pt(-0.4, 1.3), pt(2.5, -1.0)];
    let mut a = Creature::new(p, start.clone());
    let mut b = Creature::new(p, start);
    b.fields[2].U_val = 12345;
    for _ in 0..5 {
        a.step();
        b.step();
        assert_eq!(a.fields, b.fields);
        assert_eq!(a.positions, b.positions);
    }
}

#[test]
fn marker_radius() {
    assert_eq!(display_radius(fx(1.0), fx(0.5)), fx(0.4));
    assert_eq!(display_radius(fx(-1.0), fx(-0.5)), fx(0.4));
    assert_eq!(display_radius(fx(1.0), fx(-0.5)), fx(-0.4));
    assert_eq!(display_radius(fx(2.0), fx(3.0)), 133_333_333_333_333);
    assert_eq!(display_radius(fx(1.0), 0), LIMIT);
    assert_eq!(display_radius(0, 0), LIMIT);
}
