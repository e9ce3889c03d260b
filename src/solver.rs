//! One step of a creature: reset every particle's fields, accumulate the
//! contribution of every unordered pair, derive the energy gradient through
//! the growth kernel, and move each particle down that gradient.
use vstd::prelude::*;
use crate::field::{Fields, Parameters, Vec2};
use crate::fixed::{
    add_spec, clamp, div_spec, fx_add, fx_div, fx_mul, in_range, isqrt, isqrt_spec, lemma_isqrt_nonneg, mul_spec,
    sub_spec, trunc_div, LIMIT, SCALE,
};
use vstd::arithmetic::div_mod::lemma_div_multiples_vanish;
use crate::kernel::{abs, radial_field, radial_spec, repulsion_field, repulsion_spec};

verus! {

/// What one pair `(i, j)` adds to particle `i`. Particle `j` receives the
/// same values and the negated gradients (see [`PairTerm::mirror`]).
#[derive(Clone, Copy, Debug, PartialEq, Eq, Structural)]
pub struct PairTerm {
    pub R: i64,
    pub R_grad: Vec2,
    pub U: i64,
    pub U_grad: Vec2,
}

impl PairTerm {
    pub open spec fn wf(self) -> bool {
        &&& in_range(self.R as int)
        &&& self.R_grad.wf()
        &&& in_range(self.U as int)
        &&& self.U_grad.wf()
    }

    /// The same values with the gradients negated.
    pub open spec fn mirror(self) -> PairTerm {
        PairTerm { R: self.R, R_grad: self.R_grad.neg_spec(), U: self.U, U_grad: self.U_grad.neg_spec() }
    }
}

/// Euclidean distance between `a` and `b`, rounded down and saturated.
pub open spec fn distance_spec(a: Vec2, b: Vec2) -> int {
    let d = a.sub_spec(b);
    clamp(isqrt_spec(d.x * d.x + d.y * d.y))
}

/// Unit vector pointing from `b` to `a`. Where the two points coincide the
/// direction is undefined, and the zero vector is used instead: such a pair
/// still adds its values, but no gradient.
pub open spec fn direction_spec(a: Vec2, b: Vec2) -> Vec2 {
    let d = a.sub_spec(b);
    let r = distance_spec(a, b);
    if r == 0 {
        Vec2::zero_spec()
    } else {
        Vec2 { x: div_spec(d.x as int, r) as i64, y: div_spec(d.y as int, r) as i64 }
    }
}

/// The contribution of the pair at positions `a` (the first particle) and `b`.
/// Repulsion acts only below distance 1.0; the potential kernel acts always.
pub open spec fn pair_term_spec(a: Vec2, b: Vec2, p: Parameters) -> PairTerm {
    let r = distance_spec(a, b);
    let d = direction_spec(a, b);
    let rep = if r < SCALE { repulsion_spec(r, p.c_rep as int) } else { (0int, 0int) };
    let k = radial_spec(r, p.mu_k as int, p.sigma_k as int, p.w_k as int);
    PairTerm { R: rep.0 as i64, R_grad: d.scale_spec(rep.1), U: k.0 as i64, U_grad: d.scale_spec(k.1) }
}

fn distance(a: Vec2, b: Vec2) -> (r: i64)
    requires
        a.wf(),
        b.wf(),
    ensures
        r == distance_spec(a, b),
        0 <= r <= LIMIT,
{
    let d = a.sub(b);
    let dx = d.x as i128;
    let dy = d.y as i128;
    assert(dx * dx <= 0x400_0000_0000_0000_0000_0000_0000_0000) by (nonlinear_arith)
        requires -0x2000_0000_0000_0000 <= dx <= 0x2000_0000_0000_0000;
    assert(dy * dy <= 0x400_0000_0000_0000_0000_0000_0000_0000) by (nonlinear_arith)
        requires -0x2000_0000_0000_0000 <= dy <= 0x2000_0000_0000_0000;
    assert(dx * dx >= 0 && dy * dy >= 0) by (nonlinear_arith);
    let n: u128 = (dx * dx) as u128 + (dy * dy) as u128;
    let s = isqrt(n);
    if s > LIMIT as u128 {
        LIMIT
    } else {
        s as i64
    }
}

/// The contribution of the pair at positions `a` and `b` (see [`pair_term_spec`]).
pub fn pair_term(a: Vec2, b: Vec2, p: &Parameters) -> (t: PairTerm)
    requires
        a.wf(),
        b.wf(),
        p.wf(),
    ensures
        t == pair_term_spec(a, b, *p),
        t.wf(),
{
    let r = distance(a, b);
    let dir = if r == 0 {
        Vec2::zero()
    } else {
        let d = a.sub(b);
        Vec2 { x: fx_div(d.x, r), y: fx_div(d.y, r) }
    };
    let rep = if r < SCALE { repulsion_field(r, p.c_rep) } else { (0, 0) };
    let k = radial_field(r, p.mu_k, p.sigma_k, p.w_k);
    PairTerm { R: rep.0, R_grad: dir.scale(rep.1), U: k.0, U_grad: dir.scale(k.1) }
}

proof fn lemma_trunc_div_odd(a: int, d: int)
    requires
        d >= 1,
    ensures
        trunc_div(-a, d) == -trunc_div(a, d),
{
}

proof fn lemma_mul_odd(a: int, b: int)
    ensures
        mul_spec(-a, b) == -mul_spec(a, b),
{
    assert((-a) * b == -(a * b)) by (nonlinear_arith);
    lemma_trunc_div_odd(a * b, SCALE as int);
}

proof fn lemma_div_odd(a: int, b: int)
    requires
        b >= 1,
    ensures
        div_spec(-a, b) == -div_spec(a, b),
{
    assert((-a) * SCALE == -(a * SCALE)) by (nonlinear_arith);
    lemma_trunc_div_odd(a * SCALE, b);
}

/// Swapping the two particles of a pair keeps the values it adds and negates
/// its gradients: the contributions to the two particles are equal in value
/// and opposite in gradient.
pub proof fn lemma_pair_symmetry(a: Vec2, b: Vec2, p: Parameters)
    requires
        a.wf(),
        b.wf(),
        p.wf(),
    ensures
        pair_term_spec(b, a, p) == pair_term_spec(a, b, p).mirror(),
{
    let d = a.sub_spec(b);
    let e = b.sub_spec(a);
    assert(e.x == -d.x && e.y == -d.y);
    assert(e.x * e.x == d.x * d.x) by (nonlinear_arith)
        requires e.x == -d.x;
    assert(e.y * e.y == d.y * d.y) by (nonlinear_arith)
        requires e.y == -d.y;
    assert(distance_spec(b, a) == distance_spec(a, b));
    let r = distance_spec(a, b);
    if r != 0 {
        lemma_isqrt_nonneg(d.x * d.x + d.y * d.y);
        lemma_div_odd(d.x as int, r);
        lemma_div_odd(d.y as int, r);
    }
    let da = direction_spec(a, b);
    let db = direction_spec(b, a);
    assert(db == da.neg_spec());
    let rep = if r < SCALE { repulsion_spec(r, p.c_rep as int) } else { (0int, 0int) };
    let k = radial_spec(r, p.mu_k as int, p.sigma_k as int, p.w_k as int);
    lemma_mul_odd(da.x as int, rep.1);
    lemma_mul_odd(da.y as int, rep.1);
    lemma_mul_odd(da.x as int, k.1);
    lemma_mul_odd(da.y as int, k.1);
}


/// `f` with the values and gradients of `t` added.
pub open spec fn add_term(f: Fields, t: PairTerm) -> Fields {
    Fields {
        R_val: add_spec(f.R_val as int, t.R as int) as i64,
        R_grad: f.R_grad.add_spec(t.R_grad),
        U_val: add_spec(f.U_val as int, t.U as int) as i64,
        U_grad: f.U_grad.add_spec(t.U_grad),
        E_grad: f.E_grad,
    }
}

/// `f` with the values of `t` added and its gradients subtracted.
pub open spec fn sub_term(f: Fields, t: PairTerm) -> Fields {
    Fields {
        R_val: add_spec(f.R_val as int, t.R as int) as i64,
        R_grad: f.R_grad.sub_spec(t.R_grad),
        U_val: add_spec(f.U_val as int, t.U as int) as i64,
        U_grad: f.U_grad.sub_spec(t.U_grad),
        E_grad: f.E_grad,
    }
}

/// The pair `(i, j)` applied: `i` receives its term, `j` the mirrored term.
pub open spec fn apply_pair_spec(s: Seq<Fields>, pos: Seq<Vec2>, p: Parameters, i: int, j: int) -> Seq<Fields> {
    let t = pair_term_spec(pos[i], pos[j], p);
    s.update(i, add_term(s[i], t)).update(j, sub_term(s[j], t))
}

/// The pairs `(i, i + 1), ..., (i, j - 1)` applied in that order.
pub open spec fn row_spec(s: Seq<Fields>, pos: Seq<Vec2>, p: Parameters, i: int, j: int) -> Seq<Fields>
    decreases j - i,
{
    if j <= i + 1 {
        s
    } else {
        apply_pair_spec(row_spec(s, pos, p, i, j - 1), pos, p, i, j - 1)
    }
}

/// Applying the pair `(i, j)` gives particle `j` exactly the mirror of what it
/// gives particle `i`: the same values, the negated gradients.
pub proof fn lemma_pair_update_mirrored(s: Seq<Fields>, pos: Seq<Vec2>, p: Parameters, i: int, j: int)
    requires
        0 <= i < j < s.len(),
        s.len() == pos.len(),
    ensures
        ({
            let t = pair_term_spec(pos[i], pos[j], p);
            let r = apply_pair_spec(s, pos, p, i, j);
            &&& r[i] == add_term(s[i], t)
            &&& r[j] == add_term(s[j], t.mirror())
            &&& forall|k: int| 0 <= k < s.len() && k != i && k != j ==> r[k] == s[k]
        }),
{
}

/// Every pair `(a, b)` with `a < b` and `a < i`, in lexicographic order.
pub open spec fn rows_spec(s: Seq<Fields>, pos: Seq<Vec2>, p: Parameters, i: int) -> Seq<Fields>
    decreases i,
{
    if i <= 0 {
        s
    } else {
        row_spec(rows_spec(s, pos, p, i - 1), pos, p, i - 1, pos.len() as int)
    }
}

/// Every unordered pair of particles applied once.
pub open spec fn accumulate_spec(s: Seq<Fields>, pos: Seq<Vec2>, p: Parameters) -> Seq<Fields> {
    rows_spec(s, pos, p, pos.len() as int)
}

/// The fields of a particle before any pair: each kernel at zero, all gradients zero.
pub open spec fn baseline_spec(p: Parameters) -> Fields {
    Fields {
        R_val: repulsion_spec(0, p.c_rep as int).0 as i64,
        R_grad: Vec2::zero_spec(),
        U_val: radial_spec(0, p.mu_k as int, p.sigma_k as int, p.w_k as int).0 as i64,
        U_grad: Vec2::zero_spec(),
        E_grad: Vec2::zero_spec(),
    }
}

pub open spec fn reset_spec(s: Seq<Fields>, p: Parameters) -> Seq<Fields> {
    Seq::new(s.len(), |k: int| baseline_spec(p))
}

/// The energy gradient `R_grad - dG * U_grad`, with `dG` the derivative of
/// the growth kernel (weight 1.0) at `U_val`.
pub open spec fn growth_spec(f: Fields, p: Parameters) -> Fields {
    let dG = radial_spec(f.U_val as int, p.mu_g as int, p.sigma_g as int, SCALE as int).1;
    Fields { E_grad: f.R_grad.sub_spec(f.U_grad.scale_spec(dG)), ..f }
}

pub open spec fn growth_all_spec(s: Seq<Fields>, p: Parameters) -> Seq<Fields> {
    Seq::new(s.len(), |k: int| growth_spec(s[k], p))
}

pub open spec fn all_wf(s: Seq<Fields>) -> bool {
    forall|k: int| 0 <= k < s.len() ==> #[trigger] s[k].wf()
}

pub open spec fn all_points_wf(s: Seq<Vec2>) -> bool {
    forall|k: int| 0 <= k < s.len() ==> #[trigger] s[k].wf()
}

/// Phase one: every particle's fields set to the baseline.
pub fn reset_fields(fields: &mut Vec<Fields>, p: &Parameters)
    requires
        p.wf(),
    ensures
        final(fields)@ == reset_spec(old(fields)@, *p),
        all_wf(final(fields)@),
{
    let r = repulsion_field(0, p.c_rep).0;
    let u = radial_field(0, p.mu_k, p.sigma_k, p.w_k).0;
    let base = Fields { R_val: r, R_grad: Vec2::zero(), U_val: u, U_grad: Vec2::zero(), E_grad: Vec2::zero() };
    let n = fields.len();
    let mut k: usize = 0;
    while k < n
        invariant
            n == fields.len(),
            n == old(fields)@.len(),
            k <= n,
            base == baseline_spec(*p),
            base.wf(),
            forall|m: int| 0 <= m < k ==> fields@[m] == base,
        decreases n - k,
    {
        fields.set(k, base);
        k = k + 1;
    }
    assert(fields@ =~= reset_spec(old(fields)@, *p));
}

/// Resetting twice gives what resetting once gives.
pub proof fn lemma_reset_idempotent(s: Seq<Fields>, p: Parameters)
    ensures
        reset_spec(reset_spec(s, p), p) == reset_spec(s, p),
{
    assert(reset_spec(reset_spec(s, p), p) =~= reset_spec(s, p));
}

fn add_term_exec(f: Fields, t: PairTerm) -> (r: Fields)
    requires
        f.wf(),
        t.wf(),
    ensures
        r == add_term(f, t),
        r.wf(),
{
    Fields {
        R_val: fx_add(f.R_val, t.R),
        R_grad: f.R_grad.add(t.R_grad),
        U_val: fx_add(f.U_val, t.U),
        U_grad: f.U_grad.add(t.U_grad),
        E_grad: f.E_grad,
    }
}

fn sub_term_exec(f: Fields, t: PairTerm) -> (r: Fields)
    requires
        f.wf(),
        t.wf(),
    ensures
        r == sub_term(f, t),
        r.wf(),
{
    Fields {
        R_val: fx_add(f.R_val, t.R),
        R_grad: f.R_grad.sub(t.R_grad),
        U_val: fx_add(f.U_val, t.U),
        U_grad: f.U_grad.sub(t.U_grad),
        E_grad: f.E_grad,
    }
}

/// Phase two: the contribution of every unordered pair `(i, j)`, `i < j`,
/// added once, in lexicographic order.
pub fn accumulate_pairs(fields: &mut Vec<Fields>, positions: &Vec<Vec2>, p: &Parameters)
    requires
        p.wf(),
        old(fields)@.len() == positions@.len(),
        all_wf(old(fields)@),
        all_points_wf(positions@),
    ensures
        final(fields)@.len() == old(fields)@.len(),
        final(fields)@ == accumulate_spec(old(fields)@, positions@, *p),
        all_wf(final(fields)@),
{
    let n = positions.len();
    let ghost s0 = fields@;
    let mut i: usize = 0;
    while i < n
        invariant
            n == positions@.len(),
            n == fields@.len(),
            i <= n,
            p.wf(),
            all_wf(fields@),
            all_points_wf(positions@),
            fields@ == rows_spec(s0, positions@, *p, i as int),
        decreases n - i,
    {
        let ghost start = fields@;
        let mut j: usize = i + 1;
        while j < n
            invariant
                n == positions@.len(),
                n == fields@.len(),
                i < n,
                i + 1 <= j <= n,
                p.wf(),
                all_wf(fields@),
                all_points_wf(positions@),
                start == rows_spec(s0, positions@, *p, i as int),
                fields@ == row_spec(start, positions@, *p, i as int, j as int),
            decreases n - j,
        {
            let t = pair_term(positions[i], positions[j], p);
            let fi = add_term_exec(fields[i], t);
            fields.set(i, fi);
            let fj = sub_term_exec(fields[j], t);
            fields.set(j, fj);
            j = j + 1;
        }
        i = i + 1;
    }
}


/// Phase three: every particle's energy gradient from its completed fields.
pub fn apply_growth(fields: &mut Vec<Fields>, p: &Parameters)
    requires
        p.wf(),
        all_wf(old(fields)@),
    ensures
        final(fields)@ == growth_all_spec(old(fields)@, *p),
        all_wf(final(fields)@),
{
    let n = fields.len();
    let mut k: usize = 0;
    while k < n
        invariant
            n == fields@.len(),
            n == old(fields)@.len(),
            k <= n,
            p.wf(),
            all_wf(old(fields)@),
            forall|m: int| 0 <= m < k ==> fields@[m] == growth_spec(old(fields)@[m], *p),
            forall|m: int| k <= m < n ==> fields@[m] == old(fields)@[m],
            all_wf(fields@),
        decreases n - k,
    {
        let f = fields[k];
        assert(old(fields)@[k as int].wf());
        let dG = radial_field(f.U_val, p.mu_g, p.sigma_g, SCALE).1;
        let g = Fields { E_grad: f.R_grad.sub(f.U_grad.scale(dG)), ..f };
        fields.set(k, g);
        k = k + 1;
    }
    assert(fields@ =~= growth_all_spec(old(fields)@, *p));
}

/// Phases two and three: every pair accumulated, then the energy gradients
/// derived once all pairs are in.
pub fn calculate_fields(fields: &mut Vec<Fields>, positions: &Vec<Vec2>, p: &Parameters)
    requires
        p.wf(),
        old(fields)@.len() == positions@.len(),
        all_wf(old(fields)@),
        all_points_wf(positions@),
    ensures
        final(fields)@.len() == old(fields)@.len(),
        final(fields)@ == growth_all_spec(accumulate_spec(old(fields)@, positions@, *p), *p),
        all_wf(final(fields)@),
{
    accumulate_pairs(fields, positions, p);
    apply_growth(fields, p);
}

/// Integration step size (0.1).
pub const STEP_SIZE: i64 = 100_000_000_000_000;

/// A position moved by `step * (-E_grad)`.
pub open spec fn moved_spec(x: Vec2, f: Fields) -> Vec2 {
    x.add_spec(f.E_grad.neg_spec().scale_spec(STEP_SIZE as int))
}

pub open spec fn moved_all_spec(pos: Seq<Vec2>, fs: Seq<Fields>) -> Seq<Vec2> {
    Seq::new(pos.len(), |k: int| moved_spec(pos[k], fs[k]))
}

/// Moves every particle down its energy gradient (explicit Euler).
pub fn update_position(positions: &mut Vec<Vec2>, fields: &Vec<Fields>)
    requires
        old(positions)@.len() == fields@.len(),
        all_points_wf(old(positions)@),
        all_wf(fields@),
    ensures
        final(positions)@ == moved_all_spec(old(positions)@, fields@),
        all_points_wf(final(positions)@),
{
    let n = positions.len();
    let mut k: usize = 0;
    while k < n
        invariant
            n == positions@.len(),
            n == old(positions)@.len(),
            n == fields@.len(),
            k <= n,
            all_wf(fields@),
            all_points_wf(old(positions)@),
            forall|m: int| 0 <= m < k ==> positions@[m] == moved_spec(old(positions)@[m], fields@[m]),
            forall|m: int| k <= m < n ==> positions@[m] == old(positions)@[m],
            all_points_wf(positions@),
        decreases n - k,
    {
        let x = positions[k];
        assert(fields@[k as int].wf());
        let y = x.add(fields[k].E_grad.neg().scale(STEP_SIZE));
        positions.set(k, y);
        k = k + 1;
    }
    assert(positions@ =~= moved_all_spec(old(positions)@, fields@));
}

/// The fields after a whole step; what the fields held before does not matter.
pub open spec fn step_fields_spec(s: Seq<Fields>, pos: Seq<Vec2>, p: Parameters) -> Seq<Fields> {
    growth_all_spec(accumulate_spec(reset_spec(s, p), pos, p), p)
}

/// The fields and positions after a whole step, from the fields and positions before.
pub open spec fn step_spec(s: Seq<Fields>, pos: Seq<Vec2>, p: Parameters) -> (Seq<Fields>, Seq<Vec2>) {
    let f = step_fields_spec(s, pos, p);
    (f, moved_all_spec(pos, f))
}

/// A step is a function of the positions and parameters alone: two runs
/// from the same positions and parameters end in the same fields and
/// positions, whatever fields either run started from.
pub proof fn lemma_step_deterministic(s1: Seq<Fields>, s2: Seq<Fields>, pos: Seq<Vec2>, p: Parameters)
    requires
        s1.len() == pos.len(),
        s2.len() == pos.len(),
    ensures
        step_spec(s1, pos, p) == step_spec(s2, pos, p),
{
    assert(reset_spec(s1, p) =~= reset_spec(s2, p));
}

/// A lone particle has no pair: after a step its fields are the baseline with
/// the growth correction applied to the baseline potential.
pub proof fn lemma_lone_particle_step(s: Seq<Fields>, pos: Seq<Vec2>, p: Parameters)
    requires
        s.len() == 1,
        pos.len() == 1,
    ensures
        step_fields_spec(s, pos, p) == seq![growth_spec(baseline_spec(p), p)],
{
    let r = reset_spec(s, p);
    assert(rows_spec(r, pos, p, 0) == r);
    assert(row_spec(r, pos, p, 0, 1) == r);
    assert(accumulate_spec(r, pos, p) == r);
    assert(step_fields_spec(s, pos, p) =~= seq![growth_spec(baseline_spec(p), p)]);
}

/// An isolated group of particles that share one parameter set.
pub struct Creature {
    pub parameters: Parameters,
    pub positions: Vec<Vec2>,
    pub fields: Vec<Fields>,
}

impl Creature {
    /// One record of fields per particle, every value in range.
    pub open spec fn wf(&self) -> bool {
        &&& self.parameters.wf()
        &&& self.positions@.len() == self.fields@.len()
        &&& all_points_wf(self.positions@)
        &&& all_wf(self.fields@)
    }

    /// A creature with its particles at `positions`, all fields zero.
    pub fn new(parameters: Parameters, positions: Vec<Vec2>) -> (c: Creature)
        requires
            parameters.wf(),
            all_points_wf(positions@),
        ensures
            c.wf(),
            c.parameters == parameters,
            c.positions@ == positions@,
            c.fields@ == Seq::new(positions@.len(), |k: int| Fields::default_spec()),
    {
        let n = positions.len();
        let mut fields: Vec<Fields> = Vec::new();
        while fields.len() < n
            invariant
                fields@.len() <= n,
                forall|m: int| 0 <= m < fields@.len() ==> fields@[m] == Fields::default_spec(),
            decreases n - fields@.len(),
        {
            fields.push(Fields::default());
        }
        let c = Creature { parameters, positions, fields };
        assert(c.fields@ =~= Seq::new(n as nat, |k: int| Fields::default_spec()));
        c
    }

    /// One simulation step: reset, pairwise accumulation, growth correction,
    /// then integration of the positions.
    pub fn step(&mut self)
        requires
            old(self).wf(),
        ensures
            final(self).wf(),
            final(self).parameters == old(self).parameters,
            (final(self).fields@, final(self).positions@)
                == step_spec(old(self).fields@, old(self).positions@, old(self).parameters),
    {
        reset_fields(&mut self.fields, &self.parameters);
        calculate_fields(&mut self.fields, &self.positions, &self.parameters);
        update_position(&mut self.positions, &self.fields);
    }
}


/// Radius of the marker that shows a particle: `c_rep / (5 R_val)`, rounded
/// toward zero and saturated, for every nonzero `R_val`. A zero `R_val` is a
/// legitimate field value with no quotient; the marker then takes the largest
/// radius, [`LIMIT`], the value the quotient saturates to as `R_val` shrinks
/// toward zero.
pub open spec fn display_radius_spec(c_rep: int, r_val: int) -> int {
    let d = mul_spec(r_val, 5 * SCALE);
    if d > 0 {
        div_spec(c_rep, d)
    } else if d < 0 {
        div_spec(-c_rep, -d)
    } else {
        LIMIT as int
    }
}

/// The quotient in [`display_radius_spec`] is `c_rep / (5 R_val)` rounded
/// toward zero, whatever the signs, and only a zero `R_val` has no quotient.
pub proof fn lemma_display_radius_quotient(c_rep: int, r_val: int)
    requires
        in_range(c_rep),
        in_range(5 * r_val),
    ensures
        mul_spec(r_val, 5 * SCALE) == 5 * r_val,
        r_val != 0 ==> display_radius_spec(c_rep, r_val) == clamp(
            if (c_rep >= 0) == (r_val > 0) {
                abs(c_rep) * SCALE / abs(5 * r_val)
            } else {
                -(abs(c_rep) * SCALE / abs(5 * r_val))
            },
        ),
        r_val == 0 ==> display_radius_spec(c_rep, r_val) == LIMIT,
{
    assert(r_val * (5 * SCALE) == (5 * r_val) * SCALE) by (nonlinear_arith);
    lemma_div_multiples_vanish(5 * r_val, SCALE as int);
    if 5 * r_val < 0 {
        assert((-(5 * r_val)) * SCALE / (SCALE as int) == -(5 * r_val)) by {
            lemma_div_multiples_vanish(-(5 * r_val), SCALE as int);
            assert((-(5 * r_val)) * SCALE == SCALE * (-(5 * r_val))) by (nonlinear_arith);
        };
        assert(-((5 * r_val) * SCALE) == (-(5 * r_val)) * SCALE) by (nonlinear_arith);
    } else {
        assert((5 * r_val) * SCALE == SCALE * (5 * r_val)) by (nonlinear_arith);
    }
    assert((-c_rep) * SCALE == -(c_rep * SCALE)) by (nonlinear_arith);
    assert(abs(c_rep) * SCALE == abs(c_rep * SCALE)) by (nonlinear_arith);
}

/// Radius of a particle's marker (see [`display_radius_spec`]).
pub fn display_radius(c_rep: i64, r_val: i64) -> (r: i64)
    requires
        in_range(c_rep as int),
        in_range(r_val as int),
    ensures
        r == display_radius_spec(c_rep as int, r_val as int),
{
    let d = fx_mul(r_val, 5 * SCALE);
    if d > 0 {
        fx_div(c_rep, d)
    } else if d < 0 {
        fx_div(-c_rep, -d)
    } else {
        LIMIT
    }
}

} // verus!
