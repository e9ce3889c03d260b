//! Planar vectors, creature parameters and the per-particle field record.
use vstd::prelude::*;
use crate::fixed::{
    add_spec, fx_add, fx_mul, fx_sub, in_range, mul_spec, sub_spec, LIMIT,
};

verus! {

/// A point or a vector in the plane, in fixed-point units.
#[derive(Clone, Copy, Debug, PartialEq, Eq, Structural)]
pub struct Vec2 {
    pub x: i64,
    pub y: i64,
}

impl Vec2 {
    pub open spec fn wf(self) -> bool {
        in_range(self.x as int) && in_range(self.y as int)
    }

    pub open spec fn zero_spec() -> Vec2 {
        Vec2 { x: 0, y: 0 }
    }

    pub open spec fn add_spec(self, o: Vec2) -> Vec2 {
        Vec2 { x: add_spec(self.x as int, o.x as int) as i64, y: add_spec(self.y as int, o.y as int) as i64 }
    }

    pub open spec fn sub_spec(self, o: Vec2) -> Vec2 {
        Vec2 { x: sub_spec(self.x as int, o.x as int) as i64, y: sub_spec(self.y as int, o.y as int) as i64 }
    }

    /// The vector times a scalar.
    pub open spec fn scale_spec(self, k: int) -> Vec2 {
        Vec2 { x: mul_spec(self.x as int, k) as i64, y: mul_spec(self.y as int, k) as i64 }
    }

    pub open spec fn neg_spec(self) -> Vec2 {
        Vec2 { x: (-self.x) as i64, y: (-self.y) as i64 }
    }

    pub fn new(x: i64, y: i64) -> (r: Vec2)
        ensures
            r == (Vec2 { x, y }),
    {
        Vec2 { x, y }
    }

    pub fn zero() -> (r: Vec2)
        ensures
            r == Vec2::zero_spec(),
    {
        Vec2 { x: 0, y: 0 }
    }

    /// Saturating sum.
    pub fn add(self, o: Vec2) -> (r: Vec2)
        requires
            self.wf(),
            o.wf(),
        ensures
            r == self.add_spec(o),
            r.wf(),
    {
        Vec2 { x: fx_add(self.x, o.x), y: fx_add(self.y, o.y) }
    }

    /// Saturating difference.
    pub fn sub(self, o: Vec2) -> (r: Vec2)
        requires
            self.wf(),
            o.wf(),
        ensures
            r == self.sub_spec(o),
            r.wf(),
    {
        Vec2 { x: fx_sub(self.x, o.x), y: fx_sub(self.y, o.y) }
    }

    /// The vector times a fixed-point scalar.
    pub fn scale(self, k: i64) -> (r: Vec2)
        requires
            self.wf(),
            in_range(k as int),
        ensures
            r == self.scale_spec(k as int),
            r.wf(),
    {
        Vec2 { x: fx_mul(self.x, k), y: fx_mul(self.y, k) }
    }

    pub fn neg(self) -> (r: Vec2)
        requires
            self.wf(),
        ensures
            r == self.neg_spec(),
            r.wf(),
    {
        Vec2 { x: -self.x, y: -self.y }
    }
}

/// Constant configuration of one creature.
#[derive(Clone, Copy, Debug, PartialEq, Eq, Structural)]
pub struct Parameters {
    /// Centre of the potential kernel.
    pub mu_k: i64,
    /// Width of the potential kernel.
    pub sigma_k: i64,
    /// Weight of the potential kernel.
    pub w_k: i64,
    /// Centre of the growth kernel.
    pub mu_g: i64,
    /// Width of the growth kernel.
    pub sigma_g: i64,
    /// Strength of the repulsion.
    pub c_rep: i64,
}

impl Parameters {
    /// Every value is in range and both widths are positive.
    pub open spec fn wf(self) -> bool {
        &&& in_range(self.mu_k as int)
        &&& 0 < self.sigma_k <= LIMIT
        &&& in_range(self.w_k as int)
        &&& in_range(self.mu_g as int)
        &&& 0 < self.sigma_g <= LIMIT
        &&& in_range(self.c_rep as int)
    }

    pub open spec fn default_spec() -> Parameters {
        Parameters {
            mu_k: 4_000_000_000_000_000,
            sigma_k: 1_000_000_000_000_000,
            w_k: 22_000_000_000_000,
            mu_g: 600_000_000_000_000,
            sigma_g: 150_000_000_000_000,
            c_rep: 1_000_000_000_000_000,
        }
    }
}

impl Default for Parameters {
    /// `mu_k = 4.0, sigma_k = 1.0, w_k = 0.022, mu_g = 0.6, sigma_g = 0.15, c_rep = 1.0`.
    fn default() -> (r: Parameters)
        ensures
            r == Parameters::default_spec(),
            r.wf(),
    {
        Parameters {
            mu_k: 4_000_000_000_000_000,
            sigma_k: 1_000_000_000_000_000,
            w_k: 22_000_000_000_000,
            mu_g: 600_000_000_000_000,
            sigma_g: 150_000_000_000_000,
            c_rep: 1_000_000_000_000_000,
        }
    }
}

/// The fields accumulated at one particle during a step.
///
/// `R_val` may be zero or close to it (no neighbour in repulsion range and a
/// weak self term): a consumer that divides by it must guard against that.
#[derive(Clone, Copy, Debug, PartialEq, Eq, Structural)]
pub struct Fields {
    /// Repulsion potential.
    pub R_val: i64,
    /// Gradient of the repulsion potential.
    pub R_grad: Vec2,
    /// Kernel potential.
    pub U_val: i64,
    /// Gradient of the kernel potential.
    pub U_grad: Vec2,
    /// Energy gradient that moves the particle.
    pub E_grad: Vec2,
}

impl Fields {
    pub open spec fn wf(self) -> bool {
        &&& in_range(self.R_val as int)
        &&& self.R_grad.wf()
        &&& in_range(self.U_val as int)
        &&& self.U_grad.wf()
        &&& self.E_grad.wf()
    }

    pub open spec fn default_spec() -> Fields {
        Fields {
            R_val: 0,
            R_grad: Vec2::zero_spec(),
            U_val: 0,
            U_grad: Vec2::zero_spec(),
            E_grad: Vec2::zero_spec(),
        }
    }
}

impl Default for Fields {
    /// All values and gradients zero.
    fn default() -> (r: Fields)
        ensures
            r == Fields::default_spec(),
            r.wf(),
    {
        Fields { R_val: 0, R_grad: Vec2::zero(), U_val: 0, U_grad: Vec2::zero(), E_grad: Vec2::zero() }
    }
}

} // verus!
