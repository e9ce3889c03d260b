//! A planar particle system driven by locally computed scalar fields.
//!
//! Scalars are fixed-point integers (see [`fixed`]); every arithmetic step
//! saturates at a symmetric bound, so the whole pipeline is free of overflow
//! and its results are pinned down exactly by spec functions over `int`.
#![allow(non_snake_case)]

pub mod field;
pub mod fixed;
pub mod kernel;
pub mod solver;
