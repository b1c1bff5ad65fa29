//! Magnitude caps of the tracer.
//!
//! Fixed-point words are finite, so the tracer works inside a bounded
//! world: scene geometry lies within `CEN_MAX` of the origin, ray
//! directions are unit-scale vectors below `DIR_MAX` per component, a ray
//! is followed at most `T_MAX` units of parameter, and each bounce can
//! move a ray origin by at most `STEP` per component. The origin budget
//! `POS_MAX - depth * STEP` of the estimator shrinks with the remaining
//! bounce budget, so every intermediate product of the intersection
//! arithmetic fits its integer width.

use vstd::prelude::*;

verus! {

/// Self-intersection epsilon: the least accepted ray parameter
/// (about 0.001 of a world unit).
pub const T_EPS: i64 = 66;

/// The far end of every intersection query made by the estimator
/// (8192 world units).
pub const T_MAX: i64 = 0x2000_0000;

/// Per-component cap on ray directions (512 world units).
pub const DIR_MAX: i64 = 0x200_0000;

/// Per-component cap on ray origins at bounce depth zero.
pub const POS_MAX: i64 = 0x2000_0000_0000;

/// How far one accepted bounce can move a ray origin per component:
/// `T_MAX * DIR_MAX / SCALE`.
pub const STEP: i64 = 0x40_0000_0000;

/// The deepest supported bounce recursion.
pub const DEPTH_MAX: usize = 64;

/// Per-component cap on sphere centers, and cap on radii (1024 units).
pub const CEN_MAX: i64 = 0x400_0000;

} // verus!
