//! Three-component fixed-point vectors.
//!
//! Components are fixed-point scalars (`fixed::SCALE` steps per world
//! unit). Every operation states its exact result over the spec models
//! below; magnitude preconditions keep all intermediate products inside
//! the integer widths used by the executable code.

use crate::fixed::{
    absi, div_i128, fdiv, fdiv_s, fmul, fmul_s, fsqrt, fsqrt_s, lemma_abs_mul,
    lemma_sqrt_floor_bounds, lemma_tdiv, lemma_tdiv_bound, lemma_tdiv_exact, tdiv, SCALE,
};
use crate::rng::{rng_next_s, rng_range_s, Rng};
use vstd::arithmetic::div_mod::{
    lemma_div_is_ordered, lemma_div_multiples_vanish, lemma_fundamental_div_mod,
    lemma_mod_division_less_than_divisor, lemma_multiply_divide_le,
};
use vstd::prelude::*;

verus! {

/// Components smaller than this count as zero when a direction is tested
/// for degeneracy (about 0.008 of a world unit).
pub const NEAR_EPS: i64 = 512;

/// A component bound that normalized vectors never exceed (two units).
pub const UNIT_MAX: i64 = 131072;

/// The magnitude cap on operands of products (dot, cross, componentwise
/// and scalar multiplication).
pub const OP_MAX: i64 = 0x40_0000_0000;

/// The magnitude cap on operands of sums.
pub const SUM_MAX: i64 = 0x3FFF_FFFF_FFFF_FFFF;

#[derive(Clone, Copy, PartialEq, Eq, Structural, Debug)]
pub struct Vec3 {
    pub x: i64,
    pub y: i64,
    pub z: i64,
}

/// A location in space.
pub type Point3 = Vec3;

/// A radiance or albedo triple.
pub type Color = Vec3;

/// The vector with the given mathematical components.
pub open spec fn vec3_s(x: int, y: int, z: int) -> Vec3 {
    Vec3 { x: x as i64, y: y as i64, z: z as i64 }
}

/// All three components have magnitude at most `b`.
pub open spec fn in_range(v: Vec3, b: int) -> bool {
    absi(v.x as int) <= b && absi(v.y as int) <= b && absi(v.z as int) <= b
}

/// The largest component magnitude.
pub open spec fn maxcomp_s(v: Vec3) -> int {
    let ax = absi(v.x as int);
    let ay = absi(v.y as int);
    let az = absi(v.z as int);
    if ax >= ay && ax >= az {
        ax
    } else if ay >= az {
        ay
    } else {
        az
    }
}

pub open spec fn addv_s(u: Vec3, v: Vec3) -> Vec3 {
    vec3_s(u.x + v.x, u.y + v.y, u.z + v.z)
}

pub open spec fn subv_s(u: Vec3, v: Vec3) -> Vec3 {
    vec3_s(u.x - v.x, u.y - v.y, u.z - v.z)
}

pub open spec fn negv_s(v: Vec3) -> Vec3 {
    vec3_s(-(v.x as int), -(v.y as int), -(v.z as int))
}

/// Componentwise product, rescaled.
pub open spec fn mulv_s(u: Vec3, v: Vec3) -> Vec3 {
    vec3_s(fmul_s(u.x as int, v.x as int), fmul_s(u.y as int, v.y as int), fmul_s(u.z as int, v.z as int))
}

/// Product with a scalar, rescaled.
pub open spec fn scalev_s(v: Vec3, k: int) -> Vec3 {
    vec3_s(fmul_s(v.x as int, k), fmul_s(v.y as int, k), fmul_s(v.z as int, k))
}

/// Quotient by a scalar.
pub open spec fn divv_s(v: Vec3, k: int) -> Vec3 {
    vec3_s(fdiv_s(v.x as int, k), fdiv_s(v.y as int, k), fdiv_s(v.z as int, k))
}

/// The unscaled sum of componentwise products.
pub open spec fn dot_raw(u: Vec3, v: Vec3) -> int {
    u.x * v.x + u.y * v.y + u.z * v.z
}

/// The fixed-point dot product: one truncation of the raw sum.
pub open spec fn dot_s(u: Vec3, v: Vec3) -> int {
    tdiv(dot_raw(u, v), SCALE as int)
}

pub open spec fn lensq_s(v: Vec3) -> int {
    dot_s(v, v)
}

pub open spec fn len_s(v: Vec3) -> int {
    fsqrt_s(lensq_s(v))
}

/// One component of the cross product: one truncation of the raw difference.
pub open spec fn crossc_s(a: int, b: int, c: int, d: int) -> int {
    tdiv(a * b - c * d, SCALE as int)
}

pub open spec fn cross_s(u: Vec3, v: Vec3) -> Vec3 {
    vec3_s(
        crossc_s(u.y as int, v.z as int, u.z as int, v.y as int),
        crossc_s(u.z as int, v.x as int, u.x as int, v.z as int),
        crossc_s(u.x as int, v.y as int, u.y as int, v.x as int),
    )
}

/// A well-formed color or albedo: every channel within `[0, 1]`.
pub open spec fn color_wf(c: Color) -> bool {
    0 <= c.x <= SCALE && 0 <= c.y <= SCALE && 0 <= c.z <= SCALE
}

/// All components below the degeneracy threshold.
pub open spec fn near_zero_s(v: Vec3) -> bool {
    absi(v.x as int) < NEAR_EPS && absi(v.y as int) < NEAR_EPS && absi(v.z as int) < NEAR_EPS
}

/// The normalized vector: each component divided by the length.
pub open spec fn unitv_s(v: Vec3) -> Vec3 {
    divv_s(v, len_s(v))
}

/// Mirror reflection about a normal: `v - 2 (v . n) n`.
pub open spec fn reflect_s(v: Vec3, n: Vec3) -> Vec3 {
    let d = dot_s(v, n);
    vec3_s(
        v.x - fmul_s(2 * d, n.x as int),
        v.y - fmul_s(2 * d, n.y as int),
        v.z - fmul_s(2 * d, n.z as int),
    )
}

/// Snell refraction of `uv` through a surface with normal `n` and index
/// ratio `eta`, split into perpendicular and parallel parts.
pub open spec fn refract_s(uv: Vec3, n: Vec3, eta: int) -> Vec3 {
    let mcos = dot_s(negv_s(uv), n);
    let cos = if mcos < SCALE as int {
        mcos
    } else {
        SCALE as int
    };
    let r_perp = scalev_s(addv_s(uv, scalev_s(n, cos)), eta);
    let k = SCALE - lensq_s(r_perp);
    let sq = fsqrt_s(absi(k));
    addv_s(scalev_s(n, -sq), r_perp)
}

/// Sampling each component uniformly from `[lo, hi)` takes three
/// generator steps.
pub open spec fn rng_next3_s(s: u64) -> u64 {
    rng_next_s(rng_next_s(rng_next_s(s)))
}

pub open spec fn random_v3_s(s: u64, lo: int, hi: int) -> Vec3 {
    let s1 = rng_next_s(s);
    let s2 = rng_next_s(s1);
    vec3_s(rng_range_s(s, lo, hi), rng_range_s(s1, lo, hi), rng_range_s(s2, lo, hi))
}

/// Rejection sampling of a point inside the unit ball: up to `tries`
/// draws from the cube, keeping the first non-degenerate point with
/// squared length below one; a fixed interior point if every draw failed.
pub open spec fn ruis_s(s: u64, tries: nat) -> (Vec3, u64)
    decreases tries,
{
    if tries == 0 {
        (vec3_s(32768, 32768, 0), s)
    } else {
        let p = random_v3_s(s, -(SCALE as int), SCALE as int);
        let s3 = rng_next3_s(s);
        if lensq_s(p) < SCALE && !near_zero_s(p) {
            (p, s3)
        } else {
            ruis_s(s3, (tries - 1) as nat)
        }
    }
}

/// A random point in the unit ball, normalized.
pub open spec fn ruv_s(s: u64) -> (Vec3, u64) {
    let r = ruis_s(s, 64);
    (unitv_s(r.0), r.1)
}

/// A ball sample, flipped into the hemisphere around `n`.
pub open spec fn rih_s(s: u64, n: Vec3) -> (Vec3, u64) {
    let r = ruis_s(s, 64);
    if dot_s(r.0, n) > 0 {
        r
    } else {
        (negv_s(r.0), r.1)
    }
}

/// Rejection sampling of a point in the unit disk in the xy-plane.
pub open spec fn ruid_s(s: u64, tries: nat) -> (Vec3, u64)
    decreases tries,
{
    if tries == 0 {
        (vec3_s(32768, 32768, 0), s)
    } else {
        let s1 = rng_next_s(s);
        let p = vec3_s(
            rng_range_s(s, -(SCALE as int), SCALE as int),
            rng_range_s(s1, -(SCALE as int), SCALE as int),
            0,
        );
        let s2 = rng_next_s(s1);
        if lensq_s(p) < SCALE {
            (p, s2)
        } else {
            ruid_s(s2, (tries - 1) as nat)
        }
    }
}

/// The magnitude of an `i64`.
pub fn absi64(x: i64) -> (r: i64)
    requires
        x != i64::MIN,
    ensures
        r as int == absi(x as int),
{
    if x < 0 {
        -x
    } else {
        x
    }
}

/// Bound on a truncated, rescaled product from bounds on the factors.
pub proof fn lemma_fmul_cap(a: int, b: int, ca: int, cb: int)
    requires
        absi(a) <= ca,
        absi(b) <= cb,
    ensures
        absi(a) * absi(b) <= ca * cb,
        absi(a * b) <= ca * cb,
        absi(fmul_s(a, b)) <= (ca * cb) / 65536,
        -((ca * cb) / 65536) <= fmul_s(a, b) <= (ca * cb) / 65536,
{
    lemma_abs_mul(a, b, ca, cb);
    lemma_tdiv(a * b, SCALE as int);
    lemma_div_is_ordered(absi(a * b), ca * cb, 65536);
}

/// A raw dot product is bounded by three times the product of the
/// component bounds, and the truncated dot accordingly.
pub proof fn lemma_dot_bound(u: Vec3, v: Vec3, bu: int, bv: int)
    requires
        in_range(u, bu),
        in_range(v, bv),
        0 <= bu,
        0 <= bv,
    ensures
        absi(dot_raw(u, v)) <= 3 * (bu * bv),
        absi(dot_s(u, v)) <= (3 * (bu * bv)) / 65536,
{
    lemma_abs_mul(u.x as int, v.x as int, bu, bv);
    lemma_abs_mul(u.y as int, v.y as int, bu, bv);
    lemma_abs_mul(u.z as int, v.z as int, bu, bv);
    lemma_tdiv(dot_raw(u, v), SCALE as int);
    lemma_div_is_ordered(absi(dot_raw(u, v)), 3 * (bu * bv), 65536);
}

/// Componentwise bound of a cross product from bounds on the factors.
pub proof fn lemma_cross_bound(u: Vec3, v: Vec3, bu: int, bv: int)
    requires
        in_range(u, bu),
        in_range(v, bv),
        0 <= bu,
        0 <= bv,
    ensures
        in_range(cross_s(u, v), (2 * (bu * bv)) / 65536),
{
    lemma_abs_mul(u.y as int, v.z as int, bu, bv);
    lemma_abs_mul(u.z as int, v.y as int, bu, bv);
    lemma_abs_mul(u.z as int, v.x as int, bu, bv);
    lemma_abs_mul(u.x as int, v.z as int, bu, bv);
    lemma_abs_mul(u.x as int, v.y as int, bu, bv);
    lemma_abs_mul(u.y as int, v.x as int, bu, bv);
    lemma_tdiv_bound(u.y * v.z - u.z * v.y, SCALE as int, 2 * (bu * bv));
    lemma_tdiv_bound(u.z * v.x - u.x * v.z, SCALE as int, 2 * (bu * bv));
    lemma_tdiv_bound(u.x * v.y - u.y * v.x, SCALE as int, 2 * (bu * bv));
    lemma_tdiv(u.y * v.z - u.z * v.y, SCALE as int);
    lemma_tdiv(u.z * v.x - u.x * v.z, SCALE as int);
    lemma_tdiv(u.x * v.y - u.y * v.x, SCALE as int);
    lemma_div_is_ordered(absi(u.y * v.z - u.z * v.y), 2 * (bu * bv), 65536);
    lemma_div_is_ordered(absi(u.z * v.x - u.x * v.z), 2 * (bu * bv), 65536);
    lemma_div_is_ordered(absi(u.x * v.y - u.y * v.x), 2 * (bu * bv), 65536);
}

/// Negation keeps the squared length and every component magnitude.
pub proof fn lemma_lensq_neg(v: Vec3, b: int)
    requires
        in_range(v, b),
        0 <= b <= 0x4000_0000_0000_0000,
    ensures
        lensq_s(negv_s(v)) == lensq_s(v),
        in_range(negv_s(v), b),
{
    let n = negv_s(v);
    assert(n.x as int == -(v.x as int) && n.y as int == -(v.y as int) && n.z as int == -(
    v.z as int));
    assert(n.x * n.x == v.x * v.x && n.y * n.y == v.y * v.y && n.z * n.z == v.z * v.z)
        by (nonlinear_arith)
        requires
            n.x as int == -(v.x as int),
            n.y as int == -(v.y as int),
            n.z as int == -(v.z as int),
    ;
    assert(dot_raw(n, n) == dot_raw(v, v));
}

/// The componentwise facts behind `maxcomp_s`.
pub proof fn lemma_maxcomp(v: Vec3)
    ensures
        absi(v.x as int) <= maxcomp_s(v),
        absi(v.y as int) <= maxcomp_s(v),
        absi(v.z as int) <= maxcomp_s(v),
        maxcomp_s(v) == absi(v.x as int) || maxcomp_s(v) == absi(v.y as int) || maxcomp_s(v)
            == absi(v.z as int),
        0 <= maxcomp_s(v),
{
}

/// A non-degenerate vector has squared length at least four steps.
pub proof fn lemma_not_near_zero_lensq(v: Vec3)
    requires
        !near_zero_s(v),
        in_range(v, OP_MAX as int),
    ensures
        lensq_s(v) >= 4,
        maxcomp_s(v) >= NEAR_EPS,
{
    lemma_maxcomp(v);
    let m = maxcomp_s(v);
    let raw = dot_raw(v, v);
    assert(raw >= m * m && m * m >= 262144) by (nonlinear_arith)
        requires
            m >= 512,
            m == absi(v.x as int) || m == absi(v.y as int) || m == absi(v.z as int),
            absi(v.x as int) <= m && absi(v.y as int) <= m && absi(v.z as int) <= m,
            raw == v.x * v.x + v.y * v.y + v.z * v.z,
    ;
    assert(lensq_s(v) == raw / 65536);
    lemma_div_is_ordered(262144, raw, 65536);
}

/// Squared length against the largest component, both ways.
proof fn lemma_raw_vs_max(v: Vec3)
    ensures
        maxcomp_s(v) * maxcomp_s(v) <= dot_raw(v, v),
        dot_raw(v, v) <= 3 * (maxcomp_s(v) * maxcomp_s(v)),
        dot_raw(v, v) >= 0,
{
    lemma_maxcomp(v);
    let m = maxcomp_s(v);
    assert(m * m <= dot_raw(v, v) && dot_raw(v, v) <= 3 * (m * m) && dot_raw(v, v) >= 0)
        by (nonlinear_arith)
        requires
            0 <= m,
            m == absi(v.x as int) || m == absi(v.y as int) || m == absi(v.z as int),
            absi(v.x as int) <= m && absi(v.y as int) <= m && absi(v.z as int) <= m,
            dot_raw(v, v) == v.x * v.x + v.y * v.y + v.z * v.z,
    ;
}

/// Where the length of a non-degenerate vector stands relative to its
/// largest component, and the component bounds of its normalization.
pub proof fn lemma_unit_bounds(v: Vec3)
    requires
        in_range(v, OP_MAX as int),
        !near_zero_s(v),
    ensures
        512 <= len_s(v),
        maxcomp_s(v) <= 2 * len_s(v),
        len_s(v) <= 2 * maxcomp_s(v),
        in_range(unitv_s(v), UNIT_MAX as int),
        maxcomp_s(unitv_s(v)) >= 32768,
        !near_zero_s(unitv_s(v)),
        lensq_s(v) >= 4,
{
    lemma_maxcomp(v);
    lemma_raw_vs_max(v);
    lemma_not_near_zero_lensq(v);
    let m = maxcomp_s(v);
    let raw = dot_raw(v, v);
    let ls = lensq_s(v);
    let len = len_s(v);
    assert(ls == raw / 65536);
    lemma_fundamental_div_mod(raw, 65536);
    lemma_mod_division_less_than_divisor(raw, 65536);
    // raw - 65535 <= ls * 65536 <= raw
    assert(0 <= ls * 65536);
    lemma_sqrt_floor_bounds(ls * 65536);
    // len * len <= ls * 65536 < (len + 1) * (len + 1)
    assert(len >= 512) by (nonlinear_arith)
        requires
            ls >= 4,
            len >= 0,
            (ls * 65536) < (len + 1) * (len + 1),
    ;
    assert(len <= 2 * m) by (nonlinear_arith)
        requires
            len * len <= ls * 65536,
            ls * 65536 <= raw,
            raw <= 3 * (m * m),
            0 <= m,
            0 <= len,
    ;
    assert(m <= 2 * len) by (nonlinear_arith)
        requires
            (ls * 65536) < (len + 1) * (len + 1),
            ls * 65536 >= raw - 65535,
            raw >= m * m,
            m >= 512,
            len >= 0,
    ;
    // Componentwise bounds of the normalization.
    assert forall|c: int|
        c == v.x as int || c == v.y as int || c == v.z as int implies absi(
        #[trigger] fdiv_s(c, len),
    ) <= UNIT_MAX as int by {
        lemma_abs_mul(c, SCALE as int, m, SCALE as int);
        lemma_tdiv(c * SCALE, len);
        assert(absi(c * SCALE) <= len * (2 * SCALE)) by (nonlinear_arith)
            requires
                absi(c * SCALE) <= m * SCALE,
                m <= 2 * len,
                SCALE == 65536,
                0 <= len,
        ;
        lemma_multiply_divide_le(absi(c * SCALE), len, 2 * SCALE);
    }
    // The largest component keeps at least half a unit of magnitude.
    assert forall|c: int|
        (c == v.x as int || c == v.y as int || c == v.z as int) && absi(c) == m implies absi(
        #[trigger] fdiv_s(c, len),
    ) >= 32768 by {
        lemma_abs_mul(c, SCALE as int, m, SCALE as int);
        lemma_tdiv(c * SCALE, len);
        assert(absi(c * SCALE) == m * SCALE);
        assert(m * SCALE >= len * 32768) by (nonlinear_arith)
            requires
                len <= 2 * m,
                SCALE == 65536,
                0 <= m,
        ;
        lemma_div_is_ordered(len * 32768, absi(c * SCALE), len);
        lemma_div_multiples_vanish(32768, len);
    }
    assert(absi(fdiv_s(v.x as int, len)) <= UNIT_MAX as int);
    assert(absi(fdiv_s(v.y as int, len)) <= UNIT_MAX as int);
    assert(absi(fdiv_s(v.z as int, len)) <= UNIT_MAX as int);
}

impl Vec3 {
    pub fn new(x: i64, y: i64, z: i64) -> (r: Vec3)
        ensures
            r == (Vec3 { x, y, z }),
    {
        Vec3 { x, y, z }
    }

    pub fn x(&self) -> (r: i64)
        ensures
            r == self.x,
    {
        self.x
    }

    pub fn y(&self) -> (r: i64)
        ensures
            r == self.y,
    {
        self.y
    }

    pub fn z(&self) -> (r: i64)
        ensures
            r == self.z,
    {
        self.z
    }

    /// Componentwise sum.
    pub fn add(self, rhs: Vec3) -> (r: Vec3)
        requires
            in_range(self, SUM_MAX as int),
            in_range(rhs, SUM_MAX as int),
        ensures
            r == addv_s(self, rhs),
            r.x as int == self.x + rhs.x,
            r.y as int == self.y + rhs.y,
            r.z as int == self.z + rhs.z,
    {
        Vec3 { x: self.x + rhs.x, y: self.y + rhs.y, z: self.z + rhs.z }
    }

    /// Componentwise difference.
    pub fn sub(self, rhs: Vec3) -> (r: Vec3)
        requires
            in_range(self, SUM_MAX as int),
            in_range(rhs, SUM_MAX as int),
        ensures
            r == subv_s(self, rhs),
            r.x as int == self.x - rhs.x,
            r.y as int == self.y - rhs.y,
            r.z as int == self.z - rhs.z,
    {
        Vec3 { x: self.x - rhs.x, y: self.y - rhs.y, z: self.z - rhs.z }
    }

    /// Componentwise negation.
    pub fn neg(self) -> (r: Vec3)
        requires
            in_range(self, SUM_MAX as int),
        ensures
            r == negv_s(self),
            r.x as int == -(self.x as int),
            r.y as int == -(self.y as int),
            r.z as int == -(self.z as int),
    {
        Vec3 { x: -self.x, y: -self.y, z: -self.z }
    }

    /// Componentwise product (albedo tinting).
    pub fn mul(self, rhs: Vec3) -> (r: Vec3)
        requires
            in_range(self, OP_MAX as int),
            in_range(rhs, OP_MAX as int),
        ensures
            r == mulv_s(self, rhs),
    {
        proof {
            lemma_fmul_cap(self.x as int, rhs.x as int, OP_MAX as int, OP_MAX as int);
            lemma_fmul_cap(self.y as int, rhs.y as int, OP_MAX as int, OP_MAX as int);
            lemma_fmul_cap(self.z as int, rhs.z as int, OP_MAX as int, OP_MAX as int);
        }
        Vec3 { x: fmul(self.x, rhs.x), y: fmul(self.y, rhs.y), z: fmul(self.z, rhs.z) }
    }

    /// Product with a scalar.
    pub fn scale(self, k: i64) -> (r: Vec3)
        requires
            in_range(self, OP_MAX as int),
            absi(k as int) <= OP_MAX as int,
        ensures
            r == scalev_s(self, k as int),
    {
        proof {
            lemma_fmul_cap(self.x as int, k as int, OP_MAX as int, OP_MAX as int);
            lemma_fmul_cap(self.y as int, k as int, OP_MAX as int, OP_MAX as int);
            lemma_fmul_cap(self.z as int, k as int, OP_MAX as int, OP_MAX as int);
        }
        Vec3 { x: fmul(self.x, k), y: fmul(self.y, k), z: fmul(self.z, k) }
    }

    /// Quotient by a scalar.
    pub fn div(self, k: i64) -> (r: Vec3)
        requires
            k != 0,
            in_range(self, 0x2000_0000_0000),
        ensures
            r == divv_s(self, k as int),
    {
        Vec3 { x: fdiv(self.x, k), y: fdiv(self.y, k), z: fdiv(self.z, k) }
    }

    /// Accumulate a sum in place.
    pub fn add_assign(&mut self, rhs: Vec3)
        requires
            in_range(*old(self), SUM_MAX as int),
            in_range(rhs, SUM_MAX as int),
        ensures
            *final(self) == addv_s(*old(self), rhs),
    {
        *self = self.add(rhs);
    }

    pub fn length_squared(&self) -> (r: i64)
        requires
            in_range(*self, OP_MAX as int),
        ensures
            r as int == lensq_s(*self),
            0 <= r,
    {
        let r = dot(self, self);
        proof {
            lemma_raw_vs_max(*self);
            lemma_tdiv(dot_raw(*self, *self), SCALE as int);
        }
        r
    }

    pub fn length(&self) -> (r: i64)
        requires
            in_range(*self, OP_MAX as int),
        ensures
            r as int == len_s(*self),
            0 <= r,
    {
        let ls = self.length_squared();
        fsqrt(ls)
    }

    /// True when every component is below the degeneracy threshold.
    pub fn near_zero(&self) -> (r: bool)
        requires
            in_range(*self, SUM_MAX as int),
        ensures
            r == near_zero_s(*self),
    {
        absi64(self.x) < NEAR_EPS && absi64(self.y) < NEAR_EPS && absi64(self.z) < NEAR_EPS
    }

    /// Mirror reflection of `v` about the normal `n`.
    pub fn reflect(v: &Vec3, n: &Vec3) -> (r: Vec3)
        requires
            in_range(*v, 0x100_0000),
            in_range(*n, 0x100_0000),
        ensures
            r == reflect_s(*v, *n),
            in_range(*v, UNIT_MAX as int) && in_range(*n, UNIT_MAX as int) ==> in_range(
                r,
                0x40_0000,
            ),
    {
        let d = dot(v, n);
        proof {
            lemma_dot_bound(*v, *n, 0x100_0000, 0x100_0000);
            lemma_fmul_cap(2 * d as int, n.x as int, 0xC000_0000_0000, 0x100_0000);
            lemma_fmul_cap(2 * d as int, n.y as int, 0xC000_0000_0000, 0x100_0000);
            lemma_fmul_cap(2 * d as int, n.z as int, 0xC000_0000_0000, 0x100_0000);
            if in_range(*v, UNIT_MAX as int) && in_range(*n, UNIT_MAX as int) {
                lemma_dot_bound(*v, *n, UNIT_MAX as int, UNIT_MAX as int);
                lemma_fmul_cap(2 * d as int, n.x as int, 1572864, 131072);
                lemma_fmul_cap(2 * d as int, n.y as int, 1572864, 131072);
                lemma_fmul_cap(2 * d as int, n.z as int, 1572864, 131072);
            }
        }
        let td = 2 * d;
        Vec3 { x: v.x - fmul(td, n.x), y: v.y - fmul(td, n.y), z: v.z - fmul(td, n.z) }
    }

    /// Snell refraction of the unit direction `uv` at a surface with
    /// normal `n` and index ratio `eta`.
    pub fn refract(uv: &Vec3, n: &Vec3, eta: i64) -> (r: Vec3)
        requires
            in_range(*uv, UNIT_MAX as int),
            in_range(*n, UNIT_MAX as int),
            0 <= eta <= 262144,
        ensures
            r == refract_s(*uv, *n, eta as int),
            in_range(r, 0x200_0000),
    {
        proof {
            lemma_dot_bound(negv_s(*uv), *n, UNIT_MAX as int, UNIT_MAX as int);
        }
        let mcos = dot(&uv.neg(), n);
        let cos = if mcos < SCALE {
            mcos
        } else {
            SCALE
        };
        // |cos| <= 786432
        proof {
            lemma_fmul_cap(n.x as int, cos as int, 131072, 786432);
            lemma_fmul_cap(n.y as int, cos as int, 131072, 786432);
            lemma_fmul_cap(n.z as int, cos as int, 131072, 786432);
        }
        let scaled_n = n.scale(cos);
        // |scaled_n| <= 1572864, so |inner| <= 1703936
        let inner = uv.add(scaled_n);
        proof {
            lemma_fmul_cap(inner.x as int, eta as int, 1703936, 262144);
            lemma_fmul_cap(inner.y as int, eta as int, 1703936, 262144);
            lemma_fmul_cap(inner.z as int, eta as int, 1703936, 262144);
        }
        let r_perp = inner.scale(eta);
        // |r_perp| <= 6815744
        proof {
            lemma_dot_bound(r_perp, r_perp, 6815744, 6815744);
        }
        let k = SCALE - r_perp.length_squared();
        let sq = fsqrt(absi64(k));
        proof {
            lemma_sqrt_floor_bounds(absi(k as int) * 65536);
            assert(sq as int <= 12000000) by (nonlinear_arith)
                requires
                    0 <= sq as int,
                    sq as int * sq as int <= absi(k as int) * 65536,
                    absi(k as int) <= 2126577664,
            ;
            lemma_fmul_cap(n.x as int, -(sq as int), 131072, 12000000);
            lemma_fmul_cap(n.y as int, -(sq as int), 131072, 12000000);
            lemma_fmul_cap(n.z as int, -(sq as int), 131072, 12000000);
        }
        let r_par = n.scale(-sq);
        r_par.add(r_perp)
    }

    /// A vector whose components are uniform in `[min, max)`.
    pub fn random(rng: &mut Rng, min: i64, max: i64) -> (r: Vec3)
        requires
            min < max,
            -0x2000_0000_0000_0000 <= min,
            max <= 0x2000_0000_0000_0000,
        ensures
            r == random_v3_s(old(rng).state, min as int, max as int),
            final(rng).state == rng_next3_s(old(rng).state),
            in_range(r, if absi(min as int) >= absi(max as int) {
                absi(min as int)
            } else {
                absi(max as int)
            }),
    {
        let x = rng.gen_range(min, max);
        let y = rng.gen_range(min, max);
        let z = rng.gen_range(min, max);
        Vec3 { x, y, z }
    }

    /// A vector with components uniform in `[0, 1)`.
    pub fn random_0_1(rng: &mut Rng) -> (r: Vec3)
        ensures
            r == random_v3_s(old(rng).state, 0, SCALE as int),
            final(rng).state == rng_next3_s(old(rng).state),
            in_range(r, SCALE as int),
    {
        Vec3::random(rng, 0, SCALE)
    }

    /// A non-degenerate point strictly inside the unit ball.
    pub fn random_in_unit_sphere(rng: &mut Rng) -> (r: Vec3)
        ensures
            r == ruis_s(old(rng).state, 64).0,
            final(rng).state == ruis_s(old(rng).state, 64).1,
            in_range(r, SCALE as int),
            lensq_s(r) < SCALE,
            !near_zero_s(r),
    {
        let ghost s0: u64 = rng.state;
        let mut i: usize = 0;
        while i < 64
            invariant
                0 <= i <= 64,
                s0 == old(rng).state,
                ruis_s(s0, 64) == ruis_s(rng.state, (64 - i) as nat),
            decreases 64 - i,
        {
            let ghost cur: u64 = rng.state;
            let p = Vec3::random(rng, -SCALE, SCALE);
            let ok_len = p.length_squared() < SCALE;
            let ok_deg = !p.near_zero();
            proof {
                assert(ruis_s(cur, (64 - i) as nat) == if lensq_s(p) < SCALE && !near_zero_s(p) {
                    (p, rng_next3_s(cur))
                } else {
                    ruis_s(rng_next3_s(cur), (64 - i - 1) as nat)
                });
            }
            if ok_len && ok_deg {
                return p;
            }
            i = i + 1;
        }
        let r = Vec3 { x: 32768, y: 32768, z: 0 };
        proof {
            assert(ruis_s(rng.state, 0nat) == (vec3_s(32768, 32768, 0), rng.state));
            assert(r == vec3_s(32768, 32768, 0));
            assert(32768int * 32768 == 0x4000_0000 && 0int * 0 == 0) by (nonlinear_arith);
            assert(dot_raw(r, r) == 0x8000_0000);
            assert(lensq_s(r) == tdiv(0x8000_0000, 65536));
            assert(0x8000_0000int / 65536 == 32768) by (nonlinear_arith);
            assert(lensq_s(r) == 32768);
        }
        r
    }

    /// A random direction of unit length.
    pub fn random_unit_vector(rng: &mut Rng) -> (r: Vec3)
        ensures
            r == ruv_s(old(rng).state).0,
            final(rng).state == ruv_s(old(rng).state).1,
            in_range(r, UNIT_MAX as int),
            !near_zero_s(r),
            maxcomp_s(r) >= 32768,
    {
        let p = Vec3::random_in_unit_sphere(rng);
        proof {
            lemma_unit_bounds(p);
        }
        unit_vector(p)
    }

    /// A ball sample lying in the hemisphere around `normal`.
    pub fn random_in_hemishpere(rng: &mut Rng, normal: &Vec3) -> (r: Vec3)
        requires
            in_range(*normal, OP_MAX as int),
        ensures
            r == rih_s(old(rng).state, *normal).0,
            final(rng).state == rih_s(old(rng).state, *normal).1,
            in_range(r, SCALE as int),
            !near_zero_s(r),
    {
        let in_unit_sphere = Vec3::random_in_unit_sphere(rng);
        if dot(&in_unit_sphere, normal) > 0 {
            in_unit_sphere
        } else {
            in_unit_sphere.neg()
        }
    }

    /// A point inside the unit disk of the xy-plane (the lens sample).
    pub fn random_in_unit_disk(rng: &mut Rng) -> (r: Vec3)
        ensures
            r == ruid_s(old(rng).state, 64).0,
            final(rng).state == ruid_s(old(rng).state, 64).1,
            in_range(r, SCALE as int),
            lensq_s(r) < SCALE,
            r.z == 0,
    {
        let ghost s0: u64 = rng.state;
        let mut i: usize = 0;
        while i < 64
            invariant
                0 <= i <= 64,
                s0 == old(rng).state,
                ruid_s(s0, 64) == ruid_s(rng.state, (64 - i) as nat),
            decreases 64 - i,
        {
            let ghost cur: u64 = rng.state;
            let x = rng.gen_range(-SCALE, SCALE);
            let y = rng.gen_range(-SCALE, SCALE);
            let p = Vec3 { x, y, z: 0 };
            proof {
                assert(p == vec3_s(
                    rng_range_s(cur, -(SCALE as int), SCALE as int),
                    rng_range_s(rng_next_s(cur), -(SCALE as int), SCALE as int),
                    0,
                ));
                assert(ruid_s(cur, (64 - i) as nat) == if lensq_s(p) < SCALE {
                    (p, rng_next_s(rng_next_s(cur)))
                } else {
                    ruid_s(rng_next_s(rng_next_s(cur)), (64 - i - 1) as nat)
                });
            }
            if p.length_squared() < SCALE {
                return p;
            }
            i = i + 1;
        }
        let r = Vec3 { x: 32768, y: 32768, z: 0 };
        proof {
            assert(ruid_s(rng.state, 0nat) == (vec3_s(32768, 32768, 0), rng.state));
            assert(r == vec3_s(32768, 32768, 0));
            assert(32768int * 32768 == 0x4000_0000 && 0int * 0 == 0) by (nonlinear_arith);
            assert(dot_raw(r, r) == 0x8000_0000);
            assert(lensq_s(r) == tdiv(0x8000_0000, 65536));
            assert(0x8000_0000int / 65536 == 32768) by (nonlinear_arith);
            assert(lensq_s(r) == 32768);
        }
        r
    }
}

/// Reflection flips the sign of the component along the normal while
/// keeping its magnitude: `dot(reflect(v, n), n) == -dot(v, n)`, for an
/// exactly unit normal and inputs on which the fixed-point products are
/// exactly representable, so that no truncation occurs.
pub proof fn lemma_reflect_preserves_normal_component(v: Vec3, n: Vec3)
    requires
        in_range(v, 0x100_0000),
        in_range(n, UNIT_MAX as int),
        dot_raw(n, n) == SCALE * SCALE,
        dot_raw(v, n) % (SCALE as int) == 0,
        (2 * dot_s(v, n) * n.x) % (SCALE as int) == 0,
        (2 * dot_s(v, n) * n.y) % (SCALE as int) == 0,
        (2 * dot_s(v, n) * n.z) % (SCALE as int) == 0,
    ensures
        dot_s(reflect_s(v, n), n) == -dot_s(v, n),
{
    lemma_dot_bound(v, n, 0x100_0000, UNIT_MAX as int);
    let bigr = dot_raw(v, n);
    let d = dot_s(v, n);
    lemma_tdiv_exact(bigr, SCALE as int);
    assert(bigr == SCALE * d);
    let px = 2 * d * n.x;
    let py = 2 * d * n.y;
    let pz = 2 * d * n.z;
    lemma_tdiv_exact(px, SCALE as int);
    lemma_tdiv_exact(py, SCALE as int);
    lemma_tdiv_exact(pz, SCALE as int);
    let qx = px / (SCALE as int);
    let qy = py / (SCALE as int);
    let qz = pz / (SCALE as int);
    lemma_abs_mul(2 * d, n.x as int, 0x1800_0000, UNIT_MAX as int);
    lemma_abs_mul(2 * d, n.y as int, 0x1800_0000, UNIT_MAX as int);
    lemma_abs_mul(2 * d, n.z as int, 0x1800_0000, UNIT_MAX as int);
    lemma_tdiv_bound(px, SCALE as int, 0x1800_0000 * (UNIT_MAX as int));
    lemma_tdiv_bound(py, SCALE as int, 0x1800_0000 * (UNIT_MAX as int));
    lemma_tdiv_bound(pz, SCALE as int, 0x1800_0000 * (UNIT_MAX as int));
    let r = reflect_s(v, n);
    assert(r.x as int == v.x - qx && r.y as int == v.y - qy && r.z as int == v.z - qz);
    assert(dot_raw(r, n) == bigr - (qx * n.x + qy * n.y + qz * n.z)) by (nonlinear_arith)
        requires
            r.x as int == v.x - qx,
            r.y as int == v.y - qy,
            r.z as int == v.z - qz,
            bigr == v.x * n.x + v.y * n.y + v.z * n.z,
            dot_raw(r, n) == r.x * n.x + r.y * n.y + r.z * n.z,
    ;
    let sumqn = qx * n.x + qy * n.y + qz * n.z;
    assert(SCALE * sumqn == 2 * d * (SCALE * SCALE)) by (nonlinear_arith)
        requires
            px == SCALE * qx,
            py == SCALE * qy,
            pz == SCALE * qz,
            px == 2 * d * n.x,
            py == 2 * d * n.y,
            pz == 2 * d * n.z,
            n.x * n.x + n.y * n.y + n.z * n.z == SCALE * SCALE,
            sumqn == qx * n.x + qy * n.y + qz * n.z,
    ;
    assert(sumqn == 2 * d * SCALE) by (nonlinear_arith)
        requires
            SCALE * sumqn == 2 * d * (SCALE * SCALE),
            SCALE == 65536,
    ;
    assert(dot_raw(r, n) == -(d * (SCALE as int))) by (nonlinear_arith)
        requires
            dot_raw(r, n) == bigr - sumqn,
            bigr == SCALE * d,
            sumqn == 2 * d * SCALE,
    ;
    assert((-(d * (SCALE as int))) == (-d) * SCALE) by (nonlinear_arith);
    vstd::arithmetic::div_mod::lemma_mod_multiples_basic(-d, SCALE as int);
    lemma_tdiv_exact(dot_raw(r, n), SCALE as int);
    lemma_div_multiples_vanish(-d, SCALE as int);
    assert((-d) * SCALE == (SCALE as int) * (-d)) by (nonlinear_arith);
}

/// A vector of exactly unit length is a fixed point of normalization:
/// its squared length and length are exactly one, and dividing by that
/// length returns it unchanged.
pub proof fn lemma_unit_vector_fixed(u: Vec3)
    requires
        in_range(u, OP_MAX as int),
        dot_raw(u, u) == SCALE * SCALE,
    ensures
        lensq_s(u) == SCALE,
        len_s(u) == SCALE,
        unitv_s(u) == u,
{
    vstd::arithmetic::div_mod::lemma_mod_multiples_basic(SCALE as int, SCALE as int);
    lemma_tdiv_exact(SCALE * SCALE, SCALE as int);
    lemma_div_multiples_vanish(SCALE as int, SCALE as int);
    assert(SCALE * SCALE == (SCALE as int) * (SCALE as int)) by (nonlinear_arith);
    assert(lensq_s(u) == SCALE);
    crate::fixed::lemma_sqrt_floor_is(SCALE * SCALE, SCALE as int);
    assert(len_s(u) == SCALE);
    vstd::arithmetic::div_mod::lemma_mod_multiples_basic(u.x as int, SCALE as int);
    vstd::arithmetic::div_mod::lemma_mod_multiples_basic(u.y as int, SCALE as int);
    vstd::arithmetic::div_mod::lemma_mod_multiples_basic(u.z as int, SCALE as int);
    lemma_tdiv_exact(u.x * SCALE, SCALE as int);
    lemma_tdiv_exact(u.y * SCALE, SCALE as int);
    lemma_tdiv_exact(u.z * SCALE, SCALE as int);
    lemma_div_multiples_vanish(u.x as int, SCALE as int);
    lemma_div_multiples_vanish(u.y as int, SCALE as int);
    lemma_div_multiples_vanish(u.z as int, SCALE as int);
    assert(u.x * SCALE == (SCALE as int) * (u.x as int) && u.y * SCALE == (SCALE as int) * (
    u.y as int) && u.z * SCALE == (SCALE as int) * (u.z as int)) by (nonlinear_arith);
    assert(unitv_s(u) == u);
}

/// Normalization is idempotent: wherever the normalized vector is exactly
/// unit, normalizing it again returns it unchanged, and its length is
/// exactly one.
pub proof fn lemma_unit_vector_idempotent(v: Vec3)
    requires
        in_range(v, OP_MAX as int),
        !near_zero_s(v),
        dot_raw(unitv_s(v), unitv_s(v)) == SCALE * SCALE,
    ensures
        unitv_s(unitv_s(v)) == unitv_s(v),
        len_s(unitv_s(v)) == SCALE,
{
    lemma_unit_bounds(v);
    lemma_unit_vector_fixed(unitv_s(v));
}

/// The normalization of a non-degenerate vector.
pub fn unit_vector(v: Vec3) -> (r: Vec3)
    requires
        in_range(v, OP_MAX as int),
        !near_zero_s(v),
    ensures
        r == unitv_s(v),
        in_range(r, UNIT_MAX as int),
        !near_zero_s(r),
        maxcomp_s(r) >= 32768,
{
    proof {
        lemma_unit_bounds(v);
    }
    let len = v.length();
    v.div(len)
}

/// The fixed-point dot product.
pub fn dot(u: &Vec3, v: &Vec3) -> (r: i64)
    requires
        in_range(*u, OP_MAX as int),
        in_range(*v, OP_MAX as int),
    ensures
        r as int == dot_s(*u, *v),
{
    proof {
        lemma_abs_mul(u.x as int, v.x as int, OP_MAX as int, OP_MAX as int);
        lemma_abs_mul(u.y as int, v.y as int, OP_MAX as int, OP_MAX as int);
        lemma_abs_mul(u.z as int, v.z as int, OP_MAX as int, OP_MAX as int);
        lemma_tdiv_bound(dot_raw(*u, *v), SCALE as int, 3 * (OP_MAX as int * OP_MAX as int));
    }
    let p: i128 = (u.x as i128) * (v.x as i128) + (u.y as i128) * (v.y as i128) + (u.z as i128)
        * (v.z as i128);
    let q = div_i128(p, SCALE as i128);
    q as i64
}

/// The fixed-point cross product.
pub fn cross(u: &Vec3, v: &Vec3) -> (r: Vec3)
    requires
        in_range(*u, OP_MAX as int),
        in_range(*v, OP_MAX as int),
    ensures
        r == cross_s(*u, *v),
{
    let x = cross_component(u.y, v.z, u.z, v.y);
    let y = cross_component(u.z, v.x, u.x, v.z);
    let z = cross_component(u.x, v.y, u.y, v.x);
    Vec3 { x, y, z }
}

/// One component of the cross product: `(a b - c d) / SCALE`.
fn cross_component(a: i64, b: i64, c: i64, d: i64) -> (r: i64)
    requires
        absi(a as int) <= OP_MAX as int,
        absi(b as int) <= OP_MAX as int,
        absi(c as int) <= OP_MAX as int,
        absi(d as int) <= OP_MAX as int,
    ensures
        r as int == crossc_s(a as int, b as int, c as int, d as int),
{
    proof {
        lemma_abs_mul(a as int, b as int, OP_MAX as int, OP_MAX as int);
        lemma_abs_mul(c as int, d as int, OP_MAX as int, OP_MAX as int);
        lemma_tdiv_bound(
            a * b - c * d,
            SCALE as int,
            2 * (OP_MAX as int * OP_MAX as int),
        );
    }
    let p: i128 = (a as i128) * (b as i128) - (c as i128) * (d as i128);
    let q = div_i128(p, SCALE as i128);
    q as i64
}

} // verus!
