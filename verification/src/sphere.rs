//! The sphere primitive and its closed-form ray intersection.
//!
//! Substituting the ray into the sphere equation gives a quadratic; a hit
//! is the nearest of its roots inside the query interval. The returned
//! record carries the hit point, the parameter, the surface normal
//! oriented against the ray, and the sphere's material handle. A root
//! whose computed outward normal is numerically unusable (its components
//! or squared length outside a factor two of unit) is reported as a miss:
//! that guard is part of the stated contract.

use crate::fixed::{
    absi, div_i128, fmul, fmul_s, fsqrt128, fsqrt_s, lemma_abs_mul, lemma_sqrt_floor_bounds,
    lemma_tdiv, lemma_tdiv_bound, lemma_tdiv_le, tdiv, SCALE,
};
use crate::hittable::{face_normal_s, normal_ok, HitRecord, SceneError};
use crate::limits::{CEN_MAX, DIR_MAX, POS_MAX, T_MAX};
use crate::ray::{at_s, Ray};
use crate::vec3::{
    divv_s, dot_raw, dot_s, in_range, lemma_dot_bound, lemma_not_near_zero_lensq, lensq_s,
    near_zero_s, subv_s, Point3, Vec3, UNIT_MAX,
};
use vstd::prelude::*;

verus! {

#[derive(Clone, Copy, PartialEq, Eq, Structural, Debug)]
pub struct Sphere {
    pub center: Point3,
    pub radius: i64,
    /// Index into the scene's material arena.
    pub material: usize,
}

/// A usable sphere: positive radius, geometry within the world bounds.
pub open spec fn sphere_wf(s: Sphere) -> bool {
    in_range(s.center, CEN_MAX as int) && 1 <= s.radius <= CEN_MAX
}

/// Origin of the ray relative to the center.
pub open spec fn oc_s(s: Sphere, r: Ray) -> Vec3 {
    subv_s(r.orig, s.center)
}

/// The quadratic coefficient `a`: squared length of the direction.
pub open spec fn sphere_a_s(r: Ray) -> int {
    lensq_s(r.dir)
}

/// The half-coefficient `b/2`: direction against the relative origin.
pub open spec fn sphere_hb_s(s: Sphere, r: Ray) -> int {
    dot_s(r.dir, oc_s(s, r))
}

/// The constant coefficient `c`.
pub open spec fn sphere_c_s(s: Sphere, r: Ray) -> int {
    lensq_s(oc_s(s, r)) - fmul_s(s.radius as int, s.radius as int)
}

/// The discriminant `(b/2)^2 - a c`; negative means no intersection.
pub open spec fn sphere_disc_s(s: Sphere, r: Ray) -> int {
    fmul_s(sphere_hb_s(s, r), sphere_hb_s(s, r)) - fmul_s(sphere_a_s(r), sphere_c_s(s, r))
}

/// The near root `(-b/2 - sqrt(disc)) / a`.
pub open spec fn sphere_root1_s(s: Sphere, r: Ray) -> int {
    tdiv((-sphere_hb_s(s, r) - fsqrt_s(sphere_disc_s(s, r))) * SCALE, sphere_a_s(r))
}

/// The far root `(-b/2 + sqrt(disc)) / a`.
pub open spec fn sphere_root2_s(s: Sphere, r: Ray) -> int {
    tdiv((-sphere_hb_s(s, r) + fsqrt_s(sphere_disc_s(s, r))) * SCALE, sphere_a_s(r))
}

/// The outward normal at the point the ray reaches at `root`.
pub open spec fn sphere_outward_s(s: Sphere, r: Ray, root: int) -> Vec3 {
    divv_s(subv_s(at_s(r, root), s.center), s.radius as int)
}

/// The numerical-validity guard on a computed outward normal.
pub open spec fn sphere_guard_s(s: Sphere, r: Ray, root: int) -> bool {
    let outward = sphere_outward_s(s, r, root);
    in_range(outward, UNIT_MAX as int) && 32768 <= lensq_s(outward) <= 131072
}

/// The record an accepted root produces, or a miss when its normal is
/// numerically unusable.
pub open spec fn sphere_rec_s(s: Sphere, r: Ray, root: int) -> Option<HitRecord> {
    if sphere_guard_s(s, r, root) {
        let outward = sphere_outward_s(s, r, root);
        let fnorm = face_normal_s(r, outward);
        Some(
            HitRecord {
                p: at_s(r, root),
                normal: fnorm.1,
                t: root as i64,
                front_face: fnorm.0,
                material: s.material,
            },
        )
    } else {
        None
    }
}

/// The full intersection function: no root when the discriminant is
/// negative; otherwise the near root if it lies in `[t_min, t_max]`, the
/// far root if only that one does, and a miss when neither qualifies.
pub open spec fn sphere_hit_s(s: Sphere, r: Ray, t_min: int, t_max: int) -> Option<HitRecord> {
    if sphere_disc_s(s, r) < 0 {
        None
    } else {
        let r1 = sphere_root1_s(s, r);
        let r2 = sphere_root2_s(s, r);
        if t_min <= r1 && r1 <= t_max {
            sphere_rec_s(s, r, r1)
        } else if t_min <= r2 && r2 <= t_max {
            sphere_rec_s(s, r, r2)
        } else {
            None
        }
    }
}

/// The dot product where one operand may span the whole world.
fn dot_wide(u: &Vec3, v: &Vec3) -> (r: i64)
    requires
        in_range(*u, DIR_MAX as int),
        in_range(*v, 0x3000_0000_0000),
    ensures
        r as int == dot_s(*u, *v),
{
    proof {
        lemma_abs_mul(u.x as int, v.x as int, DIR_MAX as int, 0x3000_0000_0000);
        lemma_abs_mul(u.y as int, v.y as int, DIR_MAX as int, 0x3000_0000_0000);
        lemma_abs_mul(u.z as int, v.z as int, DIR_MAX as int, 0x3000_0000_0000);
        lemma_tdiv_bound(dot_raw(*u, *v), SCALE as int, 3 * (DIR_MAX as int * 0x3000_0000_0000));
    }
    let p: i128 = (u.x as i128) * (v.x as i128) + (u.y as i128) * (v.y as i128) + (u.z as i128)
        * (v.z as i128);
    let q = div_i128(p, SCALE as i128);
    q as i64
}

/// Squared length of a world-spanning vector, kept wide.
fn lensq_wide(v: &Vec3) -> (r: i128)
    requires
        in_range(*v, 0x3000_0000_0000),
    ensures
        r as int == lensq_s(*v),
        0 <= r,
{
    proof {
        lemma_abs_mul(v.x as int, v.x as int, 0x3000_0000_0000, 0x3000_0000_0000);
        lemma_abs_mul(v.y as int, v.y as int, 0x3000_0000_0000, 0x3000_0000_0000);
        lemma_abs_mul(v.z as int, v.z as int, 0x3000_0000_0000, 0x3000_0000_0000);
        assert(0 <= dot_raw(*v, *v)) by (nonlinear_arith);
        lemma_tdiv(dot_raw(*v, *v), SCALE as int);
        vstd::arithmetic::div_mod::lemma_div_is_ordered(0, dot_raw(*v, *v), 65536);
    }
    let p: i128 = (v.x as i128) * (v.x as i128) + (v.y as i128) * (v.y as i128) + (v.z as i128)
        * (v.z as i128);
    div_i128(p, SCALE as i128)
}

impl Sphere {
    /// A sphere is accepted only with a positive radius and geometry
    /// inside the world bounds; anything else is an invalid configuration.
    pub fn new(center: Point3, radius: i64, material: usize) -> (r: Result<Sphere, SceneError>)
        ensures
            r is Ok <==> (1 <= radius <= CEN_MAX && in_range(center, CEN_MAX as int)),
            match r {
                Ok(s) => s == (Sphere { center, radius, material }) && sphere_wf(s),
                Err(e) => e == SceneError::InvalidConfiguration,
            },
    {
        if radius < 1 || radius > CEN_MAX {
            return Err(SceneError::InvalidConfiguration);
        }
        if center.x > CEN_MAX || center.x < -CEN_MAX || center.y > CEN_MAX || center.y < -CEN_MAX
            || center.z > CEN_MAX || center.z < -CEN_MAX {
            return Err(SceneError::InvalidConfiguration);
        }
        Ok(Sphere { center, radius, material })
    }

    /// Nearest intersection of `r` with this sphere in `[t_min, t_max]`.
    pub fn hit(&self, r: &Ray, t_min: i64, t_max: i64) -> (res: Option<HitRecord>)
        requires
            sphere_wf(*self),
            in_range(r.orig, POS_MAX as int),
            in_range(r.dir, DIR_MAX as int),
            !near_zero_s(r.dir),
            0 <= t_min <= t_max <= T_MAX,
        ensures
            res == sphere_hit_s(*self, *r, t_min as int, t_max as int),
            sphere_disc_s(*self, *r) < 0 ==> res is None,
            match res {
                Some(rec) => {
                    &&& t_min <= rec.t <= t_max
                    &&& rec.material == self.material
                    &&& rec.p == at_s(*r, rec.t as int)
                    &&& absi(rec.p.x - r.orig.x) <= 0x40_0000_0000
                    &&& absi(rec.p.y - r.orig.y) <= 0x40_0000_0000
                    &&& absi(rec.p.z - r.orig.z) <= 0x40_0000_0000
                    &&& normal_ok(rec.normal)
                    &&& dot_s(r.dir, rec.normal) <= 0
                },
                None => true,
            },
    {
        proof {
            lemma_not_near_zero_lensq(r.dir);
            lemma_dot_bound(r.dir, oc_s(*self, *r), DIR_MAX as int, 0x3000_0000_0000);
            lemma_dot_bound(r.dir, r.dir, DIR_MAX as int, DIR_MAX as int);
        }
        let oc = r.origin().sub(self.center);
        let a = r.direction().length_squared();
        let half_b = dot_wide(&r.direction(), &oc);
        proof {
            crate::vec3::lemma_fmul_cap(self.radius as int, self.radius as int, CEN_MAX as int, CEN_MAX as int);
        }
        let r2 = fmul(self.radius, self.radius);
        let c_wide: i128 = lensq_wide(&oc) - (r2 as i128);
        // |half_b| <= 2^56, |a| <= 2^36, |c| <= 2^77.
        proof {
            lemma_dot_bound(oc_s(*self, *r), oc_s(*self, *r), 0x3000_0000_0000, 0x3000_0000_0000);
            lemma_abs_mul(half_b as int, half_b as int, 0x200_0000_0000_0000, 0x200_0000_0000_0000);
            lemma_tdiv_bound(
                half_b as int * half_b as int,
                SCALE as int,
                0x200_0000_0000_0000int * 0x200_0000_0000_0000,
            );
            lemma_abs_mul(a as int, c_wide as int, 0x10_0000_0000, 0x2000_0000_0000_0000_0000);
            lemma_tdiv_bound(
                a as int * c_wide as int,
                SCALE as int,
                0x10_0000_0000int * 0x2000_0000_0000_0000_0000,
            );
        }
        let hb2: i128 = div_i128((half_b as i128) * (half_b as i128), 65536);
        let ac: i128 = div_i128((a as i128) * c_wide, 65536);
        let disc: i128 = hb2 - ac;
        if disc < 0 {
            return None;
        }
        let sqrtd = fsqrt128(disc);
        proof {
            lemma_sqrt_floor_bounds(disc as int * 65536);
            assert(sqrtd as int <= 0x400_0000_0000_0000_0000) by (nonlinear_arith)
                requires
                    0 <= sqrtd as int,
                    sqrtd as int * sqrtd as int <= disc as int * 65536,
                    disc as int <= 0x4000_0000_0000_0000_0000_0000_0000,
            ;
        }
        let neg_hb: i128 = -(half_b as i128);
        proof {
            lemma_tdiv_bound(
                (neg_hb as int - sqrtd as int) * SCALE,
                a as int,
                0x500_0000_0000_0000_0000int * 65536,
            );
            lemma_abs_mul(neg_hb as int - sqrtd as int, SCALE as int, 0x500_0000_0000_0000_0000, 65536);
            lemma_tdiv_bound(
                (neg_hb as int + sqrtd as int) * SCALE,
                a as int,
                0x500_0000_0000_0000_0000int * 65536,
            );
            lemma_abs_mul(neg_hb as int + sqrtd as int, SCALE as int, 0x500_0000_0000_0000_0000, 65536);
        }
        let root1 = div_i128((neg_hb - sqrtd) * 65536, a as i128);
        let root2 = div_i128((neg_hb + sqrtd) * 65536, a as i128);
        let root: i64;
        if t_min as i128 <= root1 && root1 <= t_max as i128 {
            root = root1 as i64;
        } else if t_min as i128 <= root2 && root2 <= t_max as i128 {
            root = root2 as i64;
        } else {
            return None;
        }
        let p = r.at(root);
        // Outward normal, one component at a time, with its guard.
        let nx = div_i128(((p.x - self.center.x) as i128) * 65536, self.radius as i128);
        let ny = div_i128(((p.y - self.center.y) as i128) * 65536, self.radius as i128);
        let nz = div_i128(((p.z - self.center.z) as i128) * 65536, self.radius as i128);
        if nx > 131072 || nx < -131072 || ny > 131072 || ny < -131072 || nz > 131072 || nz
            < -131072 {
            return None;
        }
        let outward = Vec3 { x: nx as i64, y: ny as i64, z: nz as i64 };
        proof {
            assert(outward == sphere_outward_s(*self, *r, root as int));
        }
        let ls = outward.length_squared();
        if ls < 32768 || ls > 131072 {
            return None;
        }
        proof {
            crate::vec3::lemma_lensq_neg(outward, UNIT_MAX as int);
        }
        let mut rec = HitRecord::new();
        rec.t = root;
        rec.p = p;
        rec.material = self.material;
        rec.set_face_normal(r, &outward);
        Some(rec)
    }
}

/// The nearest-root law: a negative discriminant is a miss; a returned
/// parameter is a root of the quadratic inside the interval, and it is
/// the far root only when the near root does not qualify.
pub proof fn lemma_hit_nearest_root(s: Sphere, r: Ray, t_min: int, t_max: int)
    requires
        sphere_wf(s),
        in_range(r.dir, DIR_MAX as int),
        !near_zero_s(r.dir),
        0 <= t_min <= t_max <= T_MAX,
    ensures
        sphere_disc_s(s, r) < 0 ==> sphere_hit_s(s, r, t_min, t_max) is None,
        sphere_disc_s(s, r) >= 0 ==> sphere_root1_s(s, r) <= sphere_root2_s(s, r),
        match sphere_hit_s(s, r, t_min, t_max) {
            Some(rec) => {
                &&& sphere_disc_s(s, r) >= 0
                &&& (rec.t == sphere_root1_s(s, r) || rec.t == sphere_root2_s(s, r))
                &&& t_min <= rec.t <= t_max
                &&& (rec.t != sphere_root1_s(s, r) ==> !(t_min <= sphere_root1_s(s, r) <= t_max))
            },
            None => true,
        },
        sphere_disc_s(s, r) >= 0 && t_min <= sphere_root1_s(s, r) <= t_max && sphere_guard_s(
            s,
            r,
            sphere_root1_s(s, r),
        ) ==> sphere_hit_s(s, r, t_min, t_max) is Some,
        sphere_disc_s(s, r) >= 0 && !(t_min <= sphere_root1_s(s, r) <= t_max) && t_min
            <= sphere_root2_s(s, r) <= t_max && sphere_guard_s(s, r, sphere_root2_s(s, r))
            ==> sphere_hit_s(s, r, t_min, t_max) is Some,
{
    lemma_not_near_zero_lensq(r.dir);
    if sphere_disc_s(s, r) >= 0 {
        lemma_sqrt_floor_bounds(sphere_disc_s(s, r) * SCALE);
        let hb = sphere_hb_s(s, r);
        let sq = fsqrt_s(sphere_disc_s(s, r));
        assert((-hb - sq) * SCALE <= (-hb + sq) * SCALE) by (nonlinear_arith)
            requires
                0 <= sq,
                SCALE == 65536,
        ;
        lemma_tdiv_le((-hb - sq) * SCALE, (-hb + sq) * SCALE, sphere_a_s(r));
    }
    let res = sphere_hit_s(s, r, t_min, t_max);
    if res is Some {
        let rec = res->Some_0;
        let r1 = sphere_root1_s(s, r);
        let r2 = sphere_root2_s(s, r);
        if t_min <= r1 && r1 <= t_max {
            assert(rec.t == r1 as i64);
        } else if t_min <= r2 && r2 <= t_max {
            assert(rec.t == r2 as i64);
        }
    }
}

} // verus!
