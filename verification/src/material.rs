//! The surface scattering model.
//!
//! Three closed material kinds map an incoming ray and an intersection
//! record to an optional attenuation and scattered ray: diffuse
//! (Lambertian), specular with roughness (Metal), and refractive
//! (Dielectric). Only the metal can absorb a ray. Every random decision
//! draws from the threaded generator, so each `scatter` is the pure
//! function of its inputs and the generator state given by its model.

use crate::fixed::{
    absi, fdiv, fdiv_s, fmul, fmul_s, fsqrt, fsqrt_s, lemma_sqrt_floor_bounds, lemma_tdiv, SCALE,
};
use crate::hittable::{lemma_normal_ok_not_near_zero, normal_ok, HitRecord};
use crate::limits::DIR_MAX;
use crate::ray::Ray;
use crate::rng::{rng_next_s, rng_range_s, Rng};
use crate::vec3::{
    absi64, addv_s, color_wf, dot, dot_s, in_range, lemma_dot_bound, lemma_fmul_cap, near_zero_s,
    negv_s, reflect_s, refract_s, ruis_s, ruv_s, scalev_s, unit_vector, unitv_s, vec3_s, Color,
    Vec3, UNIT_MAX,
};
use vstd::arithmetic::div_mod::{lemma_div_is_ordered, lemma_div_multiples_vanish};
use vstd::prelude::*;

verus! {

/// The least supported refraction index (one quarter).
pub const IR_MIN: i64 = 16384;

/// The greatest supported refraction index (four).
pub const IR_MAX: i64 = 262144;

/// A diffuse surface.
#[derive(Clone, Copy, PartialEq, Eq, Structural, Debug)]
pub struct Lambertian {
    pub albedo: Color,
}

/// A reflective surface with a roughness in `[0, 1]`.
#[derive(Clone, Copy, PartialEq, Eq, Structural, Debug)]
pub struct Metal {
    pub albedo: Color,
    pub fuzz: i64,
}

/// A clear refractive surface.
#[derive(Clone, Copy, PartialEq, Eq, Structural, Debug)]
pub struct Dielectric {
    /// Index of refraction.
    pub ir: i64,
}

/// The closed set of surface kinds, dispatched by match.
#[derive(Clone, Copy, PartialEq, Eq, Structural, Debug)]
pub enum Material {
    Lambertian(Lambertian),
    Metal(Metal),
    Dielectric(Dielectric),
}

pub open spec fn lambertian_wf(l: Lambertian) -> bool {
    color_wf(l.albedo)
}

pub open spec fn metal_wf(m: Metal) -> bool {
    color_wf(m.albedo) && 0 <= m.fuzz <= SCALE
}

pub open spec fn dielectric_wf(d: Dielectric) -> bool {
    IR_MIN <= d.ir <= IR_MAX
}

pub open spec fn material_wf(m: Material) -> bool {
    match m {
        Material::Lambertian(l) => lambertian_wf(l),
        Material::Metal(mt) => metal_wf(mt),
        Material::Dielectric(d) => dielectric_wf(d),
    }
}

/// What every scattered ray guarantees: it starts at the hit point with a
/// bounded, non-degenerate direction, and its attenuation is a color.
pub open spec fn scatter_ok(res: Option<(Color, Ray)>, rec: HitRecord) -> bool {
    match res {
        Some((att, sc)) => color_wf(att) && sc.orig == rec.p && in_range(sc.dir, DIR_MAX as int)
            && !near_zero_s(sc.dir),
        None => true,
    }
}

/// The diffuse model: scatter about the normal by a random unit vector,
/// falling back to the normal itself when the sum degenerates.
pub open spec fn lambertian_scatter_s(l: Lambertian, rec: HitRecord, s: u64) -> (
    Option<(Color, Ray)>,
    u64,
) {
    let u = ruv_s(s);
    let d0 = addv_s(rec.normal, u.0);
    let dir = if near_zero_s(d0) {
        rec.normal
    } else {
        d0
    };
    (Some((l.albedo, Ray { orig: rec.p, dir })), u.1)
}

/// The metal model: mirror reflection of the unit incoming direction,
/// fuzzed by a scaled ball sample; absorbed unless the result still
/// points off the surface and is non-degenerate.
pub open spec fn metal_scatter_s(m: Metal, r_in: Ray, rec: HitRecord, s: u64) -> (
    Option<(Color, Ray)>,
    u64,
) {
    let reflected = reflect_s(unitv_s(r_in.dir), rec.normal);
    let ball = ruis_s(s, 64);
    let dir = addv_s(reflected, scalev_s(ball.0, m.fuzz as int));
    if dot_s(dir, rec.normal) > 0 && !near_zero_s(dir) {
        (Some((m.albedo, Ray { orig: rec.p, dir })), ball.1)
    } else {
        (None, ball.1)
    }
}

/// The refraction ratio at the struck side of the surface.
pub open spec fn dielectric_ratio_s(d: Dielectric, front_face: bool) -> int {
    if front_face {
        fdiv_s(SCALE as int, d.ir as int)
    } else {
        d.ir as int
    }
}

/// Cosine of the incidence angle, capped at one.
pub open spec fn dielectric_cos_s(r_in: Ray, rec: HitRecord) -> int {
    let mcos = dot_s(negv_s(unitv_s(r_in.dir)), rec.normal);
    if mcos < SCALE as int {
        mcos
    } else {
        SCALE as int
    }
}

/// Sine of the incidence angle, from the cosine.
pub open spec fn dielectric_sin_s(r_in: Ray, rec: HitRecord) -> int {
    let cos = dielectric_cos_s(r_in, rec);
    fsqrt_s(absi(SCALE - fmul_s(cos, cos)))
}

/// Total internal reflection: Snell's law has no solution.
pub open spec fn dielectric_cannot_refract_s(d: Dielectric, r_in: Ray, rec: HitRecord) -> bool {
    fmul_s(dielectric_ratio_s(d, rec.front_face), dielectric_sin_s(r_in, rec)) > SCALE
}

/// Schlick's reflectance approximation.
pub open spec fn reflectance_s(cosine: int, ref_idx: int) -> int {
    let r0l = fdiv_s(SCALE - ref_idx, SCALE + ref_idx);
    let r0 = fmul_s(r0l, r0l);
    let x = SCALE - cosine;
    let p2 = fmul_s(x, x);
    let p4 = fmul_s(p2, p2);
    let p5 = fmul_s(p4, x);
    r0 + fmul_s(SCALE - r0, p5)
}

/// The dielectric model: reflect under total internal reflection or a
/// winning Schlick draw, refract otherwise; attenuation is white. A
/// degenerate direction falls back to the normal.
pub open spec fn dielectric_scatter_s(d: Dielectric, r_in: Ray, rec: HitRecord, s: u64) -> (
    Option<(Color, Ray)>,
    u64,
) {
    let ratio = dielectric_ratio_s(d, rec.front_face);
    let unit_in = unitv_s(r_in.dir);
    let cos = dielectric_cos_s(r_in, rec);
    let cannot = dielectric_cannot_refract_s(d, r_in, rec);
    let rnd = rng_range_s(s, 0, SCALE as int);
    let dir0 = if cannot || reflectance_s(cos, ratio) > rnd {
        reflect_s(unit_in, rec.normal)
    } else {
        refract_s(unit_in, rec.normal, ratio)
    };
    let dir = if near_zero_s(dir0) {
        rec.normal
    } else {
        dir0
    };
    (Some((vec3_s(SCALE as int, SCALE as int, SCALE as int), Ray { orig: rec.p, dir })), rng_next_s(
        s,
    ))
}

/// The scattering function of any material.
pub open spec fn material_scatter_s(m: Material, r_in: Ray, rec: HitRecord, s: u64) -> (
    Option<(Color, Ray)>,
    u64,
) {
    match m {
        Material::Lambertian(l) => lambertian_scatter_s(l, rec, s),
        Material::Metal(mt) => metal_scatter_s(mt, r_in, rec, s),
        Material::Dielectric(d) => dielectric_scatter_s(d, r_in, rec, s),
    }
}

/// Under total internal reflection the dielectric reflects whatever the
/// generator holds: the scattered ray is the same for any two states.
pub proof fn lemma_total_internal_reflection(
    d: Dielectric,
    r_in: Ray,
    rec: HitRecord,
    s1: u64,
    s2: u64,
)
    requires
        dielectric_cannot_refract_s(d, r_in, rec),
    ensures
        dielectric_scatter_s(d, r_in, rec, s1).0 == dielectric_scatter_s(d, r_in, rec, s2).0,
        ({
            let refl = reflect_s(unitv_s(r_in.dir), rec.normal);
            let dir = if near_zero_s(refl) {
                rec.normal
            } else {
                refl
            };
            dielectric_scatter_s(d, r_in, rec, s1).0 == Some(
                (
                    vec3_s(SCALE as int, SCALE as int, SCALE as int),
                    Ray { orig: rec.p, dir },
                ),
            )
        }),
{
}

impl Lambertian {
    pub fn new(albedo: Color) -> (r: Self)
        requires
            color_wf(albedo),
        ensures
            r.albedo == albedo,
            lambertian_wf(r),
    {
        Lambertian { albedo }
    }

    /// Diffuse scattering; the incoming ray plays no part.
    pub fn scatter(&self, _r_in: &Ray, rec: &HitRecord, rng: &mut Rng) -> (res: Option<
        (Color, Ray),
    >)
        requires
            lambertian_wf(*self),
            normal_ok(rec.normal),
        ensures
            res == lambertian_scatter_s(*self, *rec, old(rng).state).0,
            final(rng).state == lambertian_scatter_s(*self, *rec, old(rng).state).1,
            res is Some,
            scatter_ok(res, *rec),
    {
        proof {
            lemma_normal_ok_not_near_zero(rec.normal);
        }
        let u = Vec3::random_unit_vector(rng);
        let mut scatter_direction = rec.normal.add(u);
        if scatter_direction.near_zero() {
            scatter_direction = rec.normal;
        }
        let scattered = Ray::new(rec.p, scatter_direction);
        let attenuation = self.albedo;
        Some((attenuation, scattered))
    }
}

impl Metal {
    /// Roughness above one is silently clamped to one.
    pub fn new(albedo: Color, fuzz: i64) -> (r: Metal)
        requires
            color_wf(albedo),
            0 <= fuzz,
        ensures
            r.albedo == albedo,
            r.fuzz == if fuzz > SCALE {
                SCALE as int
            } else {
                fuzz as int
            },
            metal_wf(r),
    {
        if fuzz > SCALE {
            Metal { albedo, fuzz: SCALE }
        } else {
            Metal { albedo, fuzz }
        }
    }

    /// Fuzzed mirror reflection; absorbed when fuzzing pushes the ray
    /// under the surface or degenerates it.
    pub fn scatter(&self, r_in: &Ray, rec: &HitRecord, rng: &mut Rng) -> (res: Option<
        (Color, Ray),
    >)
        requires
            metal_wf(*self),
            normal_ok(rec.normal),
            in_range(r_in.dir, DIR_MAX as int),
            !near_zero_s(r_in.dir),
        ensures
            res == metal_scatter_s(*self, *r_in, *rec, old(rng).state).0,
            final(rng).state == metal_scatter_s(*self, *r_in, *rec, old(rng).state).1,
            scatter_ok(res, *rec),
    {
        let unit_in = unit_vector(r_in.direction());
        let reflected = Vec3::reflect(&unit_in, &rec.normal);
        let ball = Vec3::random_in_unit_sphere(rng);
        proof {
            lemma_fmul_cap(ball.x as int, self.fuzz as int, SCALE as int, SCALE as int);
            lemma_fmul_cap(ball.y as int, self.fuzz as int, SCALE as int, SCALE as int);
            lemma_fmul_cap(ball.z as int, self.fuzz as int, SCALE as int, SCALE as int);
        }
        let dir = reflected.add(ball.scale(self.fuzz));
        let scattered = Ray::new(rec.p, dir);
        let attenuation = self.albedo;
        if dot(&scattered.direction(), &rec.normal) > 0 && !dir.near_zero() {
            Some((attenuation, scattered))
        } else {
            None
        }
    }
}

impl Dielectric {
    pub fn new(index_of_refraction: i64) -> (r: Dielectric)
        requires
            IR_MIN <= index_of_refraction <= IR_MAX,
        ensures
            r.ir == index_of_refraction,
            dielectric_wf(r),
    {
        Dielectric { ir: index_of_refraction }
    }

    /// Schlick's approximation of the Fresnel reflectance.
    pub fn reflectance(cosine: i64, ref_idx: i64) -> (r: i64)
        requires
            absi(cosine as int) <= 0x20_0000,
            IR_MIN <= ref_idx <= IR_MAX,
        ensures
            r as int == reflectance_s(cosine as int, ref_idx as int),
    {
        proof {
            let num = SCALE - ref_idx as int;
            let den = SCALE + ref_idx as int;
            crate::fixed::lemma_abs_mul(num, SCALE as int, absi(num), SCALE as int);
            lemma_tdiv(num * SCALE, den);
            assert(absi(num) * SCALE < den * SCALE) by (nonlinear_arith)
                requires
                    absi(num) < den,
                    SCALE == 65536,
            ;
            vstd::arithmetic::div_mod::lemma_multiply_divide_lt(absi(num * SCALE), den, SCALE as int);
        }
        let r0l = fdiv(SCALE - ref_idx, SCALE + ref_idx);
        proof {
            lemma_fmul_cap(r0l as int, r0l as int, 65535, 65535);
        }
        let r0 = fmul(r0l, r0l);
        proof {
            assert(0 <= fmul_s(r0l as int, r0l as int)) by {
                assert(0 <= r0l as int * r0l as int) by (nonlinear_arith);
                lemma_tdiv(r0l as int * r0l as int, SCALE as int);
                lemma_div_is_ordered(0, r0l as int * r0l as int, 65536);
            }
        }
        let x = SCALE - cosine;
        proof {
            lemma_fmul_cap(x as int, x as int, 2200000, 2200000);
        }
        let p2 = fmul(x, x);
        proof {
            lemma_fmul_cap(p2 as int, p2 as int, 74000000, 74000000);
        }
        let p4 = fmul(p2, p2);
        proof {
            lemma_fmul_cap(p4 as int, x as int, 84000000000, 2200000);
        }
        let p5 = fmul(p4, x);
        proof {
            lemma_fmul_cap(SCALE as int - r0 as int, p5 as int, 65536, 2900000000000);
        }
        r0 + fmul(SCALE - r0, p5)
    }

    /// Refract or, when Snell's law admits no solution or the Schlick
    /// draw wins, reflect; glass absorbs nothing.
    pub fn scatter(&self, r_in: &Ray, rec: &HitRecord, rng: &mut Rng) -> (res: Option<
        (Color, Ray),
    >)
        requires
            dielectric_wf(*self),
            normal_ok(rec.normal),
            in_range(r_in.dir, DIR_MAX as int),
            !near_zero_s(r_in.dir),
        ensures
            res == dielectric_scatter_s(*self, *r_in, *rec, old(rng).state).0,
            final(rng).state == dielectric_scatter_s(*self, *r_in, *rec, old(rng).state).1,
            res is Some,
            scatter_ok(res, *rec),
    {
        proof {
            lemma_normal_ok_not_near_zero(rec.normal);
        }
        let attenuation = Vec3::new(SCALE, SCALE, SCALE);
        let refraction_ratio = if rec.front_face {
            proof {
                lemma_tdiv(SCALE as int * SCALE as int, self.ir as int);
                lemma_div_is_ordered(SCALE as int * SCALE as int, IR_MAX as int * self.ir as int, self.ir as int);
                lemma_div_multiples_vanish(IR_MAX as int, self.ir as int);
                lemma_div_is_ordered(IR_MIN as int * self.ir as int, SCALE as int * SCALE as int, self.ir as int);
                lemma_div_multiples_vanish(IR_MIN as int, self.ir as int);
                assert(SCALE as int * SCALE as int <= IR_MAX as int * self.ir as int
                    && IR_MIN as int * self.ir as int <= SCALE as int * SCALE as int)
                    by (nonlinear_arith)
                    requires
                        16384 <= self.ir as int <= 262144,
                ;
            }
            fdiv(SCALE, self.ir)
        } else {
            self.ir
        };
        let unit_direction = unit_vector(r_in.direction());
        proof {
            lemma_dot_bound(negv_s(unitv_s(r_in.dir)), rec.normal, UNIT_MAX as int, UNIT_MAX as int);
        }
        let mcos = dot(&unit_direction.neg(), &rec.normal);
        let cos_theta = if mcos < SCALE {
            mcos
        } else {
            SCALE
        };
        proof {
            lemma_fmul_cap(cos_theta as int, cos_theta as int, 786432, 786432);
        }
        let cc = fmul(cos_theta, cos_theta);
        let ksin = absi64(SCALE - cc);
        let sin_theta = fsqrt(ksin);
        proof {
            lemma_sqrt_floor_bounds(ksin as int * 65536);
            assert(sin_theta as int <= 800000) by (nonlinear_arith)
                requires
                    0 <= sin_theta as int,
                    sin_theta as int * sin_theta as int <= ksin as int * 65536,
                    ksin as int <= 9502720,
            ;
            lemma_fmul_cap(refraction_ratio as int, sin_theta as int, 262144, 800000);
        }
        let cannot_refract = fmul(refraction_ratio, sin_theta) > SCALE;
        let refl = Dielectric::reflectance(cos_theta, refraction_ratio);
        let rand_draw = rng.gen_range(0, SCALE);
        let dir0 = if cannot_refract || refl > rand_draw {
            Vec3::reflect(&unit_direction, &rec.normal)
        } else {
            Vec3::refract(&unit_direction, &rec.normal, refraction_ratio)
        };
        let dir = if dir0.near_zero() {
            rec.normal
        } else {
            dir0
        };
        let scattered = Ray::new(rec.p, dir);
        Some((attenuation, scattered))
    }
}

impl Material {
    pub open spec fn wf(self) -> bool {
        material_wf(self)
    }

    /// Dispatch to the variant's scattering rule.
    pub fn scatter(&self, r_in: &Ray, rec: &HitRecord, rng: &mut Rng) -> (res: Option<
        (Color, Ray),
    >)
        requires
            material_wf(*self),
            normal_ok(rec.normal),
            in_range(r_in.dir, DIR_MAX as int),
            !near_zero_s(r_in.dir),
        ensures
            res == material_scatter_s(*self, *r_in, *rec, old(rng).state).0,
            final(rng).state == material_scatter_s(*self, *r_in, *rec, old(rng).state).1,
            scatter_ok(res, *rec),
    {
        match self {
            Material::Lambertian(l) => l.scatter(r_in, rec, rng),
            Material::Metal(m) => m.scatter(r_in, rec, rng),
            Material::Dielectric(d) => d.scatter(r_in, rec, rng),
        }
    }
}

} // verus!
