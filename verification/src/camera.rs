//! The camera: normalized image coordinates to world rays.
//!
//! Configured once from look-from/look-at orientation, the tangent of
//! half the vertical field of view, aspect ratio, aperture and focus
//! distance; each `get_ray` perturbs the origin by a lens-disk sample
//! (depth of field) and aims at the viewport point for `(s, t)`. Camera
//! rays leave normalized, so every traced ray has a unit-scale direction.

use crate::fixed::{absi, fmul, fmul_s};
use crate::limits::CEN_MAX;
use crate::rng::Rng;
use crate::vec3::{
    addv_s, cross, cross_s, in_range, lemma_fmul_cap, near_zero_s, negv_s, ruid_s, scalev_s,
    subv_s, unit_vector, unitv_s, Point3, Vec3, UNIT_MAX,
};
use crate::ray::Ray;
use vstd::prelude::*;

verus! {

/// An immutable camera configuration with its derived viewport frame.
#[derive(Clone, Copy, PartialEq, Eq, Structural, Debug)]
pub struct Camera {
    pub origin: Point3,
    pub lower_left_corner: Point3,
    pub horizontal: Vec3,
    pub vertical: Vec3,
    pub u: Vec3,
    pub v: Vec3,
    pub w: Vec3,
    pub lens_radius: i64,
}

/// The derived camera for the given configuration: an orthonormal-scale
/// basis `(u, v, w)`, viewport vectors scaled by the focus distance, and
/// the viewport's lower-left corner.
pub open spec fn camera_s(
    lookfrom: Point3,
    lookat: Point3,
    vup: Vec3,
    half_tan: int,
    aspect_ratio: int,
    aperture: int,
    focus_dist: int,
) -> Camera {
    let w = unitv_s(subv_s(lookfrom, lookat));
    let u = unitv_s(cross_s(vup, w));
    let v = cross_s(w, u);
    let viewport_height = 2 * half_tan;
    let viewport_width = fmul_s(aspect_ratio, viewport_height);
    let horizontal = scalev_s(u, fmul_s(focus_dist, viewport_width));
    let vertical = scalev_s(v, fmul_s(focus_dist, viewport_height));
    let lower_left_corner = subv_s(
        subv_s(subv_s(lookfrom, scalev_s(horizontal, 32768)), scalev_s(vertical, 32768)),
        scalev_s(w, focus_dist),
    );
    Camera {
        origin: lookfrom,
        lower_left_corner,
        horizontal,
        vertical,
        u,
        v,
        w,
        lens_radius: fmul_s(aperture, 32768) as i64,
    }
}

/// The bounds a constructed camera guarantees, which every `get_ray`
/// relies on.
pub open spec fn camera_wf(c: Camera) -> bool {
    &&& in_range(c.origin, 0x800_0000)
    &&& in_range(c.lower_left_corner, 0x2000_0000)
    &&& in_range(c.horizontal, 0x1000_0000)
    &&& in_range(c.vertical, 0x1000_0000)
    &&& in_range(c.u, UNIT_MAX as int)
    &&& in_range(c.v, 0x8_0000)
    &&& in_range(c.w, UNIT_MAX as int)
    &&& !near_zero_s(c.w)
    &&& 0 <= c.lens_radius <= UNIT_MAX
}

/// The ray for image coordinates `(s, t)` and a lens sample drawn from
/// state `s0`: origin offset by the sample, direction normalized; a
/// degenerate viewport sample falls back to the view axis.
pub open spec fn get_ray_s(c: Camera, s_c: int, t_c: int, s0: u64) -> (Ray, u64) {
    let disk = ruid_s(s0, 64);
    let rd = scalev_s(disk.0, c.lens_radius as int);
    let offset = addv_s(scalev_s(c.u, rd.x as int), scalev_s(c.v, rd.y as int));
    let raw = subv_s(
        subv_s(
            addv_s(addv_s(c.lower_left_corner, scalev_s(c.horizontal, s_c)), scalev_s(c.vertical, t_c)),
            c.origin,
        ),
        offset,
    );
    let dir = if near_zero_s(raw) {
        negv_s(c.w)
    } else {
        unitv_s(raw)
    };
    (Ray { orig: addv_s(c.origin, offset), dir }, disk.1)
}

impl Camera {
    /// Build a camera. `half_tan` is the tangent of half the vertical
    /// field of view as a fixed-point value; the up-vector must not be
    /// parallel to the viewing direction, and look-from must differ from
    /// look-at.
    pub fn new(
        lookfrom: Point3,
        lookat: Point3,
        vup: Vec3,
        half_tan: i64,
        aspect_ratio: i64,
        aperture: i64,
        focus_dist: i64,
    ) -> (r: Camera)
        requires
            in_range(lookfrom, CEN_MAX as int),
            in_range(lookat, CEN_MAX as int),
            !near_zero_s(subv_s(lookfrom, lookat)),
            in_range(vup, 0x10_0000),
            !near_zero_s(cross_s(vup, unitv_s(subv_s(lookfrom, lookat)))),
            0 <= half_tan <= 262144,
            16384 <= aspect_ratio <= 262144,
            0 <= aperture <= 262144,
            16384 <= focus_dist <= 0x40_0000,
        ensures
            r == camera_s(
                lookfrom,
                lookat,
                vup,
                half_tan as int,
                aspect_ratio as int,
                aperture as int,
                focus_dist as int,
            ),
            camera_wf(r),
    {
        let w = unit_vector(lookfrom.sub(lookat));
        let cu = cross(&vup, &w);
        proof {
            crate::vec3::lemma_cross_bound(vup, w, 0x10_0000, UNIT_MAX as int);
        }
        let u = unit_vector(cu);
        let v = cross(&w, &u);
        proof {
            crate::vec3::lemma_cross_bound(w, u, UNIT_MAX as int, UNIT_MAX as int);
        }
        let viewport_height = 2 * half_tan;
        proof {
            lemma_fmul_cap(aspect_ratio as int, viewport_height as int, 262144, 524288);
        }
        let viewport_width = fmul(aspect_ratio, viewport_height);
        proof {
            lemma_fmul_cap(focus_dist as int, viewport_width as int, 0x40_0000, 2097152);
            lemma_fmul_cap(focus_dist as int, viewport_height as int, 0x40_0000, 524288);
        }
        let hscale = fmul(focus_dist, viewport_width);
        let vscale = fmul(focus_dist, viewport_height);
        proof {
            lemma_fmul_cap(u.x as int, hscale as int, UNIT_MAX as int, 0x800_0000);
            lemma_fmul_cap(u.y as int, hscale as int, UNIT_MAX as int, 0x800_0000);
            lemma_fmul_cap(u.z as int, hscale as int, UNIT_MAX as int, 0x800_0000);
            lemma_fmul_cap(v.x as int, vscale as int, 0x8_0000, 0x200_0000);
            lemma_fmul_cap(v.y as int, vscale as int, 0x8_0000, 0x200_0000);
            lemma_fmul_cap(v.z as int, vscale as int, 0x8_0000, 0x200_0000);
        }
        let horizontal = u.scale(hscale);
        let vertical = v.scale(vscale);
        proof {
            lemma_fmul_cap(horizontal.x as int, 32768, 0x1000_0000, 32768);
            lemma_fmul_cap(horizontal.y as int, 32768, 0x1000_0000, 32768);
            lemma_fmul_cap(horizontal.z as int, 32768, 0x1000_0000, 32768);
            lemma_fmul_cap(vertical.x as int, 32768, 0x1000_0000, 32768);
            lemma_fmul_cap(vertical.y as int, 32768, 0x1000_0000, 32768);
            lemma_fmul_cap(vertical.z as int, 32768, 0x1000_0000, 32768);
            lemma_fmul_cap(w.x as int, focus_dist as int, UNIT_MAX as int, 0x40_0000);
            lemma_fmul_cap(w.y as int, focus_dist as int, UNIT_MAX as int, 0x40_0000);
            lemma_fmul_cap(w.z as int, focus_dist as int, UNIT_MAX as int, 0x40_0000);
            lemma_fmul_cap(aperture as int, 32768, 262144, 32768);
        }
        let lower_left_corner = lookfrom.sub(horizontal.scale(32768)).sub(vertical.scale(32768)).sub(
            w.scale(focus_dist),
        );
        Camera {
            origin: lookfrom,
            lower_left_corner,
            horizontal,
            vertical,
            u,
            v,
            w,
            lens_radius: fmul(aperture, 32768),
        }
    }

    /// The world ray for normalized image coordinates `(s, t)`, with a
    /// random lens-aperture sample for depth of field.
    pub fn get_ray(&self, s_c: i64, t_c: i64, rng: &mut Rng) -> (r: Ray)
        requires
            camera_wf(*self),
            absi(s_c as int) <= 0x4_0000,
            absi(t_c as int) <= 0x4_0000,
        ensures
            r == get_ray_s(*self, s_c as int, t_c as int, old(rng).state).0,
            final(rng).state == get_ray_s(*self, s_c as int, t_c as int, old(rng).state).1,
            in_range(r.dir, UNIT_MAX as int),
            !near_zero_s(r.dir),
            in_range(r.orig, 0x1000_0000),
    {
        let disk = Vec3::random_in_unit_disk(rng);
        proof {
            lemma_fmul_cap(disk.x as int, self.lens_radius as int, 65536, UNIT_MAX as int);
            lemma_fmul_cap(disk.y as int, self.lens_radius as int, 65536, UNIT_MAX as int);
            lemma_fmul_cap(disk.z as int, self.lens_radius as int, 65536, UNIT_MAX as int);
        }
        let rd = disk.scale(self.lens_radius);
        proof {
            lemma_fmul_cap(self.u.x as int, rd.x as int, UNIT_MAX as int, UNIT_MAX as int);
            lemma_fmul_cap(self.u.y as int, rd.x as int, UNIT_MAX as int, UNIT_MAX as int);
            lemma_fmul_cap(self.u.z as int, rd.x as int, UNIT_MAX as int, UNIT_MAX as int);
            lemma_fmul_cap(self.v.x as int, rd.y as int, 0x8_0000, UNIT_MAX as int);
            lemma_fmul_cap(self.v.y as int, rd.y as int, 0x8_0000, UNIT_MAX as int);
            lemma_fmul_cap(self.v.z as int, rd.y as int, 0x8_0000, UNIT_MAX as int);
            lemma_fmul_cap(self.horizontal.x as int, s_c as int, 0x1000_0000, 0x4_0000);
            lemma_fmul_cap(self.horizontal.y as int, s_c as int, 0x1000_0000, 0x4_0000);
            lemma_fmul_cap(self.horizontal.z as int, s_c as int, 0x1000_0000, 0x4_0000);
            lemma_fmul_cap(self.vertical.x as int, t_c as int, 0x1000_0000, 0x4_0000);
            lemma_fmul_cap(self.vertical.y as int, t_c as int, 0x1000_0000, 0x4_0000);
            lemma_fmul_cap(self.vertical.z as int, t_c as int, 0x1000_0000, 0x4_0000);
        }
        let offset = self.u.scale(rd.x).add(self.v.scale(rd.y));
        let raw = self.lower_left_corner.add(self.horizontal.scale(s_c)).add(
            self.vertical.scale(t_c),
        ).sub(self.origin).sub(offset);
        let dir = if raw.near_zero() {
            proof {
                let nw = negv_s(self.w);
                assert(absi(nw.x as int) == absi(self.w.x as int) && absi(nw.y as int) == absi(
                    self.w.y as int,
                ) && absi(nw.z as int) == absi(self.w.z as int));
            }
            self.w.neg()
        } else {
            unit_vector(raw)
        };
        Ray { orig: self.origin.add(offset), dir }
    }
}

} // verus!
