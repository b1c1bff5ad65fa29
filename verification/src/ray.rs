//! A half-line: origin plus scaled direction.

use crate::fixed::absi;
use crate::limits::{DIR_MAX, POS_MAX, T_MAX};
use crate::vec3::{addv_s, in_range, lemma_fmul_cap, scalev_s, Point3, Vec3};
use vstd::prelude::*;

verus! {

#[derive(Clone, Copy, PartialEq, Eq, Structural, Debug)]
pub struct Ray {
    pub orig: Point3,
    pub dir: Vec3,
}

/// The point the ray reaches at parameter `t`.
pub open spec fn at_s(r: Ray, t: int) -> Point3 {
    addv_s(r.orig, scalev_s(r.dir, t))
}

/// The geometric preconditions every traced ray meets: a bounded origin,
/// a bounded and non-degenerate direction.
pub open spec fn ray_within(r: Ray, origin_bound: int) -> bool {
    in_range(r.orig, origin_bound) && in_range(r.dir, DIR_MAX as int) && !crate::vec3::near_zero_s(
        r.dir,
    )
}

impl Ray {
    pub fn new(origin: Point3, direction: Vec3) -> (r: Ray)
        ensures
            r == (Ray { orig: origin, dir: direction }),
    {
        Ray { orig: origin, dir: direction }
    }

    pub fn origin(&self) -> (r: Point3)
        ensures
            r == self.orig,
    {
        self.orig
    }

    pub fn direction(&self) -> (r: Vec3)
        ensures
            r == self.dir,
    {
        self.dir
    }

    /// The point at parameter `t`, exact up to one truncation per component.
    pub fn at(&self, t: i64) -> (r: Point3)
        requires
            in_range(self.orig, POS_MAX as int),
            in_range(self.dir, DIR_MAX as int),
            absi(t as int) <= T_MAX as int,
        ensures
            r == at_s(*self, t as int),
            absi(r.x - self.orig.x) <= 0x40_0000_0000,
            absi(r.y - self.orig.y) <= 0x40_0000_0000,
            absi(r.z - self.orig.z) <= 0x40_0000_0000,
    {
        proof {
            lemma_fmul_cap(self.dir.x as int, t as int, DIR_MAX as int, T_MAX as int);
            lemma_fmul_cap(self.dir.y as int, t as int, DIR_MAX as int, T_MAX as int);
            lemma_fmul_cap(self.dir.z as int, t as int, DIR_MAX as int, T_MAX as int);
        }
        self.orig.add(self.dir.scale(t))
    }
}

} // verus!
