//! Intersection records and the scene container.
//!
//! A `HitRecord` is the transient result of an intersection query: the
//! hit point, the surface normal (always oriented against the incoming
//! ray), the ray parameter, which side of the surface was struck, and a
//! handle into the scene's material arena.

use crate::fixed::{absi, lemma_tdiv_neg, SCALE};
use crate::limits::{DIR_MAX, POS_MAX, T_MAX};
use crate::material::{material_wf, Material};
use crate::ray::Ray;
use crate::sphere::{sphere_hit_s, sphere_wf, Sphere};
use crate::vec3::{
    dot_raw, dot_s, in_range, lensq_s, near_zero_s, negv_s, Point3, Vec3, OP_MAX, UNIT_MAX,
};
use vstd::arithmetic::div_mod::lemma_div_is_ordered;
use vstd::prelude::*;

verus! {

/// Why a scene element was refused at construction.
#[derive(Clone, Copy, PartialEq, Eq, Structural, Debug)]
pub enum SceneError {
    /// A geometric parameter was non-positive or out of the world bounds.
    InvalidConfiguration,
}

#[derive(Clone, Copy, PartialEq, Eq, Structural, Debug)]
pub struct HitRecord {
    pub p: Point3,
    pub normal: Vec3,
    pub t: i64,
    pub front_face: bool,
    /// Index into the scene's material arena.
    pub material: usize,
}

/// A usable surface normal: bounded components and a squared length
/// within a factor two of one, as the intersection routine guarantees.
pub open spec fn normal_ok(n: Vec3) -> bool {
    in_range(n, UNIT_MAX as int) && 32768 <= lensq_s(n) <= 131072
}

/// The front-face rule: the stored normal is the outward normal when the
/// ray arrives from outside, its negation when it arrives from inside.
pub open spec fn face_normal_s(r: Ray, outward: Vec3) -> (bool, Vec3) {
    let ff = dot_s(r.dir, outward) < 0;
    (ff, if ff {
        outward
    } else {
        negv_s(outward)
    })
}

/// A usable normal is never degenerate.
pub proof fn lemma_normal_ok_not_near_zero(n: Vec3)
    requires
        normal_ok(n),
    ensures
        !near_zero_s(n),
{
    if near_zero_s(n) {
        let raw = dot_raw(n, n);
        assert(0 <= raw && raw < 786432) by (nonlinear_arith)
            requires
                absi(n.x as int) < 512,
                absi(n.y as int) < 512,
                absi(n.z as int) < 512,
                raw == n.x * n.x + n.y * n.y + n.z * n.z,
        ;
        assert(lensq_s(n) == raw / 65536);
        lemma_div_is_ordered(raw, 786431, 65536);
    }
}

/// The stored normal of any record built by the front-face rule opposes
/// the incoming ray.
pub proof fn lemma_face_normal_opposes(r: Ray, outward: Vec3)
    requires
        in_range(r.dir, OP_MAX as int),
        in_range(outward, OP_MAX as int),
    ensures
        dot_s(r.dir, face_normal_s(r, outward).1) <= 0,
{
    let ff = dot_s(r.dir, outward) < 0;
    if !ff {
        let no = negv_s(outward);
        assert(no.x as int == -(outward.x as int));
        assert(r.dir.x * no.x == -(r.dir.x * outward.x) && r.dir.y * no.y == -(r.dir.y
            * outward.y) && r.dir.z * no.z == -(r.dir.z * outward.z)) by (nonlinear_arith)
            requires
                no.x as int == -(outward.x as int),
                no.y as int == -(outward.y as int),
                no.z as int == -(outward.z as int),
        ;
        assert(dot_raw(r.dir, no) == -dot_raw(r.dir, outward));
        lemma_tdiv_neg(dot_raw(r.dir, outward), SCALE as int);
    }
}

impl HitRecord {
    /// An empty record: everything zero, pointing at the first material.
    pub fn new() -> (r: HitRecord)
        ensures
            r == (HitRecord {
                p: Vec3 { x: 0, y: 0, z: 0 },
                normal: Vec3 { x: 0, y: 0, z: 0 },
                t: 0,
                front_face: false,
                material: 0,
            }),
    {
        HitRecord {
            p: Vec3 { x: 0, y: 0, z: 0 },
            normal: Vec3 { x: 0, y: 0, z: 0 },
            t: 0,
            front_face: false,
            material: 0,
        }
    }

    /// Store orientation and normal together, by the front-face rule.
    pub fn set_face_normal(&mut self, r: &Ray, outward_normal: &Vec3)
        requires
            in_range(r.dir, OP_MAX as int),
            in_range(*outward_normal, OP_MAX as int),
        ensures
            final(self).front_face == face_normal_s(*r, *outward_normal).0,
            final(self).normal == face_normal_s(*r, *outward_normal).1,
            final(self).p == old(self).p,
            final(self).t == old(self).t,
            final(self).material == old(self).material,
            dot_s(r.dir, final(self).normal) <= 0,
    {
        proof {
            lemma_face_normal_opposes(*r, *outward_normal);
        }
        let ff = crate::vec3::dot(&r.dir, outward_normal) < 0;
        self.front_face = ff;
        self.normal = if ff {
            *outward_normal
        } else {
            outward_normal.neg()
        };
    }
}

/// A well-formed scene: every sphere is usable and points into the
/// material arena, and every material is usable.
pub open spec fn list_wf(objects: Seq<Sphere>, materials: Seq<Material>) -> bool {
    (forall|i: int|
        0 <= i < objects.len() ==> sphere_wf(#[trigger] objects[i]) && objects[i].material
            < materials.len()) && (forall|i: int|
        0 <= i < materials.len() ==> material_wf(#[trigger] materials[i]))
}

/// The nearest-hit reduction from member `i` on, having already found
/// `best` at parameter `closest`: later members can only win with a
/// parameter no greater than the current closest.
pub open spec fn list_hit_from_s(
    objects: Seq<Sphere>,
    i: int,
    r: Ray,
    t_min: int,
    closest: int,
    best: Option<HitRecord>,
) -> Option<HitRecord>
    decreases objects.len() - i,
{
    if i < 0 || i >= objects.len() {
        best
    } else {
        match sphere_hit_s(objects[i], r, t_min, closest) {
            Some(rec) => list_hit_from_s(objects, i + 1, r, t_min, rec.t as int, Some(rec)),
            None => list_hit_from_s(objects, i + 1, r, t_min, closest, best),
        }
    }
}

/// The nearest intersection over the whole scene.
pub open spec fn list_hit_s(objects: Seq<Sphere>, r: Ray, t_min: int, t_max: int) -> Option<
    HitRecord,
> {
    list_hit_from_s(objects, 0, r, t_min, t_max, None)
}

/// An insertion-ordered collection of spheres with an arena of shared
/// materials; spheres refer to materials by index.
pub struct HittableList {
    pub objects: Vec<Sphere>,
    pub materials: Vec<Material>,
}

impl HittableList {
    pub open spec fn wf(&self) -> bool {
        list_wf(self.objects@, self.materials@)
    }

    /// The empty scene.
    pub fn new() -> (r: HittableList)
        ensures
            r.objects@.len() == 0,
            r.materials@.len() == 0,
            r.wf(),
    {
        HittableList { objects: Vec::new(), materials: Vec::new() }
    }

    /// Register a material and hand back its arena index, so that many
    /// spheres can share one material.
    pub fn add_material(&mut self, m: Material) -> (idx: usize)
        requires
            material_wf(m),
            old(self).wf(),
            old(self).materials@.len() < usize::MAX,
        ensures
            idx == old(self).materials@.len(),
            final(self).materials@ == old(self).materials@.push(m),
            final(self).objects@ == old(self).objects@,
            final(self).wf(),
    {
        let idx = self.materials.len();
        self.materials.push(m);
        proof {
            assert forall|i: int| 0 <= i < self.objects@.len() implies sphere_wf(
                #[trigger] self.objects@[i],
            ) && self.objects@[i].material < self.materials@.len() by {
                assert(sphere_wf(old(self).objects@[i]));
            }
        }
        idx
    }

    /// Append a sphere; it must point at a registered material.
    pub fn add(&mut self, obj: Sphere)
        requires
            old(self).wf(),
            sphere_wf(obj),
            obj.material < old(self).materials@.len(),
        ensures
            final(self).objects@ == old(self).objects@.push(obj),
            final(self).materials@ == old(self).materials@,
            final(self).wf(),
    {
        self.objects.push(obj);
    }

    /// The nearest intersection among all members, scanning each sphere
    /// with the interval narrowed to the closest hit found so far.
    pub fn hit(&self, r: &Ray, t_min: i64, t_max: i64) -> (res: Option<HitRecord>)
        requires
            self.wf(),
            in_range(r.orig, POS_MAX as int),
            in_range(r.dir, DIR_MAX as int),
            !near_zero_s(r.dir),
            0 <= t_min <= t_max <= T_MAX,
        ensures
            res == list_hit_s(self.objects@, *r, t_min as int, t_max as int),
            match res {
                Some(rec) => {
                    &&& t_min <= rec.t <= t_max
                    &&& rec.material < self.materials@.len()
                    &&& normal_ok(rec.normal)
                    &&& dot_s(r.dir, rec.normal) <= 0
                    &&& absi(rec.p.x - r.orig.x) <= 0x40_0000_0000
                    &&& absi(rec.p.y - r.orig.y) <= 0x40_0000_0000
                    &&& absi(rec.p.z - r.orig.z) <= 0x40_0000_0000
                },
                None => true,
            },
    {
        let mut best: Option<HitRecord> = None;
        let mut closest: i64 = t_max;
        let mut i: usize = 0;
        while i < self.objects.len()
            invariant
                self.wf(),
                in_range(r.orig, POS_MAX as int),
                in_range(r.dir, DIR_MAX as int),
                !near_zero_s(r.dir),
                0 <= t_min <= closest <= t_max <= T_MAX,
                0 <= i <= self.objects@.len(),
                list_hit_s(self.objects@, *r, t_min as int, t_max as int) == list_hit_from_s(
                    self.objects@,
                    i as int,
                    *r,
                    t_min as int,
                    closest as int,
                    best,
                ),
                match best {
                    Some(rec) => {
                        &&& t_min <= rec.t <= t_max
                        &&& closest == rec.t
                        &&& rec.material < self.materials@.len()
                        &&& normal_ok(rec.normal)
                        &&& dot_s(r.dir, rec.normal) <= 0
                        &&& absi(rec.p.x - r.orig.x) <= 0x40_0000_0000
                        &&& absi(rec.p.y - r.orig.y) <= 0x40_0000_0000
                        &&& absi(rec.p.z - r.orig.z) <= 0x40_0000_0000
                    },
                    None => closest == t_max,
                },
            decreases self.objects@.len() - i,
        {
            let s = self.objects[i];
            match s.hit(r, t_min, closest) {
                Some(rec) => {
                    closest = rec.t;
                    best = Some(rec);
                },
                None => {},
            }
            i = i + 1;
        }
        best
    }
}

impl Default for HittableList {
    /// The empty scene.
    fn default() -> (r: HittableList)
        ensures
            r.objects@.len() == 0,
            r.materials@.len() == 0,
            r.wf(),
    {
        HittableList::new()
    }
}

} // verus!
