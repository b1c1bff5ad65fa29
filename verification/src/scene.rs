//! The demonstration scene: a ground sphere, a grid of small randomly
//! placed and randomly surfaced spheres, and three large feature spheres.

use crate::fixed::{lemma_fmul_unit, SCALE};
use crate::hittable::HittableList;
use crate::material::{Dielectric, Lambertian, Material, Metal};
use crate::rng::Rng;
use crate::sphere::Sphere;
use crate::vec3::{vec3_s, Vec3};
use vstd::prelude::*;

verus! {

/// Radius of the small grid spheres (0.2 of a unit).
pub const SMALL_RADIUS: i64 = 13107;

/// Ground sphere: a huge grey diffuse ball far below the origin.
pub open spec fn ground_sphere_s() -> Sphere {
    Sphere { center: vec3_s(0, -65536000, 0), radius: 65536000, material: 0 }
}

pub open spec fn ground_material_s() -> Material {
    Material::Lambertian(Lambertian { albedo: vec3_s(32768, 32768, 32768) })
}

/// The three large feature spheres, in insertion order: glass, diffuse,
/// polished metal.
pub open spec fn big_glass_s(mat: int) -> Sphere {
    Sphere { center: vec3_s(0, SCALE as int, 0), radius: SCALE, material: mat as usize }
}

pub open spec fn big_diffuse_s(mat: int) -> Sphere {
    Sphere { center: vec3_s(-262144, SCALE as int, 0), radius: SCALE, material: mat as usize }
}

pub open spec fn big_metal_s(mat: int) -> Sphere {
    Sphere { center: vec3_s(262144, SCALE as int, 0), radius: SCALE, material: mat as usize }
}

/// Build the demonstration scene from the given generator. The first
/// sphere is always the ground; the last three are always glass, diffuse
/// and metal feature spheres; in between stand up to `22 * 22` small
/// spheres of radius `SMALL_RADIUS` resting on the ground plane, each
/// with a randomly chosen diffuse, metal or glass surface.
pub fn random_scene(rng: &mut Rng) -> (world: HittableList)
    ensures
        world.wf(),
        4 <= world.objects@.len() <= 488,
        world.objects@[0] == ground_sphere_s(),
        world.materials@[0] == ground_material_s(),
        ({
            let n = world.objects@.len() as int;
            &&& world.objects@[n - 3] == big_glass_s(world.objects@[n - 3].material as int)
            &&& world.materials@[world.objects@[n - 3].material as int] == Material::Dielectric(
                Dielectric { ir: 98304 },
            )
            &&& world.objects@[n - 2] == big_diffuse_s(world.objects@[n - 2].material as int)
            &&& world.materials@[world.objects@[n - 2].material as int] == Material::Lambertian(
                Lambertian { albedo: vec3_s(26214, 13107, 6554) },
            )
            &&& world.objects@[n - 1] == big_metal_s(world.objects@[n - 1].material as int)
            &&& world.materials@[world.objects@[n - 1].material as int] == Material::Metal(
                Metal { albedo: vec3_s(45875, 39322, 32768), fuzz: 0 },
            )
            &&& (forall|k: int|
                1 <= k < n - 3 ==> (#[trigger] world.objects@[k]).radius == SMALL_RADIUS
                    && world.objects@[k].center.y == SMALL_RADIUS)
        }),
{
    let mut world = HittableList::default();
    let ground_material = world.add_material(
        Material::Lambertian(Lambertian::new(Vec3::new(32768, 32768, 32768))),
    );
    world.add(Sphere::new(Vec3::new(0, -65536000, 0), 65536000, ground_material).unwrap());

    let mut a: i64 = -11;
    while a < 11
        invariant
            world.wf(),
            -11 <= a <= 11,
            1 <= world.objects@.len() <= 1 + (a + 11) * 22,
            1 <= world.materials@.len() <= 1 + (a + 11) * 22,
            world.objects@[0] == ground_sphere_s(),
            world.materials@[0] == ground_material_s(),
            forall|k: int|
                1 <= k < world.objects@.len() ==> (#[trigger] world.objects@[k]).radius
                    == SMALL_RADIUS && world.objects@[k].center.y == SMALL_RADIUS,
        decreases 11 - a,
    {
        let mut b: i64 = -11;
        while b < 11
            invariant
                world.wf(),
                -11 <= a < 11,
                -11 <= b <= 11,
                1 <= world.objects@.len() <= 1 + (a + 11) * 22 + (b + 11),
                1 <= world.materials@.len() <= 1 + (a + 11) * 22 + (b + 11),
                world.objects@[0] == ground_sphere_s(),
                world.materials@[0] == ground_material_s(),
                forall|k: int|
                    1 <= k < world.objects@.len() ==> (#[trigger] world.objects@[k]).radius
                        == SMALL_RADIUS && world.objects@[k].center.y == SMALL_RADIUS,
            decreases 11 - b,
        {
            let choose_mat = rng.gen_range(0, SCALE);
            let jx = rng.gen_range(0, SCALE);
            let jz = rng.gen_range(0, SCALE);
            proof {
                lemma_fmul_unit(58982, jx as int);
                lemma_fmul_unit(58982, jz as int);
                crate::fixed::lemma_tdiv_bound(58982 * jx as int, SCALE as int, 58982int * 65536);
                crate::fixed::lemma_tdiv_bound(58982 * jz as int, SCALE as int, 58982int * 65536);
            }
            let center = Vec3::new(
                a * SCALE + crate::fixed::fmul(58982, jx),
                SMALL_RADIUS,
                b * SCALE + crate::fixed::fmul(58982, jz),
            );
            let anchor = Vec3::new(4 * SCALE, SMALL_RADIUS, 0);
            if center.sub(anchor).length() > 58982 {
                let mat: Material;
                if choose_mat < 52429 {
                    // Diffuse, with a squared random albedo.
                    let c1 = Vec3::random_0_1(rng);
                    let c2 = Vec3::random_0_1(rng);
                    proof {
                        lemma_fmul_unit(c1.x as int, c2.x as int);
                        lemma_fmul_unit(c1.y as int, c2.y as int);
                        lemma_fmul_unit(c1.z as int, c2.z as int);
                    }
                    let albedo = c1.mul(c2);
                    mat = Material::Lambertian(Lambertian::new(albedo));
                } else if choose_mat < 62259 {
                    let albedo = Vec3::random(rng, 32768, SCALE);
                    let fuzz = rng.gen_range(0, 32768);
                    mat = Material::Metal(Metal::new(albedo, fuzz));
                } else {
                    mat = Material::Dielectric(Dielectric::new(98304));
                }
                let idx = world.add_material(mat);
                world.add(Sphere::new(center, SMALL_RADIUS, idx).unwrap());
            }
            b = b + 1;
        }
        a = a + 1;
    }

    let material1 = world.add_material(Material::Dielectric(Dielectric::new(98304)));
    world.add(Sphere::new(Vec3::new(0, SCALE, 0), SCALE, material1).unwrap());

    let material2 = world.add_material(
        Material::Lambertian(Lambertian::new(Vec3::new(26214, 13107, 6554))),
    );
    world.add(Sphere::new(Vec3::new(-262144, SCALE, 0), SCALE, material2).unwrap());

    let material3 = world.add_material(
        Material::Metal(Metal::new(Vec3::new(45875, 39322, 32768), 0)),
    );
    world.add(Sphere::new(Vec3::new(262144, SCALE, 0), SCALE, material3).unwrap());

    world
}

} // verus!
