//! Intersection, materials and the camera.

use raytrace::camera::Camera;
use raytrace::fixed::SCALE;
use raytrace::hittable::{HitRecord, HittableList, SceneError};
use raytrace::limits::{T_EPS, T_MAX};
use raytrace::material::{Dielectric, Lambertian, Material, Metal};
use raytrace::ray::Ray;
use raytrace::rng::Rng;
use raytrace::sphere::Sphere;
use raytrace::vec3::{dot, unit_vector, Vec3};

fn one_sphere_world(center: Vec3, radius: i64, mat: Material) -> HittableList {
    let mut world = HittableList::new();
    let idx = world.add_material(mat);
    world.add(Sphere::new(center, radius, idx).unwrap());
    world
}

fn grey() -> Material {
    Material::Lambertian(Lambertian::new(Vec3::new(32768, 32768, 32768)))
}

// A unit sphere of radius 0.5 at (0, 0, -1), seen from the origin down
// -z, is hit at t = 0.5 (half a unit from the camera).
#[test]
fn center_hit_test() {
    let world = one_sphere_world(Vec3::new(0, 0, -SCALE), SCALE / 2, grey());
    let r = Ray::new(Vec3::new(0, 0, 0), Vec3::new(0, 0, -SCALE));
    let rec = world.hit(&r, T_EPS, T_MAX).unwrap();
    assert_eq!(rec.t, SCALE / 2);
    assert!(rec.front_face);
    assert_eq!(rec.normal, Vec3::new(0, 0, SCALE));
    assert_eq!(rec.p, Vec3::new(0, 0, -SCALE / 2));
}

// The same scenario driven through the camera: the ray through the image
// center must hit the sphere at t = 0.5.
#[test]
fn camera_center_hit_test() {
    let cam = Camera::new(
        Vec3::new(0, 0, 0),
        Vec3::new(0, 0, -SCALE),
        Vec3::new(0, SCALE, 0),
        SCALE,  // 90 degree field of view
        SCALE,  // square aspect
        0,      // no aperture
        SCALE,  // focus at one unit
    );
    let mut rng = Rng::new(3);
    let r = cam.get_ray(SCALE / 2, SCALE / 2, &mut rng);
    assert_eq!(r.origin(), Vec3::new(0, 0, 0));
    assert_eq!(r.direction(), Vec3::new(0, 0, -SCALE));
    let world = one_sphere_world(Vec3::new(0, 0, -SCALE), SCALE / 2, grey());
    let rec = world.hit(&r, T_EPS, T_MAX).unwrap();
    assert_eq!(rec.t, SCALE / 2);
}

// A ray that misses (negative discriminant) reports no intersection.
#[test]
fn miss_test() {
    let world = one_sphere_world(Vec3::new(0, 0, -SCALE), SCALE / 2, grey());
    let r = Ray::new(Vec3::new(0, 0, 0), Vec3::new(0, SCALE, 0));
    assert!(world.hit(&r, T_EPS, T_MAX).is_none());
}

// Of the two roots, the nearer one is returned.
#[test]
fn nearest_root_test() {
    let world = one_sphere_world(Vec3::new(0, 0, -2 * SCALE), SCALE / 2, grey());
    let r = Ray::new(Vec3::new(0, 0, 0), Vec3::new(0, 0, -SCALE));
    let rec = world.hit(&r, T_EPS, T_MAX).unwrap();
    // Near surface at 1.5 units, far surface at 2.5.
    assert_eq!(rec.t, 98304);
}

// The stored normal always opposes the incoming ray, from either side.
#[test]
fn front_face_pairing_test() {
    let world = one_sphere_world(Vec3::new(0, 0, -2 * SCALE), SCALE / 2, grey());
    // From outside.
    let r1 = Ray::new(Vec3::new(0, 0, 0), Vec3::new(0, 0, -SCALE));
    let rec1 = world.hit(&r1, T_EPS, T_MAX).unwrap();
    assert!(rec1.front_face);
    assert!(dot(&r1.direction(), &rec1.normal) <= 0);
    // From inside the sphere.
    let r2 = Ray::new(Vec3::new(0, 0, -2 * SCALE), Vec3::new(0, 0, -SCALE));
    let rec2 = world.hit(&r2, T_EPS, T_MAX).unwrap();
    assert!(!rec2.front_face);
    assert!(dot(&r2.direction(), &rec2.normal) <= 0);
}

// Scanning narrows the interval: with two spheres in line, the closer
// one wins regardless of insertion order.
#[test]
fn closest_of_two_test() {
    let mut world = HittableList::new();
    let idx = world.add_material(grey());
    world.add(Sphere::new(Vec3::new(0, 0, -4 * SCALE), SCALE / 2, idx).unwrap());
    world.add(Sphere::new(Vec3::new(0, 0, -2 * SCALE), SCALE / 2, idx).unwrap());
    let r = Ray::new(Vec3::new(0, 0, 0), Vec3::new(0, 0, -SCALE));
    let rec = world.hit(&r, T_EPS, T_MAX).unwrap();
    assert_eq!(rec.t, 98304);
}

// Construction-time rejection of degenerate spheres.
#[test]
fn sphere_invalid_configuration_test() {
    assert_eq!(
        Sphere::new(Vec3::new(0, 0, 0), 0, 0).unwrap_err(),
        SceneError::InvalidConfiguration
    );
    assert_eq!(
        Sphere::new(Vec3::new(0, 0, 0), -SCALE, 0).unwrap_err(),
        SceneError::InvalidConfiguration
    );
    assert_eq!(
        Sphere::new(Vec3::new(0x800_0000, 0, 0), SCALE, 0).unwrap_err(),
        SceneError::InvalidConfiguration
    );
    assert!(Sphere::new(Vec3::new(0, 0, 0), SCALE, 0).is_ok());
}

fn inside_record() -> HitRecord {
    HitRecord {
        p: Vec3::new(0, 0, 0),
        normal: Vec3::new(0, SCALE, 0),
        t: 2 * SCALE,
        front_face: false,
        material: 0,
    }
}

// Total internal reflection: at an angle past critical, the dielectric
// reflects whatever the generator holds; two different generator states
// scatter identically, and the direction is the mirror reflection.
#[test]
fn total_internal_reflection_test() {
    let d = Dielectric::new(98304);  // index 1.5
    let dir = Vec3::new(SCALE, -SCALE / 2, 0);
    let r_in = Ray::new(Vec3::new(0, 0, 0), dir);
    let rec = inside_record();
    let expected = Vec3::reflect(&unit_vector(dir), &rec.normal);

    let mut rng1 = Rng::new(1);
    let (att1, sc1) = d.scatter(&r_in, &rec, &mut rng1).unwrap();
    let mut rng2 = Rng::new(987654321);
    let (att2, sc2) = d.scatter(&r_in, &rec, &mut rng2).unwrap();

    assert_eq!(sc1.direction(), expected);
    assert_eq!(sc2.direction(), expected);
    assert_eq!(att1, Vec3::new(SCALE, SCALE, SCALE));
    assert_eq!(att2, Vec3::new(SCALE, SCALE, SCALE));
}

// Away from the critical angle the stochastic branch can refract: a
// straight-on ray passes through glass unbent, with white attenuation.
#[test]
fn dielectric_refracts_straight_on_test() {
    let d = Dielectric::new(98304);
    let r_in = Ray::new(Vec3::new(0, 0, SCALE), Vec3::new(0, 0, -SCALE));
    let rec = HitRecord {
        p: Vec3::new(0, 0, 0),
        normal: Vec3::new(0, 0, SCALE),
        t: SCALE,
        front_face: true,
        material: 0,
    };
    // With this seed the Schlick draw loses (the chance to reflect at
    // normal incidence is about four percent), so the ray refracts.
    let mut rng = Rng::new(5);
    let (att, sc) = d.scatter(&r_in, &rec, &mut rng).unwrap();
    assert_eq!(att, Vec3::new(SCALE, SCALE, SCALE));
    assert_eq!(sc.direction(), Vec3::new(0, 0, -SCALE));
}

// A diffuse surface always scatters, with its albedo as attenuation and
// the hit point as the new origin.
#[test]
fn lambertian_scatter_test() {
    let l = Lambertian::new(Vec3::new(32768, 16384, 8192));
    let rec = HitRecord {
        p: Vec3::new(SCALE, 0, 0),
        normal: Vec3::new(0, SCALE, 0),
        t: SCALE,
        front_face: true,
        material: 0,
    };
    let r_in = Ray::new(Vec3::new(0, 0, 0), Vec3::new(0, -SCALE, 0));
    let mut rng = Rng::new(5);
    let (att, sc) = l.scatter(&r_in, &rec, &mut rng).unwrap();
    assert_eq!(att, Vec3::new(32768, 16384, 8192));
    assert_eq!(sc.origin(), Vec3::new(SCALE, 0, 0));
    assert!(!sc.direction().near_zero());
}

// A ray reflected under the surface is absorbed by metal.
#[test]
fn metal_absorb_test() {
    let m = Metal::new(Vec3::new(SCALE, 32768, 16384), 0);
    let rec = HitRecord {
        p: Vec3::new(0, 0, 0),
        normal: Vec3::new(0, SCALE, 0),
        t: SCALE,
        front_face: true,
        material: 0,
    };
    // Moving along the normal: the mirror image points under the surface.
    let r_in = Ray::new(Vec3::new(0, -SCALE, 0), Vec3::new(0, SCALE, 0));
    let mut rng = Rng::new(5);
    assert!(m.scatter(&r_in, &rec, &mut rng).is_none());
}

// Refraction at an index ratio of one passes straight through.
#[test]
fn refract_straight_through_test() {
    let uv = Vec3::new(0, -SCALE, 0);
    let n = Vec3::new(0, SCALE, 0);
    assert_eq!(Vec3::refract(&uv, &n, SCALE), Vec3::new(0, -SCALE, 0));
}

// A hemisphere sample never points under the reference normal.
#[test]
fn random_in_hemisphere_test() {
    let mut rng = Rng::new(17);
    let n = Vec3::new(0, SCALE, 0);
    for _ in 0..50 {
        let p = Vec3::random_in_hemishpere(&mut rng, &n);
        assert!(dot(&p, &n) >= 0);
        assert!(p.length_squared() < SCALE);
    }
}

// The default scene container is empty.
#[test]
fn default_list_empty_test() {
    let world = HittableList::default();
    assert_eq!(world.objects.len(), 0);
    assert_eq!(world.materials.len(), 0);
}

// Fuzz above one is silently clamped to one.
#[test]
fn metal_fuzz_clamp_test() {
    let m = Metal::new(Vec3::new(SCALE, SCALE, SCALE), 3 * SCALE);
    assert_eq!(m.fuzz, SCALE);
    let m2 = Metal::new(Vec3::new(SCALE, SCALE, SCALE), 100);
    assert_eq!(m2.fuzz, 100);
}
