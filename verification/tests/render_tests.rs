//! The estimator, the pixel write path, whole renders, and the scene
//! generator.

use raytrace::camera::Camera;
use raytrace::fixed::SCALE;
use raytrace::hittable::HittableList;
use raytrace::material::{Dielectric, Lambertian, Material, Metal};
use raytrace::ray::Ray;
use raytrace::render::{create_pixel, ray_color, render, render_row, Rgb};
use raytrace::rng::{row_seed, Rng};
use raytrace::scene::random_scene;
use raytrace::sphere::Sphere;
use raytrace::vec3::Vec3;

fn diffuse_sphere_world() -> HittableList {
    let mut world = HittableList::new();
    let idx = world.add_material(Material::Lambertian(Lambertian::new(Vec3::new(
        32768, 32768, 32768,
    ))));
    world.add(Sphere::new(Vec3::new(0, 0, -2 * SCALE), SCALE, idx).unwrap());
    world
}

fn test_camera() -> Camera {
    Camera::new(
        Vec3::new(0, 0, 0),
        Vec3::new(0, 0, -SCALE),
        Vec3::new(0, SCALE, 0),
        SCALE,
        SCALE,
        0,
        2 * SCALE,
    )
}

// Depth zero gathers nothing.
#[test]
fn ray_color_depth_zero_test() {
    let world = diffuse_sphere_world();
    let r = Ray::new(Vec3::new(0, 0, 0), Vec3::new(0, 0, -SCALE));
    let mut rng = Rng::new(1);
    assert_eq!(ray_color(&world, &r, 0, &mut rng), Vec3::new(0, 0, 0));
}

// A ray that escapes upward returns the sky's zenith color exactly.
#[test]
fn ray_color_sky_test() {
    let world = diffuse_sphere_world();
    let up = Ray::new(Vec3::new(0, 0, 0), Vec3::new(0, SCALE, 0));
    let mut rng = Rng::new(1);
    // Straight up: t == 1, so the gradient gives (0.5, 0.7, 1.0).
    assert_eq!(ray_color(&world, &up, 8, &mut rng), Vec3::new(32768, 45875, SCALE));
}

// The estimator is a pure function of scene, ray and generator state.
#[test]
fn ray_color_deterministic_test() {
    let world = diffuse_sphere_world();
    let r = Ray::new(Vec3::new(0, 0, 0), Vec3::new(0, 0, -SCALE));
    let mut rng1 = Rng::new(77);
    let mut rng2 = Rng::new(77);
    let c1 = ray_color(&world, &r, 16, &mut rng1);
    let c2 = ray_color(&world, &r, 16, &mut rng2);
    assert_eq!(c1, c2);
}

// Averaging, gamma correction and quantization of one pixel.
#[test]
fn create_pixel_test() {
    let color_sum = Vec3::new(SCALE, SCALE / 4, 0);
    let px = create_pixel(&color_sum, 1);
    assert_eq!(px, Rgb { r: 255, g: 128, b: 0 });
}

// Averaging divides by the sample count before the gamma step.
#[test]
fn create_pixel_average_test() {
    let color_sum = Vec3::new(4 * SCALE, SCALE, 0);
    let px = create_pixel(&color_sum, 4);
    assert_eq!(px, Rgb { r: 255, g: 128, b: 0 });
}

// Rendering the same scene, camera and seed twice gives the same image.
#[test]
fn render_deterministic_test() {
    let world = diffuse_sphere_world();
    let cam = test_camera();
    let fb1 = render(&world, &cam, 8, 6, 4, 8, 1234);
    let fb2 = render(&world, &cam, 8, 6, 4, 8, 1234);
    assert_eq!(fb1.data, fb2.data);
}

// Parallel-render equivalence: assembling the image row by row, in any
// order, from `render_row` with the per-row seeds reproduces `render`.
#[test]
fn parallel_render_equivalence_test() {
    let world = diffuse_sphere_world();
    let cam = test_camera();
    let (w, h, spp, depth, seed) = (8usize, 6usize, 4usize, 8usize, 99u64);
    let fb = render(&world, &cam, w, h, spp, depth, seed);
    // Assemble the rows in reverse order, as a second "worker schedule".
    let mut assembled: Vec<Vec<Rgb>> = Vec::new();
    for j in (0..h).rev() {
        assembled.push(render_row(&world, &cam, j, w, h, spp, depth, row_seed(seed, j as u64)));
    }
    assembled.reverse();
    let flat: Vec<Rgb> = assembled.into_iter().flatten().collect();
    assert_eq!(fb.data, flat);
    assert_eq!(fb.width, w);
    assert_eq!(fb.height, h);
}

// Framebuffer indexing is row-major.
#[test]
fn framebuffer_get_pixel_test() {
    let world = diffuse_sphere_world();
    let cam = test_camera();
    let fb = render(&world, &cam, 8, 6, 2, 4, 7);
    assert_eq!(fb.get_pixel(3, 2), fb.data[2 * 8 + 3]);
}

fn mean_brightness(data: &[Rgb]) -> f64 {
    let mut sum = 0.0f64;
    for p in data {
        sum += p.r as f64 + p.g as f64 + p.b as f64;
    }
    sum / (3.0 * data.len() as f64)
}

// Monte-Carlo convergence: a diffuse sphere under the sky, rendered with
// growing sample counts, stabilizes; the gap to a high-sample render
// shrinks as samples increase.
#[test]
fn monte_carlo_convergence_test() {
    let world = diffuse_sphere_world();
    let cam = test_camera();
    let m2 = mean_brightness(&render(&world, &cam, 8, 6, 2, 8, 5).data);
    let m16 = mean_brightness(&render(&world, &cam, 8, 6, 16, 8, 5).data);
    let m128 = mean_brightness(&render(&world, &cam, 8, 6, 128, 8, 5).data);
    let m512 = mean_brightness(&render(&world, &cam, 8, 6, 512, 8, 5).data);
    let gap_low = (m2 - m512).abs();
    let gap_mid = (m16 - m512).abs();
    let gap_high = (m128 - m512).abs();
    assert!(gap_high <= gap_low + 1.0);
    assert!(gap_mid <= gap_low + 1.0);
    assert!(gap_high <= 8.0, "high-sample estimate drifted: {}", gap_high);
}

// The demonstration scene: ground first, the three feature spheres last.
#[test]
fn random_scene_shape_test() {
    let mut rng = Rng::new(2024);
    let world = random_scene(&mut rng);
    let n = world.objects.len();
    assert!(4 <= n && n <= 488);
    let ground = world.objects[0];
    assert_eq!(ground.center, Vec3::new(0, -65536000, 0));
    assert_eq!(ground.radius, 65536000);
    assert!(matches!(
        world.materials[ground.material],
        Material::Lambertian(Lambertian { albedo: Vec3 { x: 32768, y: 32768, z: 32768 } })
    ));
    let glass = world.objects[n - 3];
    assert_eq!(glass.center, Vec3::new(0, SCALE, 0));
    assert_eq!(glass.radius, SCALE);
    assert!(matches!(world.materials[glass.material], Material::Dielectric(Dielectric { ir: 98304 })));
    let metal = world.objects[n - 1];
    assert_eq!(metal.center, Vec3::new(262144, SCALE, 0));
    assert!(matches!(world.materials[metal.material], Material::Metal(Metal { fuzz: 0, .. })));
    // Every grid sphere rests on the ground plane with the small radius.
    for k in 1..n - 3 {
        assert_eq!(world.objects[k].radius, 13107);
        assert_eq!(world.objects[k].center.y, 13107);
    }
}

// Rendering the demonstration scene end to end produces a full buffer.
#[test]
fn render_random_scene_test() {
    let mut rng = Rng::new(31);
    let world = random_scene(&mut rng);
    let fb = render(&world, &test_camera(), 8, 6, 2, 8, 31);
    assert_eq!(fb.data.len(), 48);
}
