//! The path-tracing estimator and the tiled renderer.
//!
//! `ray_color` follows a ray through the scene for up to `depth` bounces,
//! multiplying attenuations along the path; a missed ray returns the sky
//! gradient and an exhausted bounce budget returns black. `render_row`
//! traces every pixel of one image row from that row's own seed, and
//! `render` assembles all rows. Because each row's pixels are a pure
//! function of scene, camera and the row seed, any partition of rows
//! among workers yields the same framebuffer; that is stated by
//! `lemma_parallel_render_equivalence` and relied on by parallel drivers.

use crate::camera::{camera_wf, get_ray_s, Camera};
use crate::fixed::{
    clamp, clamp_s, div_i128, fsqrt, fsqrt_s, lemma_fmul_unit, lemma_sqrt_floor_bounds,
    lemma_tdiv, lemma_tdiv_bound, tdiv, SCALE,
};
use crate::hittable::{list_hit_s, HittableList};
use crate::limits::{DEPTH_MAX, DIR_MAX, POS_MAX, STEP, T_EPS, T_MAX};
use crate::material::{material_scatter_s, Material};
use crate::ray::Ray;
use crate::rng::{rng_next_s, rng_range_s, rng_seed_s, row_seed, row_seed_s, Rng};
use crate::sphere::Sphere;
use crate::vec3::{
    addv_s, color_wf, in_range, mulv_s, near_zero_s, scalev_s, unit_vector, unitv_s, vec3_s,
    Color, Vec3,
};
use vstd::arithmetic::div_mod::{
    lemma_div_is_ordered, lemma_div_multiples_vanish, lemma_fundamental_div_mod,
    lemma_mod_division_less_than_divisor, lemma_multiply_divide_le, lemma_multiply_divide_lt,
};
use vstd::prelude::*;

verus! {

/// No gathered light.
pub open spec fn black_s() -> Color {
    vec3_s(0, 0, 0)
}

/// Full radiance on every channel.
pub open spec fn white_s() -> Color {
    vec3_s(SCALE as int, SCALE as int, SCALE as int)
}

/// The sky's zenith tint (0.5, 0.7, 1.0).
pub open spec fn sky_blue_s() -> Color {
    vec3_s(32768, 45875, SCALE as int)
}

/// The background gradient: white at the horizon blending to sky blue
/// upward, by the y of the normalized direction.
pub open spec fn sky_color_s(r: Ray) -> Color {
    let u = unitv_s(r.dir);
    let t = clamp_s(tdiv(u.y + SCALE, 2), 0, SCALE as int);
    addv_s(scalev_s(white_s(), SCALE - t), scalev_s(sky_blue_s(), t))
}

/// The recursive transport estimate: black at an exhausted budget, the
/// sky on a miss, and otherwise the scattered ray's estimate tinted by
/// the surface attenuation (black when the surface absorbs the ray).
pub open spec fn ray_color_s(
    objects: Seq<Sphere>,
    materials: Seq<Material>,
    r: Ray,
    depth: nat,
    s: u64,
) -> (Color, u64)
    decreases depth,
{
    if depth == 0 {
        (black_s(), s)
    } else {
        match list_hit_s(objects, r, T_EPS as int, T_MAX as int) {
            Some(rec) => {
                let sc = material_scatter_s(materials[rec.material as int], r, rec, s);
                match sc.0 {
                    Some(pair) => {
                        let rc = ray_color_s(objects, materials, pair.1, (depth - 1) as nat, sc.1);
                        (mulv_s(pair.0, rc.0), rc.1)
                    },
                    None => (black_s(), sc.1),
                }
            },
            None => (sky_color_s(r), s),
        }
    }
}

/// The origin bound a ray must satisfy to be traced with `depth` bounces
/// left: each accepted bounce moves the origin by at most `STEP`.
pub open spec fn depth_budget(depth: int) -> int {
    POS_MAX - depth * STEP
}

/// One byte channel of a written pixel: average over the samples,
/// gamma-2 correction by square root, clamp to `[0, 0.999]`, scale to 256.
pub open spec fn channel_s(x: int, samples: int) -> int {
    tdiv(256 * clamp_s(fsqrt_s(tdiv(x, samples)), 0, 65470), SCALE as int)
}

/// An RGB byte triple of the framebuffer.
#[derive(Clone, Copy, PartialEq, Eq, Structural, Debug)]
pub struct Rgb {
    pub r: u8,
    pub g: u8,
    pub b: u8,
}

/// The byte pixel an accumulated color and its sample count produce.
pub open spec fn create_pixel_s(c: Color, samples: int) -> Rgb {
    Rgb {
        r: channel_s(c.x as int, samples) as u8,
        g: channel_s(c.y as int, samples) as u8,
        b: channel_s(c.z as int, samples) as u8,
    }
}

/// The color sum of the first `k` stochastic samples of pixel `(i, j)`,
/// with the generator state after them.
pub open spec fn sample_acc_s(
    objects: Seq<Sphere>,
    materials: Seq<Material>,
    cam: Camera,
    i: int,
    j: int,
    w: int,
    h: int,
    depth: nat,
    k: nat,
    s: u64,
) -> (Color, u64)
    decreases k,
{
    if k == 0 {
        (black_s(), s)
    } else {
        let prev = sample_acc_s(objects, materials, cam, i, j, w, h, depth, (k - 1) as nat, s);
        let r1 = rng_range_s(prev.1, 0, SCALE as int);
        let s1 = rng_next_s(prev.1);
        let r2 = rng_range_s(s1, 0, SCALE as int);
        let s2 = rng_next_s(s1);
        let u = tdiv(i * SCALE + r1, w - 1);
        let v = tdiv((h - j) * SCALE + r2, h - 1);
        let ray = get_ray_s(cam, u, v, s2);
        let rc = ray_color_s(objects, materials, ray.0, depth, ray.1);
        (addv_s(prev.0, rc.0), rc.1)
    }
}

/// The first `i` pixels of row `j`, with the state after them.
pub open spec fn row_pix_s(
    objects: Seq<Sphere>,
    materials: Seq<Material>,
    cam: Camera,
    j: int,
    w: int,
    h: int,
    spp: nat,
    depth: nat,
    i: nat,
    s: u64,
) -> (Seq<Rgb>, u64)
    decreases i,
{
    if i == 0 {
        (Seq::empty(), s)
    } else {
        let prev = row_pix_s(objects, materials, cam, j, w, h, spp, depth, (i - 1) as nat, s);
        let acc = sample_acc_s(
            objects,
            materials,
            cam,
            i - 1,
            j,
            w,
            h,
            depth,
            spp,
            prev.1,
        );
        (prev.0.push(create_pixel_s(acc.0, spp as int)), acc.1)
    }
}

/// The pixels of image row `j`, rendered from the seed `seed`.
pub open spec fn render_row_s(
    objects: Seq<Sphere>,
    materials: Seq<Material>,
    cam: Camera,
    j: int,
    w: int,
    h: int,
    spp: nat,
    depth: nat,
    seed: u64,
) -> Seq<Rgb> {
    row_pix_s(objects, materials, cam, j, w, h, spp, depth, w as nat, rng_seed_s(seed)).0
}

/// A width-by-height grid of RGB bytes, row-major with row zero at the
/// top of the image.
pub struct Framebuffer {
    pub width: usize,
    pub height: usize,
    pub data: Vec<Rgb>,
}

impl Framebuffer {
    pub open spec fn wf(&self) -> bool {
        self.data@.len() == self.width * self.height
    }

    /// The pixel at column `x` of row `y`.
    pub fn get_pixel(&self, x: usize, y: usize) -> (r: Rgb)
        requires
            self.wf(),
            x < self.width,
            y < self.height,
        ensures
            r == self.data@[y * self.width + x],
    {
        let n = self.data.len();
        proof {
            assert(y * self.width + x < self.width * self.height) by (nonlinear_arith)
                requires
                    0 <= x < self.width,
                    0 <= y < self.height,
            ;
        }
        self.data[y * self.width + x]
    }
}

/// The recursive Monte-Carlo transport estimator.
pub fn ray_color(world: &HittableList, r: &Ray, depth: usize, rng: &mut Rng) -> (res: Color)
    requires
        world.wf(),
        in_range(r.dir, DIR_MAX as int),
        !near_zero_s(r.dir),
        depth <= DEPTH_MAX,
        in_range(r.orig, depth_budget(depth as int)),
    ensures
        res == ray_color_s(world.objects@, world.materials@, *r, depth as nat, old(rng).state).0,
        final(rng).state == ray_color_s(
            world.objects@,
            world.materials@,
            *r,
            depth as nat,
            old(rng).state,
        ).1,
        color_wf(res),
    decreases depth,
{
    if depth == 0 {
        return Vec3::new(0, 0, 0);
    }
    match world.hit(r, T_EPS, T_MAX) {
        Some(rec) => {
            let m = world.materials[rec.material];
            match m.scatter(r, &rec, rng) {
                Some((attenuation, scattered)) => {
                    let c = ray_color(world, &scattered, depth - 1, rng);
                    proof {
                        lemma_fmul_unit(attenuation.x as int, c.x as int);
                        lemma_fmul_unit(attenuation.y as int, c.y as int);
                        lemma_fmul_unit(attenuation.z as int, c.z as int);
                    }
                    attenuation.mul(c)
                },
                None => Vec3::new(0, 0, 0),
            }
        },
        None => {
            let u = unit_vector(r.direction());
            proof {
                lemma_tdiv_bound(u.y as int + SCALE as int, 2, 0x3_0000);
            }
            let t0 = div_i128((u.y + SCALE) as i128, 2) as i64;
            let t = clamp(t0, 0, SCALE);
            proof {
                lemma_fmul_unit(SCALE as int, SCALE as int - t as int);
                lemma_fmul_unit(32768, t as int);
                lemma_fmul_unit(45875, t as int);
                lemma_fmul_unit(SCALE as int, t as int);
            }
            Vec3::new(SCALE, SCALE, SCALE).scale(SCALE - t).add(
                Vec3::new(32768, 45875, SCALE).scale(t),
            )
        },
    }
}

/// One byte channel from an accumulated channel sum.
fn channel(x: i64, samples: i64) -> (r: u8)
    requires
        1 <= samples <= 0x1_0000_0000,
        0 <= x <= samples * SCALE,
    ensures
        r as int == channel_s(x as int, samples as int),
{
    proof {
        lemma_tdiv(x as int, samples as int);
        lemma_div_is_ordered(x as int, samples as int * SCALE as int, samples as int);
        lemma_div_multiples_vanish(SCALE as int, samples as int);
        assert(samples as int * SCALE as int == SCALE as int * samples as int) by (nonlinear_arith);
    }
    let avg = div_i128(x as i128, samples as i128) as i64;
    let gam = fsqrt(avg);
    proof {
        lemma_sqrt_floor_bounds(avg as int * SCALE as int);
        assert(gam as int <= 65536) by (nonlinear_arith)
            requires
                0 <= gam as int,
                gam as int * gam as int <= avg as int * 65536,
                avg as int <= 65536,
        ;
        lemma_tdiv(256 * clamp_s(gam as int, 0, 65470), SCALE as int);
        lemma_div_is_ordered(256 * clamp_s(gam as int, 0, 65470), 16760320, 65536);
        lemma_div_is_ordered(0, 256 * clamp_s(gam as int, 0, 65470), 65536);
    }
    let cl = clamp(gam, 0, 65470);
    let byte = div_i128((256 * cl) as i128, SCALE as i128) as i64;
    byte as u8
}

/// Average the accumulated color, gamma-correct, clamp and quantize.
pub fn create_pixel(pixel_color: &Color, samples_per_pixel: usize) -> (r: Rgb)
    requires
        1 <= samples_per_pixel <= 0x1_0000_0000,
        0 <= pixel_color.x <= samples_per_pixel * SCALE,
        0 <= pixel_color.y <= samples_per_pixel * SCALE,
        0 <= pixel_color.z <= samples_per_pixel * SCALE,
    ensures
        r == create_pixel_s(*pixel_color, samples_per_pixel as int),
{
    let s = samples_per_pixel as i64;
    Rgb {
        r: channel(pixel_color.x, s),
        g: channel(pixel_color.y, s),
        b: channel(pixel_color.z, s),
    }
}

/// Render the pixels of image row `j` from the given seed.
#[verifier::rlimit(100)]
pub fn render_row(
    world: &HittableList,
    cam: &Camera,
    j: usize,
    width: usize,
    height: usize,
    samples_per_pixel: usize,
    max_depth: usize,
    seed: u64,
) -> (out: Vec<Rgb>)
    requires
        world.wf(),
        camera_wf(*cam),
        2 <= width <= 0x1_0000,
        2 <= height <= 0x1_0000,
        j < height,
        1 <= samples_per_pixel <= 0x1_0000_0000,
        1 <= max_depth <= DEPTH_MAX,
    ensures
        out@ == render_row_s(
            world.objects@,
            world.materials@,
            *cam,
            j as int,
            width as int,
            height as int,
            samples_per_pixel as nat,
            max_depth as nat,
            seed,
        ),
        out@.len() == width,
{
    let mut rng = Rng::new(seed);
    let ghost s_row: u64 = rng.state;
    let mut out: Vec<Rgb> = Vec::new();
    let mut i: usize = 0;
    while i < width
        invariant
            world.wf(),
            camera_wf(*cam),
            2 <= width <= 0x1_0000,
            2 <= height <= 0x1_0000,
            j < height,
            1 <= samples_per_pixel <= 0x1_0000_0000,
            1 <= max_depth <= DEPTH_MAX,
            0 <= i <= width,
            out@.len() == i,
            out@ == row_pix_s(
                world.objects@,
                world.materials@,
                *cam,
                j as int,
                width as int,
                height as int,
                samples_per_pixel as nat,
                max_depth as nat,
                i as nat,
                s_row,
            ).0,
            rng.state == row_pix_s(
                world.objects@,
                world.materials@,
                *cam,
                j as int,
                width as int,
                height as int,
                samples_per_pixel as nat,
                max_depth as nat,
                i as nat,
                s_row,
            ).1,
        decreases width - i,
    {
        let ghost s_px: u64 = rng.state;
        let mut pixel_color = Vec3::new(0, 0, 0);
        let mut k: usize = 0;
        while k < samples_per_pixel
            invariant
                world.wf(),
                camera_wf(*cam),
                2 <= width <= 0x1_0000,
                2 <= height <= 0x1_0000,
                j < height,
                i < width,
                1 <= samples_per_pixel <= 0x1_0000_0000,
                1 <= max_depth <= DEPTH_MAX,
                0 <= k <= samples_per_pixel,
                pixel_color == sample_acc_s(
                    world.objects@,
                    world.materials@,
                    *cam,
                    i as int,
                    j as int,
                    width as int,
                    height as int,
                    max_depth as nat,
                    k as nat,
                    s_px,
                ).0,
                rng.state == sample_acc_s(
                    world.objects@,
                    world.materials@,
                    *cam,
                    i as int,
                    j as int,
                    width as int,
                    height as int,
                    max_depth as nat,
                    k as nat,
                    s_px,
                ).1,
                0 <= pixel_color.x <= k * SCALE,
                0 <= pixel_color.y <= k * SCALE,
                0 <= pixel_color.z <= k * SCALE,
            decreases samples_per_pixel - k,
        {
            let r1 = rng.gen_range(0, SCALE);
            let r2 = rng.gen_range(0, SCALE);
            proof {
                let unum = i as int * SCALE + r1;
                assert(0 <= unum <= (width as int - 1) * 0x4_0000) by (nonlinear_arith)
                    requires
                        unum == i as int * 65536 + r1 as int,
                        0 <= i as int <= width as int - 1,
                        0 <= r1 < 65536,
                        2 <= width as int,
                ;
                lemma_tdiv(unum, width as int - 1);
                lemma_multiply_divide_le(unum, width as int - 1, 0x4_0000);
                let vnum = (height as int - j as int) * SCALE + r2;
                assert(0 <= vnum <= (height as int - 1) * 0x4_0000) by (nonlinear_arith)
                    requires
                        vnum == (height as int - j as int) * 65536 + r2 as int,
                        1 <= height as int - j as int <= height as int,
                        0 <= r2 < 65536,
                        2 <= height as int,
                ;
                lemma_tdiv(vnum, height as int - 1);
                lemma_multiply_divide_le(vnum, height as int - 1, 0x4_0000);
            }
            let u = div_i128((i as i128) * 65536 + (r1 as i128), (width as i128) - 1) as i64;
            let v = div_i128(
                ((height - j) as i128) * 65536 + (r2 as i128),
                (height as i128) - 1,
            ) as i64;
            let ray = cam.get_ray(u, v, &mut rng);
            let c = ray_color(world, &ray, max_depth, &mut rng);
            proof {
                assert(depth_budget(max_depth as int) >= 0x1000_0000) by (nonlinear_arith)
                    requires
                        0 <= max_depth as int <= 64,
                        depth_budget(max_depth as int) == 0x2000_0000_0000 - max_depth as int
                            * 0x40_0000_0000,
                ;
            }
            pixel_color.add_assign(c);
            k = k + 1;
        }
        let px = create_pixel(&pixel_color, samples_per_pixel);
        out.push(px);
        i = i + 1;
    }
    out
}

/// Appending one full row to a row-major prefix keeps every earlier row
/// readable at its offsets and places the new row at the end.
proof fn lemma_append_row(data: Seq<Rgb>, old_data: Seq<Rgb>, row: Seq<Rgb>, w: int, j: int)
    requires
        1 <= w,
        0 <= j,
        old_data.len() == j * w,
        row.len() == w,
        data == old_data + row,
    ensures
        data.len() == (j + 1) * w,
        forall|jj: int|
            0 <= jj < j ==> #[trigger] data.subrange(jj * w, (jj + 1) * w) == old_data.subrange(
                jj * w,
                (jj + 1) * w,
            ),
        data.subrange(j * w, (j + 1) * w) == row,
{
    assert((j + 1) * w == j * w + w) by (nonlinear_arith);
    assert forall|jj: int| 0 <= jj < j implies #[trigger] data.subrange(jj * w, (jj + 1) * w)
        == old_data.subrange(jj * w, (jj + 1) * w) by {
        assert(0 <= jj * w && (jj + 1) * w <= j * w && (jj + 1) * w == jj * w + w)
            by (nonlinear_arith)
            requires
                0 <= jj < j,
                1 <= w,
        ;
        assert(data.subrange(jj * w, (jj + 1) * w) =~= old_data.subrange(jj * w, (jj + 1) * w));
    }
    assert(data.subrange(j * w, (j + 1) * w) =~= row);
}

/// Render the whole image: every row from its own derived seed, top row
/// first, row-major into the framebuffer.
#[verifier::rlimit(100)]
pub fn render(
    world: &HittableList,
    cam: &Camera,
    image_width: usize,
    image_height: usize,
    samples_per_pixel: usize,
    max_depth: usize,
    seed: u64,
) -> (fb: Framebuffer)
    requires
        world.wf(),
        camera_wf(*cam),
        2 <= image_width <= 0x1_0000,
        2 <= image_height <= 0x1_0000,
        1 <= samples_per_pixel <= 0x1_0000_0000,
        1 <= max_depth <= DEPTH_MAX,
    ensures
        fb.width == image_width,
        fb.height == image_height,
        fb.wf(),
        forall|j: int|
            0 <= j < image_height ==> #[trigger] fb.data@.subrange(
                j * image_width,
                (j + 1) * image_width,
            ) == render_row_s(
                world.objects@,
                world.materials@,
                *cam,
                j,
                image_width as int,
                image_height as int,
                samples_per_pixel as nat,
                max_depth as nat,
                row_seed_s(seed, j as u64),
            ),
{
    let mut data: Vec<Rgb> = Vec::new();
    let mut j: usize = 0;
    while j < image_height
        invariant
            world.wf(),
            camera_wf(*cam),
            2 <= image_width <= 0x1_0000,
            2 <= image_height <= 0x1_0000,
            1 <= samples_per_pixel <= 0x1_0000_0000,
            1 <= max_depth <= DEPTH_MAX,
            0 <= j <= image_height,
            data@.len() == j * image_width,
            forall|jj: int|
                0 <= jj < j ==> #[trigger] data@.subrange(
                    jj * image_width,
                    (jj + 1) * image_width,
                ) == render_row_s(
                    world.objects@,
                    world.materials@,
                    *cam,
                    jj,
                    image_width as int,
                    image_height as int,
                    samples_per_pixel as nat,
                    max_depth as nat,
                    row_seed_s(seed, jj as u64),
                ),
        decreases image_height - j,
    {
        let rs = row_seed(seed, j as u64);
        let mut row = render_row(
            world,
            cam,
            j,
            image_width,
            image_height,
            samples_per_pixel,
            max_depth,
            rs,
        );
        let ghost old_data: Seq<Rgb> = data@;
        let ghost row_view: Seq<Rgb> = row@;
        data.append(&mut row);
        proof {
            lemma_append_row(data@, old_data, row_view, image_width as int, j as int);
        }
        j = j + 1;
    }
    proof {
        assert(data@.len() == image_height * image_width) by (nonlinear_arith)
            requires
                data@.len() == image_height as int * image_width as int,
        ;
        assert(image_width as int * image_height as int == image_height as int
            * image_width as int) by (nonlinear_arith);
    }
    Framebuffer { width: image_width, height: image_height, data }
}

/// Parallel-render equivalence: any two framebuffers whose every row
/// equals the row function of that row's seed are the same image, so a
/// render split across workers by rows, each worker using the per-row
/// seeding scheme, equals the sequential render.
pub proof fn lemma_parallel_render_equivalence(
    objects: Seq<Sphere>,
    materials: Seq<Material>,
    cam: Camera,
    w: int,
    h: int,
    spp: nat,
    depth: nat,
    seed: u64,
    fb1: Seq<Rgb>,
    fb2: Seq<Rgb>,
)
    requires
        1 <= w,
        0 <= h,
        fb1.len() == w * h,
        fb2.len() == w * h,
        forall|j: int|
            0 <= j < h ==> #[trigger] fb1.subrange(j * w, (j + 1) * w) == render_row_s(
                objects,
                materials,
                cam,
                j,
                w,
                h,
                spp,
                depth,
                row_seed_s(seed, j as u64),
            ),
        forall|j: int|
            0 <= j < h ==> #[trigger] fb2.subrange(j * w, (j + 1) * w) == render_row_s(
                objects,
                materials,
                cam,
                j,
                w,
                h,
                spp,
                depth,
                row_seed_s(seed, j as u64),
            ),
    ensures
        fb1 == fb2,
{
    assert forall|idx: int| 0 <= idx < fb1.len() implies fb1[idx] == fb2[idx] by {
        let j = idx / w;
        let i = idx % w;
        lemma_fundamental_div_mod(idx, w);
        lemma_mod_division_less_than_divisor(idx, w);
        vstd::arithmetic::div_mod::lemma_div_pos_is_pos(idx, w);
        lemma_multiply_divide_lt(idx, w, h);
        assert(idx == j * w + i) by (nonlinear_arith)
            requires
                idx == w * j + i,
        ;
        assert(0 <= j * w && (j + 1) * w <= w * h) by (nonlinear_arith)
            requires
                0 <= j < h,
                1 <= w,
        ;
        assert((j + 1) * w == j * w + w) by (nonlinear_arith);
        assert(fb1.subrange(j * w, (j + 1) * w) == fb2.subrange(j * w, (j + 1) * w));
        assert(fb1.subrange(j * w, (j + 1) * w)[i] == fb1[j * w + i]);
        assert(fb2.subrange(j * w, (j + 1) * w)[i] == fb2[j * w + i]);
    }
    assert(fb1 =~= fb2);
}

} // verus!
