//! Recursive color accumulation and the pixel loop.  A traced ray either
//! runs out of depth (black), bounces off the closest hit (the material's
//! attenuation times the recursive color, or black when absorbed), or
//! escapes to the background gradient.

use vstd::prelude::*;
use crate::fixed::{spec_tdiv, mul_fp, tdiv_i128, lemma_mul_le, lemma_tdiv_fits, lemma_tdiv_le,
    lemma_tdiv_exact, lemma_tdiv_nonneg, FP_ONE};
use crate::vec3::{Vec3, Color, unit3, spec_quantize, COORD_LIMIT};
use crate::ray::Ray;
use crate::material::{valid_color, spec_albedo};
use crate::hittable_list::{HittableList, spec_list_hit};
use crate::camera::Camera;
use crate::rng::{rng_from_seed, rng_range};

verus! {

/// Hits closer than this distance are ignored, so a scattered ray cannot
/// immediately re-hit the surface it left through rounding ("shadow
/// acne"); about one thousandth of a unit.
pub const T_MIN_HIT: i64 = 66;

/// The sky gradient a ray that escapes the scene sees: white blended
/// toward sky blue by the normalized direction's vertical component,
/// remapped from `[-1, 1]` to `[0, 1]`.
pub open spec fn spec_background(ray: Ray) -> (int, int, int) {
    let u = unit3(ray.direction.tup());
    let t = spec_tdiv(u.1 + FP_ONE as int, 2);
    (
        spec_tdiv((FP_ONE - t) * FP_ONE as int, FP_ONE as int) + spec_tdiv(
            t * 32768,
            FP_ONE as int,
        ),
        spec_tdiv((FP_ONE - t) * FP_ONE as int, FP_ONE as int) + spec_tdiv(
            t * 45875,
            FP_ONE as int,
        ),
        spec_tdiv((FP_ONE - t) * FP_ONE as int, FP_ONE as int) + spec_tdiv(
            t * 65536,
            FP_ONE as int,
        ),
    )
}

/// The background gradient, exactly as `spec_background` states it.
pub fn background(ray: &Ray) -> (c: Color)
    requires
        ray.wf(),
    ensures
        c.tup() == spec_background(*ray),
        valid_color(c),
{
    let unit_dir = ray.direction.as_unit();
    let s: i64 = unit_dir.y + FP_ONE;
    proof {
        lemma_tdiv_fits(s as int, 2, 65536);
        lemma_tdiv_nonneg(s as int, 2);
    }
    let t: i64 = tdiv_i128(s as i128, 2) as i64;
    proof {
        lemma_tdiv_exact((FP_ONE - t) as int, 65536);
        lemma_tdiv_exact(t as int, 65536);
        lemma_mul_le(t as int, 32768, 65536, 32768);
        lemma_mul_le(t as int, 45875, 65536, 45875);
        lemma_mul_le(t as int, 65536, 65536, 65536);
        lemma_tdiv_fits(t as int * 32768, 65536, 32768);
        lemma_tdiv_fits(t as int * 45875, 65536, 45875);
        lemma_tdiv_fits(t as int * 65536, 65536, 65536);
        lemma_tdiv_nonneg(t as int * 32768, 65536);
        lemma_tdiv_nonneg(t as int * 45875, 65536);
        lemma_tdiv_nonneg(t as int * 65536, 65536);
        lemma_tdiv_le(t as int * 32768, t as int * 65536, 65536);
        lemma_tdiv_le(t as int * 45875, t as int * 65536, 65536);
    }
    let w: i64 = mul_fp(FP_ONE - t, FP_ONE);
    let bx: i64 = w + mul_fp(t, 32768);
    let by: i64 = w + mul_fp(t, 45875);
    let bz: i64 = w + mul_fp(t, 65536);
    Vec3 { x: bx, y: by, z: bz }
}

/// Componentwise color product: each channel of `c` filtered by the
/// matching channel of the attenuation `a`.
pub open spec fn spec_attenuate(c: (int, int, int), a: (int, int, int)) -> (int, int, int) {
    (
        spec_tdiv(c.0 * a.0, FP_ONE as int),
        spec_tdiv(c.1 * a.1, FP_ONE as int),
        spec_tdiv(c.2 * a.2, FP_ONE as int),
    )
}

/// Filters a color through an attenuation; valid colors stay valid.
pub fn attenuate(c: &Color, a: &Color) -> (r: Color)
    requires
        valid_color(*c),
        valid_color(*a),
    ensures
        r.tup() == spec_attenuate(c.tup(), a.tup()),
        valid_color(r),
{
    proof {
        lemma_mul_le(c.x as int, a.x as int, 65536, 65536);
        lemma_mul_le(c.y as int, a.y as int, 65536, 65536);
        lemma_mul_le(c.z as int, a.z as int, 65536, 65536);
        lemma_tdiv_fits(c.x as int * a.x as int, 65536, 65536);
        lemma_tdiv_fits(c.y as int * a.y as int, 65536, 65536);
        lemma_tdiv_fits(c.z as int * a.z as int, 65536, 65536);
        assert(c.x as int * a.x as int >= 0 && c.y as int * a.y as int >= 0 && c.z as int
            * a.z as int >= 0) by (nonlinear_arith)
            requires
                c.x >= 0 && c.y >= 0 && c.z >= 0 && a.x >= 0 && a.y >= 0 && a.z >= 0,
        ;
        lemma_tdiv_nonneg(c.x as int * a.x as int, 65536);
        lemma_tdiv_nonneg(c.y as int * a.y as int, 65536);
        lemma_tdiv_nonneg(c.z as int * a.z as int, 65536);
    }
    Vec3 { x: mul_fp(c.x, a.x), y: mul_fp(c.y, a.y), z: mul_fp(c.z, a.z) }
}

/// `c` is some valid sub-path color filtered by the attenuation `alb`.
pub open spec fn attenuated_from(c: (int, int, int), alb: (int, int, int), sub: (int, int, int)) -> bool {
    &&& 0 <= sub.0 <= FP_ONE as int
    &&& 0 <= sub.1 <= FP_ONE as int
    &&& 0 <= sub.2 <= FP_ONE as int
    &&& c == spec_attenuate(sub, alb)
}

/// Traces one ray: with no depth left the color is exactly black; a ray
/// that misses every object returns exactly the background gradient; on
/// a hit, either the material absorbed the ray and the color is exactly
/// black, or the color is some valid sub-path color filtered by the hit
/// material's own attenuation.  Whatever the material's randomness did,
/// the result is a valid color.
pub fn ray_color(ray: &Ray, world: &HittableList, depth: u32, rng: &mut rand::rngs::StdRng) -> (c:
    Color)
    requires
        ray.wf(),
        world.wf(),
    ensures
        valid_color(c),
        depth == 0 ==> c == (Vec3 { x: 0, y: 0, z: 0 }),
        depth > 0 && spec_list_hit(world.objects@, *ray, T_MIN_HIT as int, COORD_LIMIT as int)
            is None ==> c.tup() == spec_background(*ray),
        depth > 0 ==> (spec_list_hit(world.objects@, *ray, T_MIN_HIT as int, COORD_LIMIT as int)
            matches Some(p) ==> (c == (Vec3 { x: 0, y: 0, z: 0 }) || exists|sub: (int, int, int)|
            attenuated_from(c.tup(), spec_albedo(world.objects@[p.1].material), sub))),
    decreases depth,
{
    if depth == 0 {
        return Vec3::zeros();
    }
    match world.hit(ray, T_MIN_HIT, COORD_LIMIT) {
        Some(rec) => match rec.material.scatter(ray, &rec, rng) {
            Some((attenuation, scattered)) => {
                let sub = ray_color(&scattered, world, depth - 1, rng);
                let c = attenuate(&sub, &attenuation);
                proof {
                    assert(attenuated_from(c.tup(), spec_albedo(rec.material), sub.tup()));
                }
                c
            },
            None => Vec3::zeros(),
        },
        None => background(ray),
    }
}

/// The pixel is the quantization of some accumulated per-channel sample
/// sums, each within `samples` full-intensity samples.
pub open spec fn pixel_from_sum(px: (u32, u32, u32), sums: (int, int, int), samples: int) -> bool {
    &&& 0 <= sums.0 <= samples * 65536
    &&& 0 <= sums.1 <= samples * 65536
    &&& 0 <= sums.2 <= samples * 65536
    &&& px.0 == spec_quantize(sums.0, samples)
    &&& px.1 == spec_quantize(sums.1, samples)
    &&& px.2 == spec_quantize(sums.2, samples)
}

/// Every pixel of the buffer is the quantization of its entry in some
/// sequence of accumulated per-channel sample sums.
pub open spec fn pixels_quantized(pxs: Seq<(u32, u32, u32)>, samples: int) -> bool {
    exists|log: Seq<(int, int, int)>| #![trigger log.len()] {
        &&& log.len() == pxs.len()
        &&& forall|k: int| #![trigger pxs[k]]
            0 <= k < pxs.len() ==> pixel_from_sum(pxs[k], log[k], samples)
    }
}

/// Renders the scene: one row of quantized pixel triples per scanline,
/// top row first, each pixel the quantized average of its accumulated
/// samples.  The random stream is owned by the given seed, so a render
/// is a function of its arguments and the generator's version.
pub fn render(
    world: &HittableList,
    camera: &Camera,
    image_width: u32,
    image_height: u32,
    samples_per_pixel: u32,
    max_depth: u32,
    seed: u64,
) -> (pixels: Vec<(u32, u32, u32)>)
    requires
        world.wf(),
        camera.wf(),
        2 <= image_width <= 4096,
        2 <= image_height <= 4096,
        1 <= samples_per_pixel <= 16384,
    ensures
        pixels@.len() == image_width * image_height,
        forall|k: int|
            0 <= k < pixels@.len() ==> pixels@[k].0 <= 255 && pixels@[k].1 <= 255 && pixels@[k].2
                <= 255,
        pixels_quantized(pixels@, samples_per_pixel as int),
{
    let mut rng = rng_from_seed(seed);
    let mut pixels: Vec<(u32, u32, u32)> = Vec::new();
    let ghost mut sums_log: Seq<(int, int, int)> = Seq::empty();
    let mut j: u32 = image_height;
    while j > 0
        invariant
            world.wf(),
            camera.wf(),
            2 <= image_width <= 4096,
            2 <= image_height <= 4096,
            1 <= samples_per_pixel <= 16384,
            j <= image_height,
            pixels@.len() == (image_height - j) * image_width,
            forall|k: int|
                0 <= k < pixels@.len() ==> pixels@[k].0 <= 255 && pixels@[k].1 <= 255
                    && pixels@[k].2 <= 255,
            sums_log.len() == pixels@.len(),
            forall|k: int| #![trigger pixels@[k]]
                0 <= k < pixels@.len() ==> pixel_from_sum(
                    pixels@[k],
                    sums_log[k],
                    samples_per_pixel as int,
                ),
        decreases j,
    {
        j = j - 1;
        let mut i: u32 = 0;
        while i < image_width
            invariant
                world.wf(),
                camera.wf(),
                2 <= image_width <= 4096,
                2 <= image_height <= 4096,
                1 <= samples_per_pixel <= 16384,
                j < image_height,
                i <= image_width,
                pixels@.len() == (image_height - 1 - j) * image_width + i,
                forall|k: int|
                    0 <= k < pixels@.len() ==> pixels@[k].0 <= 255 && pixels@[k].1 <= 255
                        && pixels@[k].2 <= 255,
                sums_log.len() == pixels@.len(),
                forall|k: int| #![trigger pixels@[k]]
                    0 <= k < pixels@.len() ==> pixel_from_sum(
                        pixels@[k],
                        sums_log[k],
                        samples_per_pixel as int,
                    ),
            decreases image_width - i,
        {
            let mut pixel: Vec3 = Vec3::zeros();
            let mut s: u32 = 0;
            while s < samples_per_pixel
                invariant
                    world.wf(),
                    camera.wf(),
                    2 <= image_width <= 4096,
                    2 <= image_height <= 4096,
                    1 <= samples_per_pixel <= 16384,
                    j < image_height,
                    i < image_width,
                    s <= samples_per_pixel,
                    0 <= pixel.x <= s * 65536,
                    0 <= pixel.y <= s * 65536,
                    0 <= pixel.z <= s * 65536,
                decreases samples_per_pixel - s,
            {
                let ju: i64 = rng_range(&mut rng, 0, 65536);
                let jv: i64 = rng_range(&mut rng, 0, 65536);
                let un: i64 = (i as i64) * 65536 + ju;
                let vn: i64 = (j as i64) * 65536 + jv;
                proof {
                    lemma_tdiv_fits(un as int, image_width as int - 1, 131072);
                    lemma_tdiv_fits(vn as int, image_height as int - 1, 131072);
                    lemma_tdiv_nonneg(un as int, image_width as int - 1);
                    lemma_tdiv_nonneg(vn as int, image_height as int - 1);
                }
                let u: i64 = tdiv_i128(un as i128, (image_width - 1) as i128) as i64;
                let v: i64 = tdiv_i128(vn as i128, (image_height - 1) as i128) as i64;
                let r = camera.get_ray(u, v);
                let col = ray_color(&r, world, max_depth, &mut rng);
                pixel = pixel.add(&col);
                s = s + 1;
            }
            let rgb = pixel.write_color(samples_per_pixel);
            pixels.push(rgb);
            proof {
                sums_log = sums_log.push((pixel.x as int, pixel.y as int, pixel.z as int));
                assert(pixel_from_sum(
                    rgb,
                    (pixel.x as int, pixel.y as int, pixel.z as int),
                    samples_per_pixel as int,
                ));
            }
            i = i + 1;
        }
        proof {
            assert((image_height - 1 - j) * image_width + image_width == (image_height - j)
                * image_width) by (nonlinear_arith);
        }
    }
    proof {
        assert(image_height * image_width == image_width * image_height) by (nonlinear_arith);
        assert(sums_log.len() == pixels@.len());
        assert(pixels_quantized(pixels@, samples_per_pixel as int));
    }
    pixels
}

} // verus!
