//! The recursive light-transport integrator and the per-pixel sampler.

use vstd::prelude::*;

use crate::camera::{cam_ray, cam_wf, Camera};
use crate::fixed::{
    div_nonneg, fixed_mul, fmul, lemma_fdiv_bound, lemma_fmul_bound, lemma_fmul_one,
};
use crate::ray::{ray_wf, Ray, RayV};
use crate::sphere::{t_limit, Hittable};
use crate::vec3::{
    clamp_spec, color_01, lemma_vlen_pos, quant_channel, v3, vadd, vscale, vunit, Color, Vec3, V3,
};

verus! {

/// The background gradient for a ray that escapes the scene: a linear blend
/// from white to sky blue, driven by the y component of the unit direction,
/// with the blend parameter defensively clamped into `[0, 1]`.
pub open spec fn background_v(r: RayV) -> V3 {
    let unit: V3 = vunit(r.direction);
    let t: int = clamp_spec(fmul(unit.y + 1000, 500), 0, 1000);
    vadd(vscale(1000 - t, v3(1000, 1000, 1000)), vscale(t, v3(500, 700, 1000)))
}

/// Computes the background gradient for an escaping ray.
pub fn background(ray: &Ray) -> (c: Color)
    requires
        ray_wf(ray@),
    ensures
        c@ == background_v(ray@),
        color_01(c@),
{
    proof {
        lemma_fmul_bound(ray@.direction.x, ray@.direction.x, 2_000_000, 2_000_000);
        lemma_fmul_bound(ray@.direction.y, ray@.direction.y, 2_000_000, 2_000_000);
        lemma_fmul_bound(ray@.direction.z, ray@.direction.z, 2_000_000, 2_000_000);
        lemma_vlen_pos(ray@.direction);
        lemma_fdiv_bound(ray@.direction.x, crate::vec3::vlen(ray@.direction), 2_000_000);
        lemma_fdiv_bound(ray@.direction.y, crate::vec3::vlen(ray@.direction), 2_000_000);
        lemma_fdiv_bound(ray@.direction.z, crate::vec3::vlen(ray@.direction), 2_000_000);
    }
    let unit_direction: Vec3 = ray.direction.unit_vector();
    proof {
        lemma_fmul_bound(unit_direction@.y + 1000, 500, 2_000_001_000, 500);
    }
    let ty: i64 = fixed_mul(unit_direction.y + 1000, 500);
    let t: i64 = Vec3::clamp(ty, 0, 1000);
    let white: Color = Vec3::from(1000, 1000, 1000);
    let sky: Color = Vec3::from(500, 700, 1000);
    proof {
        lemma_fmul_one(1000 - t as int);
        lemma_fmul_one(t as int);
        assert(0 <= fmul(1000 - t as int, 500) <= 1000 - t as int) by (nonlinear_arith)
            requires
                0 <= 1000 - t as int <= 1000;
        assert(0 <= fmul(1000 - t as int, 700) <= 1000 - t as int) by (nonlinear_arith)
            requires
                0 <= 1000 - t as int <= 1000;
        assert(0 <= fmul(t as int, 500) <= t as int) by (nonlinear_arith)
            requires
                0 <= t as int <= 1000;
        assert(0 <= fmul(t as int, 700) <= t as int) by (nonlinear_arith)
            requires
                0 <= t as int <= 1000;
    }
    let faded_white: Color = white.scale(1000 - t);
    let faded_sky: Color = sky.scale(t);
    faded_white.add(&faded_sky)
}

/// The recursive light-transport evaluator.
///
/// With an exhausted depth budget the ray is fully absorbed and the result
/// is black. Otherwise the ray is resolved against the scene over the
/// window `(0.001, t_limit)`; a miss returns the background gradient
/// exactly, and a hit bounces via the material's (randomized) scatter
/// policy, attenuating the recursive result. Every returned channel lies in
/// `[0, 1]`.
pub fn shade<H: Hittable>(ray: &Ray, world: &H, depth: usize) -> (c: Color)
    requires
        ray_wf(ray@),
        world.wf(),
    ensures
        color_01(c@),
        depth == 0 ==> c@ == v3(0, 0, 0),
        depth > 0 && world.spec_hit(ray@, 1, t_limit()) is None ==> c@ == background_v(ray@),
    decreases depth,
{
    if depth == 0 {
        return Vec3::new();
    }

    // The lower bound 0.001 (one fixed-point unit) avoids self-intersection
    // of a bounced ray with the surface it starts on.
    match world.hit(ray, 1, 1_000_000_000) {
        Some(rec) => match rec.material.scatter(ray, &rec) {
            Some((attenuation, scattered)) => {
                let bounced: Color = shade(&scattered, world, depth - 1);
                proof {
                    assert(0 <= fmul(500, bounced@.x) <= 500 && 0 <= fmul(500, bounced@.y) <= 500
                        && 0 <= fmul(500, bounced@.z) <= 500) by (nonlinear_arith)
                        requires
                            color_01(bounced@);
                }
                attenuation.mul(&bounced)
            },
            None => Vec3::new(),
        },
        None => background(ray),
    }
}

/// One logged pixel sample: the viewport coordinates that were drawn and
/// the color the shader returned for the camera ray through them.
pub struct PixelSample {
    pub u: int,
    pub v: int,
    pub color: V3,
}

/// What every logged sample satisfies: coordinates inside the viewport, a
/// unit-range color, and — whenever the sample's camera ray escapes the
/// scene and the depth budget is positive — exactly the background gradient.
pub open spec fn sample_ok<H: Hittable>(
    smp: PixelSample,
    cam: crate::camera::CameraV,
    world: H,
    depth: int,
) -> bool {
    &&& 0 <= smp.u <= 1000
    &&& 0 <= smp.v <= 1000
    &&& color_01(smp.color)
    &&& (depth > 0 && world.spec_hit(cam_ray(cam, smp.u, smp.v), 1, t_limit()) is None
        ==> smp.color == background_v(cam_ray(cam, smp.u, smp.v)))
}

/// The channel-wise sum of the logged sample colors.
pub open spec fn sample_sum(log: Seq<PixelSample>) -> V3
    decreases log.len(),
{
    if log.len() == 0 {
        v3(0, 0, 0)
    } else {
        vadd(sample_sum(log.drop_last()), log.last().color)
    }
}

/// Summing unit-range colors keeps every channel within one unit per sample.
pub proof fn lemma_sample_sum_bounds(log: Seq<PixelSample>)
    requires
        forall|k: int| 0 <= k < log.len() ==> color_01(#[trigger] log[k].color),
    ensures
        0 <= sample_sum(log).x <= log.len() * 1000,
        0 <= sample_sum(log).y <= log.len() * 1000,
        0 <= sample_sum(log).z <= log.len() * 1000,
    decreases log.len(),
{
    if log.len() > 0 {
        lemma_sample_sum_bounds(log.drop_last());
    }
}

/// Relies on `fastrand::i64`: returns a value drawn from the half-open
/// range `lo..hi`; panics only on an empty range, which the precondition
/// excludes.
#[verifier::external_body]
fn jitter_i64(lo: i64, hi: i64) -> (r: i64)
    requires
        lo < hi,
    ensures
        lo <= r < hi,
{
    fastrand::i64(lo..hi)
}

/// Renders one pixel: draws `samples_per_pixel` jittered camera rays,
/// shades each, averages, and quantizes to a discrete RGB triple.
///
/// The jitter and the bounces are random, so the exact triple is not a
/// function of the inputs; what always holds is that the result is the
/// quantization, at this sample count, of the channel-wise sum of that many
/// logged samples, each of them well formed (`sample_ok`): unit-range, and
/// equal to the exact background gradient whenever its ray missed.
pub fn sample_pixel<H: Hittable>(
    i: i64,
    j: i64,
    image_width: i64,
    image_height: i64,
    samples_per_pixel: i64,
    max_depth: usize,
    camera: &Camera,
    world: &H,
) -> (rgb: (u8, u8, u8))
    requires
        0 <= i < image_width,
        0 <= j < image_height,
        image_width <= 1_000_000,
        image_height <= 1_000_000,
        1 <= samples_per_pixel <= 1_000_000,
        cam_wf(camera@),
        world.wf(),
    ensures
        exists|log: Seq<PixelSample>|
            {
                &&& log.len() == samples_per_pixel
                &&& (forall|k: int|
                    0 <= k < log.len() ==> sample_ok(
                        #[trigger] log[k],
                        camera@,
                        *world,
                        max_depth as int,
                    ))
                &&& rgb.0 as int == quant_channel(sample_sum(log).x, samples_per_pixel as int)
                &&& rgb.1 as int == quant_channel(sample_sum(log).y, samples_per_pixel as int)
                &&& rgb.2 as int == quant_channel(sample_sum(log).z, samples_per_pixel as int)
            },
{
    let mut pixel_color: Color = Vec3::new();
    let mut s: i64 = 0;
    let ghost mut log: Seq<PixelSample> = Seq::empty();
    while s < samples_per_pixel
        invariant
            0 <= s <= samples_per_pixel,
            samples_per_pixel <= 1_000_000,
            log.len() == s,
            forall|k: int|
                0 <= k < log.len() ==> sample_ok(#[trigger] log[k], camera@, *world, max_depth as int),
            pixel_color@ == sample_sum(log),
            0 <= i < image_width,
            0 <= j < image_height,
            image_width <= 1_000_000,
            image_height <= 1_000_000,
            cam_wf(camera@),
            world.wf(),
        decreases samples_per_pixel - s,
    {
        let xi: i64 = jitter_i64(0, 1000);
        let eta: i64 = jitter_i64(0, 1000);
        let nu: i64 = i * 1000 + xi;
        let nv: i64 = j * 1000 + eta;
        let u: i64 = div_nonneg(nu, image_width);
        let v: i64 = div_nonneg(nv, image_height);
        assert(u <= 1000 && v <= 1000) by (nonlinear_arith)
            requires
                u as int == nu as int / image_width as int,
                v as int == nv as int / image_height as int,
                0 <= nu,
                nu < image_width * 1000,
                0 <= nv,
                nv < image_height * 1000,
                1 <= image_width,
                1 <= image_height;
        let ray: Ray = camera.get_ray(u, v);
        let sample: Color = shade(&ray, world, max_depth);
        proof {
            lemma_sample_sum_bounds(log);
        }
        pixel_color = pixel_color.add(&sample);
        proof {
            let prior: Seq<PixelSample> = log;
            let entry: PixelSample = PixelSample { u: u as int, v: v as int, color: sample@ };
            log = log.push(entry);
            assert(log.drop_last() =~= prior);
            assert(log.last() == entry);
        }
        s = s + 1;
    }
    proof {
        lemma_sample_sum_bounds(log);
    }
    let rgb: (u8, u8, u8) = pixel_color.quantize(samples_per_pixel);
    proof {
        assert(exists|w: Seq<PixelSample>|
            {
                &&& w.len() == samples_per_pixel
                &&& (forall|k: int|
                    0 <= k < w.len() ==> sample_ok(#[trigger] w[k], camera@, *world, max_depth as int))
                &&& rgb.0 as int == quant_channel(sample_sum(w).x, samples_per_pixel as int)
                &&& rgb.1 as int == quant_channel(sample_sum(w).y, samples_per_pixel as int)
                &&& rgb.2 as int == quant_channel(sample_sum(w).z, samples_per_pixel as int)
            }) by {
            assert(log.len() == samples_per_pixel && rgb.0 as int == quant_channel(
                sample_sum(log).x,
                samples_per_pixel as int,
            ));
        }
    }
    rgb
}

} // verus!
