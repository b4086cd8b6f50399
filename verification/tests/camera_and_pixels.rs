//! Camera ray generation, color quantization, and per-pixel sampling.

use raytrace::camera::Camera;
use raytrace::hittable::HittableList;
use raytrace::material::Material;
use raytrace::render::sample_pixel;
use raytrace::sphere::Sphere;
use raytrace::vec3::Vec3;

#[test]
fn standard_camera_corners() {
    let cam = Camera::new();
    let low = cam.get_ray(0, 0);
    assert_eq!(low.origin, Vec3::from(0, 0, 0));
    assert_eq!(low.direction, Vec3::from(-1777, -1000, -1000));
    let high = cam.get_ray(1000, 1000);
    assert_eq!(high.direction, Vec3::from(1778, 1000, -1000));
    let center = cam.get_ray(500, 500);
    assert_eq!(center.direction, Vec3::from(0, 0, -1000));
}

#[test]
fn explicit_camera_matches_fields() {
    let cam = Camera::from(
        Vec3::from(0, 0, 100),
        Vec3::from(-500, -500, -900),
        Vec3::from(1000, 0, 0),
        Vec3::from(0, 1000, 0),
    );
    let ray = cam.get_ray(0, 0);
    assert_eq!(ray.origin, Vec3::from(0, 0, 100));
    assert_eq!(ray.direction, Vec3::from(-500, -500, -1000));
}

#[test]
fn clamp_behaves_at_all_three_ranges() {
    assert_eq!(Vec3::clamp(5, 0, 10), 5);
    assert_eq!(Vec3::clamp(-1, 0, 10), 0);
    assert_eq!(Vec3::clamp(11, 0, 10), 10);
    assert_eq!(Vec3::clamp(0, 0, 10), 0);
    assert_eq!(Vec3::clamp(10, 0, 10), 10);
}

#[test]
fn quantize_white_round_trip() {
    // An accumulation of n samples of exactly (1,1,1) quantizes to pure
    // white for every positive sample count.
    assert_eq!(Vec3::from(1000, 1000, 1000).quantize(1), (255, 255, 255));
    assert_eq!(Vec3::from(7000, 7000, 7000).quantize(7), (255, 255, 255));
    assert_eq!(Vec3::from(100_000, 100_000, 100_000).quantize(100), (255, 255, 255));
}

#[test]
fn quantize_black_round_trip() {
    assert_eq!(Vec3::from(0, 0, 0).quantize(1), (0, 0, 0));
    assert_eq!(Vec3::from(0, 0, 0).quantize(100), (0, 0, 0));
}

#[test]
fn quantize_applies_gamma() {
    // A linear channel of 0.25 gamma-corrects to 0.5, i.e. level 128.
    assert_eq!(Vec3::from(250, 250, 250).quantize(1), (128, 128, 128));
    // Averaging first: four samples summing to 1.0 per channel.
    assert_eq!(Vec3::from(1000, 1000, 1000).quantize(4), (128, 128, 128));
}

#[test]
fn sky_pixel_blue_channel_saturates() {
    // Whatever the jitter picks, an escaping ray's gradient has blue
    // exactly 1, so the quantized blue channel is 255.
    let cam = Camera::new();
    let world = HittableList::new();
    for _ in 0..20 {
        let (r, g, b) = sample_pixel(200, 100, 400, 225, 4, 5, &cam, &world);
        assert_eq!(b, 255);
        assert!(r <= 255 && g <= 255);
        assert!(r >= 128 && g >= 128);
    }
}

#[test]
fn more_samples_reduce_pixel_variance() {
    // A pixel on the sphere's silhouette: each sample either hits the
    // sphere (darker) or escapes to the sky (lighter), so the estimated
    // pixel color has high variance at one sample per pixel. Averaging
    // more samples must shrink that variance; with sample counts 1, 8 and
    // 64 the expected shrink per step is eightfold, far larger than the
    // estimation noise over this many trials.
    let cam = Camera::new();
    let sphere = Sphere::from(Vec3::from(0, 0, -1000), 500, Material::Diffuse);
    let world = HittableList { objects: vec![sphere] };
    let variance_of = |samples: i64| -> f64 {
        let trials: usize = 400;
        let mut values: Vec<f64> = Vec::with_capacity(trials);
        for _ in 0..trials {
            let (red, _, _) = sample_pixel(265, 112, 400, 225, samples, 5, &cam, &world);
            values.push(red as f64);
        }
        let mean: f64 = values.iter().sum::<f64>() / trials as f64;
        values.iter().map(|v| (v - mean) * (v - mean)).sum::<f64>() / trials as f64
    };
    let var1 = variance_of(1);
    let var8 = variance_of(8);
    let var64 = variance_of(64);
    assert!(var1 > 0.0);
    assert!(var1 > var8);
    assert!(var8 > var64);
}
