//! Composite-scene resolution and the shading integrator.

use raytrace::hittable::HittableList;
use raytrace::material::Material;
use raytrace::ray::Ray;
use raytrace::render::shade;
use raytrace::sphere::{HitRecord, Hittable, Sphere};
use raytrace::vec3::Vec3;

const T_MAX: i64 = 1_000_000_000;

fn near_far_spheres() -> (Sphere, Sphere) {
    let near = Sphere::from(Vec3::from(0, 0, -3000), 1000, Material::Diffuse);
    let far = Sphere::from(Vec3::from(0, 0, -8000), 1000, Material::Diffuse);
    (near, far)
}

#[test]
fn nearest_hit_wins_in_listed_order() {
    let (near, far) = near_far_spheres();
    let scene = HittableList { objects: vec![near, far] };
    let ray = Ray::new(Vec3::from(0, 0, 0), Vec3::from(0, 0, -1000));
    let hit = scene.hit(&ray, 1, T_MAX).expect("must hit the near sphere");
    assert_eq!(hit.t, 2000);
    assert_eq!(hit.p, Vec3::from(0, 0, -2000));
    assert_eq!(hit.normal, Vec3::from(0, 0, 1000));
    assert!(hit.front_face);
}

#[test]
fn nearest_hit_wins_in_reversed_order() {
    let (near, far) = near_far_spheres();
    let scene = HittableList { objects: vec![far, near] };
    let ray = Ray::new(Vec3::from(0, 0, 0), Vec3::from(0, 0, -1000));
    let hit = scene.hit(&ray, 1, T_MAX).expect("must hit the near sphere");
    assert_eq!(hit.t, 2000);
    assert_eq!(hit.p, Vec3::from(0, 0, -2000));
    assert_eq!(hit.normal, Vec3::from(0, 0, 1000));
    assert!(hit.front_face);
}

#[test]
fn empty_scene_never_hits() {
    let scene = HittableList::new();
    let ray = Ray::new(Vec3::from(0, 0, 0), Vec3::from(0, 0, -1000));
    assert!(scene.hit(&ray, 1, T_MAX).is_none());
}

#[test]
fn scene_built_by_add_matches_literal() {
    let (near, far) = near_far_spheres();
    let mut scene = HittableList::new();
    scene.add(near);
    scene.add(far);
    let ray = Ray::new(Vec3::from(0, 0, 0), Vec3::from(0, 0, -1000));
    assert_eq!(scene.hit(&ray, 1, T_MAX).expect("must hit").t, 2000);
}

#[test]
fn depth_zero_is_black() {
    let (near, far) = near_far_spheres();
    let scene = HittableList { objects: vec![near, far] };
    let ray = Ray::new(Vec3::from(0, 0, 0), Vec3::from(0, 0, -1000));
    assert_eq!(shade(&ray, &scene, 0), Vec3::from(0, 0, 0));
    let empty = HittableList::new();
    assert_eq!(shade(&ray, &empty, 0), Vec3::from(0, 0, 0));
}

#[test]
fn miss_returns_exact_gradient() {
    let empty = HittableList::new();
    // Straight up: blend parameter 1, pure sky blue.
    let up = Ray::new(Vec3::from(0, 0, 0), Vec3::from(0, 1000, 0));
    assert_eq!(shade(&up, &empty, 10), Vec3::from(500, 700, 1000));
    // Straight down: blend parameter 0, pure white.
    let down = Ray::new(Vec3::from(0, 0, 0), Vec3::from(0, -1000, 0));
    assert_eq!(shade(&down, &empty, 10), Vec3::from(1000, 1000, 1000));
    // Horizontal: blend parameter one half.
    let level = Ray::new(Vec3::from(0, 0, 0), Vec3::from(0, 0, -1000));
    assert_eq!(shade(&level, &empty, 10), Vec3::from(750, 850, 1000));
}

#[test]
fn shade_stays_in_unit_cube() {
    let (near, far) = near_far_spheres();
    let scene = HittableList { objects: vec![near, far] };
    let ray = Ray::new(Vec3::from(0, 0, 0), Vec3::from(0, 0, -1000));
    for _ in 0..100 {
        let c = shade(&ray, &scene, 50);
        assert!(0 <= c.x && c.x <= 1000);
        assert!(0 <= c.y && c.y <= 1000);
        assert!(0 <= c.z && c.z <= 1000);
    }
}

#[test]
fn first_bounce_halves_energy() {
    // One bounce budget: the hit bounces once, the bounce either escapes
    // (gradient, every channel at most 1) or is cut off by the depth floor
    // (black); either way the result is at most one half per channel.
    let sphere = Sphere::from(Vec3::from(0, 0, -3000), 1000, Material::Diffuse);
    let scene = HittableList { objects: vec![sphere] };
    let ray = Ray::new(Vec3::from(0, 0, 0), Vec3::from(0, 0, -1000));
    for _ in 0..100 {
        let c = shade(&ray, &scene, 2);
        assert!(c.x <= 500);
        assert!(c.y <= 500);
        assert!(c.z <= 500);
    }
}

#[test]
fn scatter_proposes_half_attenuation_from_hit_point() {
    let sphere = Sphere::from(Vec3::from(0, 0, -3000), 1000, Material::Diffuse);
    let ray = Ray::new(Vec3::from(0, 0, 0), Vec3::from(0, 0, -1000));
    let rec = sphere.hit(&ray, 1, T_MAX).expect("must hit");
    let mut scattered_count: u32 = 0;
    for _ in 0..50 {
        // A vanishingly short hemisphere sample is absorbed, so a single
        // draw may return None; almost all draws scatter.
        if let Some((attenuation, scattered)) = rec.material.scatter(&ray, &rec) {
            assert_eq!(attenuation, Vec3::from(500, 500, 500));
            assert_eq!(scattered.origin, rec.p);
            assert!(Vec3::dot(scattered.direction, rec.normal) >= 0);
            scattered_count += 1;
        }
    }
    assert!(scattered_count > 0);
}

#[test]
fn scatter_decision_is_exact() {
    let rec = HitRecord {
        p: Vec3::from(0, 0, -2000),
        normal: Vec3::from(0, 0, 1000),
        t: 2000,
        front_face: true,
        material: Material::Diffuse,
    };
    // A usable direction scatters from the hit point with half attenuation.
    let (attenuation, scattered) = Material::Diffuse
        .scatter_with(&rec, Vec3::from(0, 0, 1000))
        .expect("usable direction must scatter");
    assert_eq!(attenuation, Vec3::from(500, 500, 500));
    assert_eq!(scattered.origin, rec.p);
    assert_eq!(scattered.direction, Vec3::from(0, 0, 1000));
    // A direction too short to have a non-zero fixed-point squared length
    // is absorbed; the shortest usable axis direction is 0.032.
    assert!(Material::Diffuse.scatter_with(&rec, Vec3::from(0, 0, 31)).is_none());
    assert!(Material::Diffuse.scatter_with(&rec, Vec3::from(0, 0, 32)).is_some());
    // A hit point outside the scene cube is absorbed.
    let far = HitRecord { p: Vec3::from(3_000_000, 0, 0), ..rec };
    assert!(Material::Diffuse.scatter_with(&far, Vec3::from(0, 0, 1000)).is_none());
}
