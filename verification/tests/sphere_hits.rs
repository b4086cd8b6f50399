//! Sphere intersection behavior on exact fixed-point scenes.

use raytrace::material::Material;
use raytrace::ray::Ray;
use raytrace::sphere::{HitRecord, Hittable, Sphere};
use raytrace::vec3::Vec3;

const T_MAX: i64 = 1_000_000_000;

#[test]
fn axis_ray_hits_front_face() {
    // Sphere of radius 1 at the origin; ray from (0,0,5) toward (0,0,-1)
    // hits at t = 5 - 1 = 4 with outward normal (0,0,1).
    let sphere = Sphere::from(Vec3::from(0, 0, 0), 1000, Material::Diffuse);
    let ray = Ray::new(Vec3::from(0, 0, 5000), Vec3::from(0, 0, -1000));
    let hit = sphere.hit(&ray, 1, T_MAX).expect("must hit");
    assert_eq!(hit.t, 4000);
    assert_eq!(hit.normal, Vec3::from(0, 0, 1000));
    assert_eq!(hit.p, Vec3::from(0, 0, 1000));
    assert!(hit.front_face);
    assert_eq!(hit.material, Material::Diffuse);
}

#[test]
fn tangent_ray_single_root() {
    // The ray along -z at height 0 grazes a unit sphere centered at
    // (0, 1, -2): the discriminant is exactly zero, so both candidate
    // roots coincide at t = 2 and exactly one root is accepted.
    let sphere = Sphere::from(Vec3::from(0, 1000, -2000), 1000, Material::Diffuse);
    let ray = Ray::new(Vec3::from(0, 0, 0), Vec3::from(0, 0, -1000));
    let hit = sphere.hit(&ray, 1, T_MAX).expect("tangent must hit once");
    assert_eq!(hit.t, 2000);
    assert_eq!(hit.p, Vec3::from(0, 0, -2000));
    // The graze point's outward normal is orthogonal to the ray, which
    // counts as a back face (dot is not strictly negative).
    assert!(!hit.front_face);
    assert_eq!(hit.normal, Vec3::from(0, 1000, 0));
}

#[test]
fn near_tangent_ray_misses() {
    // Nudging the tangent sphere one thousandth further away makes the
    // discriminant negative: no hit at all.
    let sphere = Sphere::from(Vec3::from(0, 1001, -2000), 1000, Material::Diffuse);
    let ray = Ray::new(Vec3::from(0, 0, 0), Vec3::from(0, 0, -1000));
    assert!(sphere.hit(&ray, 1, T_MAX).is_none());
}

#[test]
fn inside_ray_reports_back_face() {
    // A ray starting at the center of a sphere of radius 2 exits at
    // t = 2; the hit is a back face and the stored normal points inward,
    // i.e. it is the negation of the outward normal (0,0,-1).
    let sphere = Sphere::from(Vec3::from(0, 0, 0), 2000, Material::Diffuse);
    let ray = Ray::new(Vec3::from(0, 0, 0), Vec3::from(0, 0, -1000));
    let hit = sphere.hit(&ray, 1, T_MAX).expect("must exit the sphere");
    assert_eq!(hit.t, 2000);
    assert!(!hit.front_face);
    assert_eq!(hit.p, Vec3::from(0, 0, -2000));
    assert_eq!(hit.normal, Vec3::from(0, 0, 1000));
}

#[test]
fn sphere_behind_ray_misses() {
    // Both roots are negative: the sphere sits behind the ray origin.
    let sphere = Sphere::from(Vec3::from(0, 0, 5000), 1000, Material::Diffuse);
    let ray = Ray::new(Vec3::from(0, 0, 0), Vec3::from(0, 0, -1000));
    assert!(sphere.hit(&ray, 1, T_MAX).is_none());
}

#[test]
fn window_excludes_far_hit() {
    // The hit at t = 4 is rejected when the window ends before it.
    let sphere = Sphere::from(Vec3::from(0, 0, 0), 1000, Material::Diffuse);
    let ray = Ray::new(Vec3::from(0, 0, 5000), Vec3::from(0, 0, -1000));
    assert!(sphere.hit(&ray, 1, 3000).is_none());
    assert!(sphere.hit(&ray, 1, 4001).is_some());
}

#[test]
fn record_constructor_flips_normal_on_back_face() {
    let p = Vec3::from(1, 2, 3);
    let n = Vec3::from(0, 0, 1000);
    let front = HitRecord::from(p, n, Material::Diffuse, 42, true);
    assert_eq!(front.normal, Vec3::from(0, 0, 1000));
    let back = HitRecord::from(p, n, Material::Diffuse, 42, false);
    assert_eq!(back.normal, Vec3::from(0, 0, -1000));
    assert_eq!(back.t, 42);
    assert!(!back.front_face);
}

#[test]
fn outward_normal_test_is_dot_sign() {
    let ray = Ray::new(Vec3::from(0, 0, 0), Vec3::from(0, 0, -1000));
    assert!(HitRecord::get_outward_normal(&ray, Vec3::from(0, 0, 1000)));
    assert!(!HitRecord::get_outward_normal(&ray, Vec3::from(0, 0, -1000)));
    // Orthogonal counts as not front facing.
    assert!(!HitRecord::get_outward_normal(&ray, Vec3::from(1000, 0, 0)));
}
