//! Vector algebra and fixed-point scalar behavior, on exact values.
//! All values are in fixed-point thousandths: 1000 is the real number 1.

use raytrace::fixed::{fixed_div, fixed_mul, fixed_sqrt, isqrt};
use raytrace::vec3::Vec3;

#[test]
fn zero_vector() {
    let v = Vec3::new();
    assert_eq!(v, Vec3::from(0, 0, 0));
}

#[test]
fn add_components() {
    let a = Vec3::from(1, 2, 3);
    let b = Vec3::from(4, 5, 6);
    assert_eq!(a.add(&b), Vec3::from(5, 7, 9));
}

#[test]
fn sub_components() {
    let a = Vec3::from(10, 20, 30);
    let b = Vec3::from(1, 2, 3);
    assert_eq!(a.sub(&b), Vec3::from(9, 18, 27));
}

#[test]
fn neg_components() {
    assert_eq!(Vec3::from(1, -2, 3).neg(), Vec3::from(-1, 2, -3));
}

#[test]
fn component_wise_product() {
    // 2 * 1.5 = 3, 3 * 2 = 6, 0.5 * 0.8 = 0.4
    let a = Vec3::from(2000, 3000, 500);
    let b = Vec3::from(1500, 2000, 800);
    assert_eq!(a.mul(&b), Vec3::from(3000, 6000, 400));
}

#[test]
fn scale_by_half() {
    assert_eq!(Vec3::from(1000, 2000, 3000).scale(500), Vec3::from(500, 1000, 1500));
}

#[test]
fn divide_by_scalar() {
    // 1 / 2 = 0.5
    assert_eq!(Vec3::from(1000, 2000, 3000).div(2000), Vec3::from(500, 1000, 1500));
}

#[test]
fn dot_product_exact() {
    let a = Vec3::from(1000, 2000, 3000);
    let b = Vec3::from(4000, 5000, 6000);
    assert_eq!(Vec3::dot(a, b), 4000 + 10000 + 18000);
}

#[test]
fn cross_product_basis() {
    let x = Vec3::from(1000, 0, 0);
    let y = Vec3::from(0, 1000, 0);
    assert_eq!(x.cross(y), Vec3::from(0, 0, 1000));
    assert_eq!(y.cross(Vec3::from(0, 0, 1000)), Vec3::from(1000, 0, 0));
}

#[test]
fn length_three_four_five() {
    let v = Vec3::from(3000, 4000, 0);
    assert_eq!(v.length_squared(), 25000);
    assert_eq!(v.length(), 5000);
}

#[test]
fn unit_vector_exact() {
    assert_eq!(Vec3::from(3000, 4000, 0).unit_vector(), Vec3::from(600, 800, 0));
    assert_eq!(Vec3::from(0, 0, -2000).unit_vector(), Vec3::from(0, 0, -1000));
}

#[test]
fn fixed_mul_truncates_toward_zero() {
    assert_eq!(fixed_mul(1500, 500), 750);
    assert_eq!(fixed_mul(-1500, 500), -750);
    assert_eq!(fixed_mul(-1500, -500), 750);
    assert_eq!(fixed_mul(999, 1), 0);
    assert_eq!(fixed_mul(-999, 1), 0);
}

#[test]
fn fixed_div_truncates_toward_zero() {
    assert_eq!(fixed_div(1000, 3000), 333);
    assert_eq!(fixed_div(-1000, 3000), -333);
    assert_eq!(fixed_div(1000, -3000), -333);
    assert_eq!(fixed_div(-1000, -3000), 333);
}

#[test]
fn integer_square_roots() {
    assert_eq!(isqrt(0), 0);
    assert_eq!(isqrt(1), 1);
    assert_eq!(isqrt(3), 1);
    assert_eq!(isqrt(4), 2);
    assert_eq!(isqrt(999999), 999);
    assert_eq!(isqrt(1000000), 1000);
}

#[test]
fn fixed_sqrt_values() {
    // sqrt(1) = 1, sqrt(0.25) = 0.5, sqrt(4) = 2
    assert_eq!(fixed_sqrt(1000), 1000);
    assert_eq!(fixed_sqrt(250), 500);
    assert_eq!(fixed_sqrt(4000), 2000);
    assert_eq!(fixed_sqrt(0), 0);
}

#[test]
fn random_components_stay_in_range() {
    for _ in 0..200 {
        let v = Vec3::random(-1000, 1000);
        assert!(-1000 <= v.x && v.x < 1000);
        assert!(-1000 <= v.y && v.y < 1000);
        assert!(-1000 <= v.z && v.z < 1000);
    }
}

#[test]
fn random_in_unit_sphere_is_inside() {
    for _ in 0..200 {
        let v = Vec3::random_in_unit_sphere();
        assert!(v.length_squared() < 1000);
    }
}

#[test]
fn random_in_hemisphere_points_along_normal() {
    let normal = Vec3::from(0, 0, 1000);
    for _ in 0..200 {
        let v = Vec3::random_in_hemisphere(normal);
        assert!(Vec3::dot(v, normal) >= 0);
        assert!(v.length_squared() < 1000);
    }
}

#[test]
fn random_unit_vector_is_bounded() {
    for _ in 0..200 {
        let v = Vec3::random_unit_vector();
        assert!(v.x.abs() <= 1_000_000);
        assert!(v.y.abs() <= 1_000_000);
        assert!(v.z.abs() <= 1_000_000);
    }
}
