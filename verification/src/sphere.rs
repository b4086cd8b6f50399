//! The sphere primitive, its quadratic intersection test, hit records, and
//! the `Hittable` capability shared by every surface.

use vstd::prelude::*;

use crate::fixed::{
    fdiv, fixed_div, fixed_mul, fixed_sqrt, fmul, fsqrt, is_sqrt_of, lemma_fdiv_bound,
    lemma_fdiv_mono, lemma_fdiv_one, lemma_fdiv_self, lemma_fmul_bound, lemma_fmul_neg_left,
    lemma_fmul_one, lemma_fmul_zero, lemma_sqrt_exists, lemma_sqrt_floor_agrees,
};
use crate::material::Material;
use crate::ray::{ray_at_v, ray_wf, Ray, RayV};
use crate::vec3::{
    coord_limit, v3, v3_bounded, vdivs, vdot, vneg, vsub, Point3, Vec3, V3,
};

verus! {

/// Upper bound on the ray-parameter window `(t_min, t_max)` handed to an
/// intersection test; it stands in for infinity and keeps the hit point's
/// coordinates inside an `i64`.
pub open spec fn t_limit() -> int {
    1_000_000_000
}

/// Mathematical view of a hit record.
pub struct HitV {
    pub p: V3,
    pub normal: V3,
    pub t: int,
    pub front_face: bool,
    pub material: Material,
}

/// Result of a successful intersection: position, oriented normal, ray
/// parameter, which side was hit, and the surface's material.
#[derive(Clone, Copy, Debug, PartialEq, Eq, Structural)]
pub struct HitRecord {
    pub p: Point3,
    pub normal: Vec3,
    pub t: i64,
    pub front_face: bool,
    pub material: Material,
}

impl View for HitRecord {
    type V = HitV;

    open spec fn view(&self) -> HitV {
        HitV {
            p: self.p@,
            normal: self.normal@,
            t: self.t as int,
            front_face: self.front_face,
            material: self.material,
        }
    }
}

/// The view of an optional hit record.
pub open spec fn opt_hit_view(o: Option<HitRecord>) -> Option<HitV> {
    match o {
        Some(h) => Some(h@),
        None => None,
    }
}

impl HitRecord {
    /// Assembles a record, storing the outward normal as given when the
    /// front face was hit and its negation otherwise, so that the stored
    /// normal always points against the incoming ray.
    pub fn from(p: Point3, normal: Vec3, material: Material, t: i64, front_face: bool) -> (r:
        HitRecord)
        requires
            -i64::MAX <= normal@.x,
            -i64::MAX <= normal@.y,
            -i64::MAX <= normal@.z,
        ensures
            r@.p == p@,
            r@.t == t as int,
            r@.front_face == front_face,
            r@.material == material,
            r@.normal == (if front_face {
                normal@
            } else {
                vneg(normal@)
            }),
    {
        let stored: Vec3 = if front_face {
            normal
        } else {
            normal.neg()
        };
        HitRecord { p, normal: stored, material, t, front_face }
    }

    /// Whether the ray approaches from outside: true when the ray direction
    /// and the outward normal point against each other.
    pub fn get_outward_normal(r: &Ray, outward_normal: Vec3) -> (b: bool)
        ensures
            b == (vdot(r@.direction, outward_normal@) < 0),
    {
        crate::vec3::dot_wide(&r.direction, &outward_normal) < 0
    }
}

/// Mathematical view of a sphere.
pub struct SphereV {
    pub center: V3,
    pub radius: int,
    pub material: Material,
}

/// A well-formed sphere: center inside the scene cube, positive radius no
/// larger than the cube.
pub open spec fn sphere_wf(s: SphereV) -> bool {
    &&& v3_bounded(s.center, coord_limit())
    &&& 1 <= s.radius <= coord_limit()
}

/// A sphere, owning its center, radius and material.
#[derive(Clone, Copy, Debug, PartialEq, Eq, Structural)]
pub struct Sphere {
    pub center: Point3,
    pub radius: i64,
    pub material: Material,
}

impl View for Sphere {
    type V = SphereV;

    open spec fn view(&self) -> SphereV {
        SphereV { center: self.center@, radius: self.radius as int, material: self.material }
    }
}

impl Sphere {
    /// Builds a sphere from its center, radius and material.
    pub fn from(center: Point3, radius: i64, material: Material) -> (s: Sphere)
        requires
            v3_bounded(center@, coord_limit()),
            1 <= radius <= coord_limit(),
        ensures
            s@ == (SphereV { center: center@, radius: radius as int, material }),
            sphere_wf(s@),
    {
        Sphere { center, radius, material }
    }
}

/// `direction . direction`: the quadratic's leading coefficient.
pub open spec fn sphere_a(r: RayV) -> int {
    vdot(r.direction, r.direction)
}

/// `(origin - center) . direction`: half the quadratic's linear coefficient.
pub open spec fn sphere_half_b(s: SphereV, r: RayV) -> int {
    vdot(vsub(r.origin, s.center), r.direction)
}

/// `|origin - center|^2 - radius^2`: the quadratic's constant coefficient.
pub open spec fn sphere_c(s: SphereV, r: RayV) -> int {
    vdot(vsub(r.origin, s.center), vsub(r.origin, s.center)) - fmul(s.radius, s.radius)
}

/// The (quarter) discriminant `half_b^2 - a*c` of the intersection quadratic.
pub open spec fn sphere_disc(s: SphereV, r: RayV) -> int {
    fmul(sphere_half_b(s, r), sphere_half_b(s, r)) - fmul(sphere_a(r), sphere_c(s, r))
}

/// The record produced for an accepted root: hit point, outward normal
/// scaled from the center, and orientation against the ray.
pub open spec fn sphere_record(s: SphereV, r: RayV, root: int) -> HitV {
    let p: V3 = ray_at_v(r, root);
    let outward: V3 = vdivs(vsub(p, s.center), s.radius);
    let ff: bool = vdot(r.direction, outward) < 0;
    HitV {
        p,
        normal: if ff {
            outward
        } else {
            vneg(outward)
        },
        t: root,
        front_face: ff,
        material: s.material,
    }
}

/// The sphere intersection test: no hit when the discriminant is negative;
/// otherwise the smaller root is taken if it lies strictly inside
/// `(t_min, t_max)`, else the larger root, else no hit.
pub open spec fn sphere_hit_spec(s: SphereV, r: RayV, t_min: int, t_max: int) -> Option<HitV> {
    let a: int = sphere_a(r);
    let half_b: int = sphere_half_b(s, r);
    let disc: int = sphere_disc(s, r);
    if disc < 0 {
        None
    } else {
        let sqrtd: int = fsqrt(disc);
        let root1: int = fdiv(-half_b - sqrtd, a);
        let root2: int = fdiv(-half_b + sqrtd, a);
        let root: int = if t_min < root1 && root1 < t_max {
            root1
        } else {
            root2
        };
        if t_min < root && root < t_max {
            Some(sphere_record(s, r, root))
        } else {
            None
        }
    }
}

/// An accepted hit's parameter always lies strictly inside the window.
pub proof fn lemma_sphere_hit_t_range(s: SphereV, r: RayV, t_min: int, t_max: int)
    ensures
        match sphere_hit_spec(s, r, t_min, t_max) {
            Some(h) => t_min < h.t && h.t < t_max,
            None => true,
        },
{
}


/// Narrowing the upper end of the window filters the result: the narrow
/// window returns exactly the wide window's hit when that hit is close
/// enough, and nothing otherwise. This is what makes the scene's
/// closest-so-far narrowing a correct nearest-hit resolution.
pub proof fn lemma_sphere_hit_narrow(s: SphereV, r: RayV, t_min: int, tm1: int, tm2: int)
    requires
        1 <= sphere_a(r),
        tm1 <= tm2,
    ensures
        sphere_hit_spec(s, r, t_min, tm1) == (match sphere_hit_spec(s, r, t_min, tm2) {
            Some(h) => if h.t < tm1 {
                Some(h)
            } else {
                None
            },
            None => None::<HitV>,
        }),
{
    let a: int = sphere_a(r);
    let half_b: int = sphere_half_b(s, r);
    let disc: int = sphere_disc(s, r);
    if disc >= 0 {
        lemma_sqrt_exists(disc * 1000);
        assert(fsqrt(disc) >= 0);
        let sqrtd: int = fsqrt(disc);
        lemma_fdiv_mono(-half_b - sqrtd, -half_b + sqrtd, a);
    }
}

/// For a sphere of radius `rad` at the origin, the ray from `(0, 0, 5)`
/// toward `(0, 0, -1)` hits at parameter `5 - rad`, on the front face, with
/// stored normal `(0, 0, 1)` — for every radius whose square is exactly
/// representable at this fixed-point scale.
pub proof fn lemma_axis_ray_hits_origin_sphere(rad: int, m: Material)
    requires
        1 <= rad <= 4998,
        (rad * rad) % 1000 == 0,
    ensures
        sphere_hit_spec(
            SphereV { center: v3(0, 0, 0), radius: rad, material: m },
            RayV { origin: v3(0, 0, 5000), direction: v3(0, 0, -1000) },
            1,
            t_limit(),
        ) == Some(
            HitV {
                p: v3(0, 0, rad),
                normal: v3(0, 0, 1000),
                t: 5000 - rad,
                front_face: true,
                material: m,
            },
        ),
{
    let s: SphereV = SphereV { center: v3(0, 0, 0), radius: rad, material: m };
    let r: RayV = RayV { origin: v3(0, 0, 5000), direction: v3(0, 0, -1000) };
    assert(fmul(0, 0) == 0 && fmul(-1000, -1000) == 1000 && fmul(5000, -1000) == -5000 && fmul(
        5000,
        5000,
    ) == 25000 && fmul(-5000, -5000) == 25000 && fmul(-1000, 1000) == -1000) by (nonlinear_arith);
    assert(sphere_a(r) == 1000);
    assert(sphere_half_b(s, r) == -5000);
    let k: int = rad * rad / 1000;
    assert(fmul(rad, rad) == k) by (nonlinear_arith)
        requires
            1 <= rad,
            k == rad * rad / 1000;
    assert(sphere_c(s, r) == 25000 - k);
    lemma_fmul_one(25000 - k);
    assert(sphere_disc(s, r) == k);
    assert(k * 1000 == rad * rad) by (nonlinear_arith)
        requires
            k == rad * rad / 1000,
            (rad * rad) % 1000 == 0;
    assert(0 <= k <= 24981) by (nonlinear_arith)
        requires
            1 <= rad <= 4998,
            k * 1000 == rad * rad;
    assert(is_sqrt_of(k * 1000, rad)) by (nonlinear_arith)
        requires
            1 <= rad,
            k * 1000 == rad * rad;
    lemma_sqrt_floor_agrees(k * 1000, rad);
    assert(fsqrt(k) == rad);
    lemma_fdiv_one(5000 - rad);
    lemma_fdiv_one(5000 + rad);
    let root: int = 5000 - rad;
    assert(1 < root && root < t_limit());
    lemma_fmul_zero(root);
    assert(fmul(root, -1000) == -root) by {
        lemma_fmul_one(root);
        lemma_fmul_neg_left(root, 1000);
    }
    assert(ray_at_v(r, root) == v3(0, 0, rad));
    lemma_fdiv_self(rad);
    assert(fdiv(0, rad) == 0) by (nonlinear_arith)
        requires
            1 <= rad;
    assert(vdivs(vsub(v3(0, 0, rad), v3(0, 0, 0)), rad) == v3(0, 0, 1000));
    assert(vdot(r.direction, v3(0, 0, 1000)) == -1000);
}

/// A tangent ray — one whose discriminant is exactly zero — has a single
/// candidate root `-half_b / a`: the intersection yields that root when it
/// lies inside the window and nothing otherwise, never a second root.
pub proof fn lemma_tangent_single_root(s: SphereV, r: RayV, t_min: int, t_max: int)
    requires
        1 <= sphere_a(r),
        sphere_disc(s, r) == 0,
    ensures
        fdiv(-sphere_half_b(s, r) - fsqrt(0), sphere_a(r)) == fdiv(
            -sphere_half_b(s, r) + fsqrt(0),
            sphere_a(r),
        ),
        sphere_hit_spec(s, r, t_min, t_max) == ({
            let q: int = fdiv(-sphere_half_b(s, r), sphere_a(r));
            if t_min < q && q < t_max {
                Some(sphere_record(s, r, q))
            } else {
                None::<HitV>
            }
        }),
{
    assert(is_sqrt_of(0, 0)) by (nonlinear_arith);
    lemma_sqrt_floor_agrees(0, 0);
    assert(fsqrt(0) == 0);
}

/// A ray starting at the center of a sphere hits it from inside: the
/// reported hit is on the back face (`front_face` is false) and the stored
/// normal is the negation of the outward normal, pointing back inward —
/// here `(0, 0, 1)` against the outward `(0, 0, -1)`.
pub proof fn lemma_center_ray_back_face(rad: int, m: Material)
    requires
        2 <= rad <= 4998,
        (rad * rad) % 1000 == 0,
    ensures
        ({
            let outward: V3 = v3(0, 0, -1000);
            sphere_hit_spec(
                SphereV { center: v3(0, 0, 0), radius: rad, material: m },
                RayV { origin: v3(0, 0, 0), direction: v3(0, 0, -1000) },
                1,
                t_limit(),
            ) == Some(
                HitV {
                    p: v3(0, 0, -rad),
                    normal: vneg(outward),
                    t: rad,
                    front_face: false,
                    material: m,
                },
            )
        }),
{
    let s: SphereV = SphereV { center: v3(0, 0, 0), radius: rad, material: m };
    let r: RayV = RayV { origin: v3(0, 0, 0), direction: v3(0, 0, -1000) };
    assert(fmul(0, 0) == 0 && fmul(-1000, -1000) == 1000 && fmul(0, -1000) == 0) by (
    nonlinear_arith);
    assert(sphere_a(r) == 1000);
    assert(sphere_half_b(s, r) == 0);
    let k: int = rad * rad / 1000;
    assert(fmul(rad, rad) == k) by (nonlinear_arith)
        requires
            1 <= rad,
            k == rad * rad / 1000;
    assert(sphere_c(s, r) == -k);
    lemma_fmul_one(-k);
    lemma_fmul_neg_left(1000, k);
    lemma_fmul_one(k);
    assert(sphere_disc(s, r) == k);
    assert(k * 1000 == rad * rad) by (nonlinear_arith)
        requires
            k == rad * rad / 1000,
            (rad * rad) % 1000 == 0;
    assert(is_sqrt_of(k * 1000, rad)) by (nonlinear_arith)
        requires
            1 <= rad,
            k * 1000 == rad * rad;
    lemma_sqrt_floor_agrees(k * 1000, rad);
    assert(fsqrt(k) == rad);
    lemma_fdiv_one(-rad);
    lemma_fdiv_one(rad);
    assert(!(1 < -rad));
    assert(1 < rad && rad < t_limit());
    let root: int = rad;
    lemma_fmul_zero(root);
    assert(fmul(root, -1000) == -root) by {
        lemma_fmul_one(root);
        lemma_fmul_neg_left(root, 1000);
    }
    assert(ray_at_v(r, root) == v3(0, 0, -rad));
    lemma_fdiv_self(rad);
    assert(fdiv(0, rad) == 0) by (nonlinear_arith)
        requires
            1 <= rad;
    assert(vdivs(vsub(v3(0, 0, -rad), v3(0, 0, 0)), rad) == v3(0, 0, -1000));
    assert(vdot(r.direction, v3(0, 0, -1000)) == 1000);
}

/// A surface that rays can intersect.
pub trait Hittable {
    /// The surface's well-formedness condition.
    spec fn wf(&self) -> bool;

    /// The mathematical result of intersecting a ray with this surface over
    /// the open parameter window `(t_min, t_max)`.
    spec fn spec_hit(&self, r: RayV, t_min: int, t_max: int) -> Option<HitV>;

    /// The intersection test itself.
    fn hit(&self, ray: &Ray, t_min: i64, t_max: i64) -> (res: Option<HitRecord>)
        requires
            self.wf(),
            ray_wf(ray@),
            0 <= t_min,
            t_min <= t_max,
            t_max <= t_limit(),
        ensures
            opt_hit_view(res) == self.spec_hit(ray@, t_min as int, t_max as int),
    ;
}

impl Hittable for Sphere {
    open spec fn wf(&self) -> bool {
        sphere_wf(self@)
    }

    open spec fn spec_hit(&self, r: RayV, t_min: int, t_max: int) -> Option<HitV> {
        sphere_hit_spec(self@, r, t_min, t_max)
    }

    fn hit(&self, ray: &Ray, t_min: i64, t_max: i64) -> (res: Option<HitRecord>) {
        proof {
            lemma_fmul_bound(ray@.direction.x, ray@.direction.x, 2_000_000, 2_000_000);
            lemma_fmul_bound(ray@.direction.y, ray@.direction.y, 2_000_000, 2_000_000);
            lemma_fmul_bound(ray@.direction.z, ray@.direction.z, 2_000_000, 2_000_000);
        }
        let oc: Vec3 = ray.origin.sub(&self.center);
        let a: i64 = Vec3::dot(ray.direction, ray.direction);
        proof {
            lemma_fmul_bound(oc@.x, ray@.direction.x, 4_000_000, 2_000_000);
            lemma_fmul_bound(oc@.y, ray@.direction.y, 4_000_000, 2_000_000);
            lemma_fmul_bound(oc@.z, ray@.direction.z, 4_000_000, 2_000_000);
            lemma_fmul_bound(oc@.x, oc@.x, 4_000_000, 4_000_000);
            lemma_fmul_bound(oc@.y, oc@.y, 4_000_000, 4_000_000);
            lemma_fmul_bound(oc@.z, oc@.z, 4_000_000, 4_000_000);
            lemma_fmul_bound(self@.radius, self@.radius, 2_000_000, 2_000_000);
        }
        let half_b: i64 = Vec3::dot(oc, ray.direction);
        let c: i64 = Vec3::dot(oc, oc) - fixed_mul(self.radius, self.radius);
        proof {
            lemma_fmul_bound(half_b as int, half_b as int, 24_000_000_000, 24_000_000_000);
            lemma_fmul_bound(a as int, c as int, 12_000_000_000, 52_000_000_000);
        }
        let discriminant: i64 = fixed_mul(half_b, half_b) - fixed_mul(a, c);

        if discriminant < 0 {
            return None;
        }

        let sqrtd: i64 = fixed_sqrt(discriminant);
        assert(sqrtd <= 36_000_000_000i64) by (nonlinear_arith)
            requires
                is_sqrt_of(discriminant * 1000, sqrtd as int),
                discriminant <= 1_200_000_000_000_000_000i64;

        proof {
            lemma_fdiv_bound(-half_b - sqrtd, a as int, 60_000_000_000);
            lemma_fdiv_bound(-half_b + sqrtd, a as int, 60_000_000_000);
        }
        // Find the nearest root that lies in the acceptable range.
        let mut root: i64 = fixed_div(-half_b - sqrtd, a);
        if !(t_min < root && root < t_max) {
            root = fixed_div(-half_b + sqrtd, a);
            if !(t_min < root && root < t_max) {
                return None;
            }
        }

        proof {
            lemma_fmul_bound(root as int, ray@.direction.x, 1_000_000_000, 2_000_000);
            lemma_fmul_bound(root as int, ray@.direction.y, 1_000_000_000, 2_000_000);
            lemma_fmul_bound(root as int, ray@.direction.z, 1_000_000_000, 2_000_000);
        }
        let p: Point3 = ray.at(root);
        proof {
            lemma_fdiv_bound(p@.x - self@.center.x, self@.radius, 2_002_000_000_000);
            lemma_fdiv_bound(p@.y - self@.center.y, self@.radius, 2_002_000_000_000);
            lemma_fdiv_bound(p@.z - self@.center.z, self@.radius, 2_002_000_000_000);
        }
        let outward: Vec3 = p.sub(&self.center).div(self.radius);
        let ff: bool = HitRecord::get_outward_normal(ray, outward);
        let rec: HitRecord = HitRecord::from(p, outward, self.material, root, ff);
        Some(rec)
    }
}

} // verus!
