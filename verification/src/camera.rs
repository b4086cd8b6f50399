//! The pinhole camera: immutable viewport geometry, mapping normalized
//! pixel coordinates to world-space rays.

use vstd::prelude::*;

use crate::fixed::{abs_int, fmul, lemma_fmul_bound, lemma_fmul_self_nonneg};
use crate::ray::{ray_wf, Ray, RayV};
use crate::vec3::{v3_bounded, vadd, vscale, vsub, Point3, Vec3, V3};

verus! {

/// Bound on the magnitude of every camera vector component. It is far
/// smaller than the scene cube, so camera rays are always well formed.
pub open spec fn cam_limit() -> int {
    400_000
}

/// Mathematical view of a camera.
pub struct CameraV {
    pub origin: V3,
    pub lower_left_corner: V3,
    pub horizontal: V3,
    pub vertical: V3,
}

/// A well-formed camera: all vectors bounded, the viewport plane parallel
/// to the z axis, and the viewport at least a whole unit away from the
/// origin along z, so that every generated ray has a non-degenerate
/// direction.
pub open spec fn cam_wf(c: CameraV) -> bool {
    &&& v3_bounded(c.origin, cam_limit())
    &&& v3_bounded(c.lower_left_corner, cam_limit())
    &&& v3_bounded(c.horizontal, cam_limit())
    &&& v3_bounded(c.vertical, cam_limit())
    &&& c.horizontal.z == 0
    &&& c.vertical.z == 0
    &&& abs_int(c.lower_left_corner.z - c.origin.z) >= 32
}

/// The ray through viewport coordinates `(u, v)`, both in `[0, 1]`:
/// direction `lower_left_corner + u*horizontal + v*vertical - origin`.
pub open spec fn cam_ray(c: CameraV, u: int, v: int) -> RayV {
    RayV {
        origin: c.origin,
        direction: vsub(
            vadd(vadd(c.lower_left_corner, vscale(u, c.horizontal)), vscale(v, c.vertical)),
            c.origin,
        ),
    }
}

/// Executable pinhole camera.
#[derive(Clone, Copy, Debug, PartialEq, Eq, Structural)]
pub struct Camera {
    pub origin: Point3,
    pub lower_left_corner: Point3,
    pub horizontal: Vec3,
    pub vertical: Vec3,
}

impl View for Camera {
    type V = CameraV;

    open spec fn view(&self) -> CameraV {
        CameraV {
            origin: self.origin@,
            lower_left_corner: self.lower_left_corner@,
            horizontal: self.horizontal@,
            vertical: self.vertical@,
        }
    }
}

impl Camera {
    /// The standard camera: 16:9 viewport of height 2 at focal length 1,
    /// centered on the origin, looking along the negative z axis.
    pub fn new() -> (c: Camera)
        ensures
            cam_wf(c@),
            c@ == (CameraV {
                origin: V3 { x: 0, y: 0, z: 0 },
                lower_left_corner: V3 { x: -1777, y: -1000, z: -1000 },
                horizontal: V3 { x: 3555, y: 0, z: 0 },
                vertical: V3 { x: 0, y: 2000, z: 0 },
            }),
    {
        Camera {
            origin: Vec3::from(0, 0, 0),
            lower_left_corner: Vec3::from(-1777, -1000, -1000),
            horizontal: Vec3::from(3555, 0, 0),
            vertical: Vec3::from(0, 2000, 0),
        }
    }

    /// Builds a camera from explicit viewport geometry.
    pub fn from(origin: Point3, lower_left_corner: Point3, horizontal: Vec3, vertical: Vec3) -> (c:
        Camera)
        requires
            cam_wf(
                CameraV {
                    origin: origin@,
                    lower_left_corner: lower_left_corner@,
                    horizontal: horizontal@,
                    vertical: vertical@,
                },
            ),
        ensures
            c@ == (CameraV {
                origin: origin@,
                lower_left_corner: lower_left_corner@,
                horizontal: horizontal@,
                vertical: vertical@,
            }),
            cam_wf(c@),
    {
        Camera { origin, lower_left_corner, horizontal, vertical }
    }

    /// The world-space ray through viewport coordinates `(u, v)`. The
    /// resulting ray is well formed, so it can be handed to any surface's
    /// intersection test.
    pub fn get_ray(&self, u: i64, v: i64) -> (r: Ray)
        requires
            cam_wf(self@),
            0 <= u <= 1000,
            0 <= v <= 1000,
        ensures
            r@ == cam_ray(self@, u as int, v as int),
            ray_wf(r@),
    {
        proof {
            lemma_fmul_bound(u as int, self@.horizontal.x, 1000, cam_limit());
            lemma_fmul_bound(u as int, self@.horizontal.y, 1000, cam_limit());
            lemma_fmul_bound(u as int, self@.horizontal.z, 1000, cam_limit());
            lemma_fmul_bound(v as int, self@.vertical.x, 1000, cam_limit());
            lemma_fmul_bound(v as int, self@.vertical.y, 1000, cam_limit());
            lemma_fmul_bound(v as int, self@.vertical.z, 1000, cam_limit());
        }
        let uh: Vec3 = self.horizontal.scale(u);
        let vv: Vec3 = self.vertical.scale(v);
        let direction: Vec3 = self.lower_left_corner.add(&uh).add(&vv).sub(&self.origin);
        proof {
            assert(fmul(u as int, 0) == 0 && fmul(v as int, 0) == 0) by (nonlinear_arith);
            let d: V3 = direction@;
            assert(d.z == self@.lower_left_corner.z - self@.origin.z);
            lemma_fmul_self_nonneg(d.x);
            lemma_fmul_self_nonneg(d.y);
            assert(fmul(d.z, d.z) >= 1) by (nonlinear_arith)
                requires
                    abs_int(d.z) >= 32;
        }
        Ray::new(self.origin, direction)
    }
}

} // verus!
