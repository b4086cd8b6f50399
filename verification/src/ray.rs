//! Rays: an origin plus a direction, parametrized by a fixed-point scalar.

use vstd::prelude::*;

use crate::fixed::{abs_int, fmul};
use crate::vec3::{coord_limit, v3_bounded, vadd, vdot, vscale, Point3, Vec3, V3};

verus! {

/// Mathematical view of a ray.
pub struct RayV {
    pub origin: V3,
    pub direction: V3,
}

/// The point reached after parameter `t`: `origin + t * direction`.
pub open spec fn ray_at_v(r: RayV, t: int) -> V3 {
    vadd(r.origin, vscale(t, r.direction))
}

/// A well-formed ray: origin and direction inside the scene cube, and a
/// direction long enough that its fixed-point squared length is non-zero
/// (a zero-length direction is a caller error, never defended against).
pub open spec fn ray_wf(r: RayV) -> bool {
    &&& v3_bounded(r.origin, coord_limit())
    &&& v3_bounded(r.direction, coord_limit())
    &&& 1 <= vdot(r.direction, r.direction)
}

/// Executable ray.
#[derive(Clone, Copy, Debug, PartialEq, Eq, Structural)]
pub struct Ray {
    pub origin: Point3,
    pub direction: Vec3,
}

impl View for Ray {
    type V = RayV;

    open spec fn view(&self) -> RayV {
        RayV { origin: self.origin@, direction: self.direction@ }
    }
}

impl Ray {
    /// Builds a ray from its origin and direction.
    pub fn new(origin: Point3, direction: Vec3) -> (r: Ray)
        ensures
            r@ == (RayV { origin: origin@, direction: direction@ }),
    {
        Ray { origin, direction }
    }

    /// The point at parameter `t` along the ray.
    pub fn at(&self, t: i64) -> (p: Point3)
        requires
            abs_int(fmul(t as int, self@.direction.x)) <= i64::MAX as int,
            abs_int(fmul(t as int, self@.direction.y)) <= i64::MAX as int,
            abs_int(fmul(t as int, self@.direction.z)) <= i64::MAX as int,
            i64::MIN <= self@.origin.x + fmul(t as int, self@.direction.x) <= i64::MAX,
            i64::MIN <= self@.origin.y + fmul(t as int, self@.direction.y) <= i64::MAX,
            i64::MIN <= self@.origin.z + fmul(t as int, self@.direction.z) <= i64::MAX,
        ensures
            p@ == ray_at_v(self@, t as int),
    {
        let step: Vec3 = self.direction.scale(t);
        self.origin.add(&step)
    }
}

} // verus!
