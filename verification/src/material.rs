//! Materials: a closed set of scatter policies, dispatched by `match`.

use vstd::prelude::*;

use crate::ray::{ray_wf, Ray};
use crate::sphere::HitRecord;
use crate::vec3::{coord_limit, dot_wide, v3, v3_bounded, vdot, Color, Vec3};

verus! {

/// A scatter policy. The only policy is the Lambertian-like diffuse one:
/// bounce into the hemisphere above the surface normal and keep half the
/// energy in every channel.
#[derive(Clone, Copy, Debug, PartialEq, Eq, Structural)]
pub enum Material {
    Diffuse,
}

impl Material {
    /// The deterministic part of the diffuse policy: given an already
    /// sampled bounce direction, either scatter — half attenuation per
    /// channel, a new ray from the hit point along that direction — or
    /// absorb. Absorption happens exactly when the hit point lies outside
    /// the scene cube or the direction is too short to be usable.
    pub fn scatter_with(&self, rec: &HitRecord, direction: Vec3) -> (res: Option<(Color, Ray)>)
        requires
            v3_bounded(direction@, 1000),
        ensures
            res is Some <==> (v3_bounded(rec@.p, coord_limit()) && 1 <= vdot(
                direction@,
                direction@,
            )),
            match res {
                Some((attenuation, scattered)) => {
                    &&& attenuation@ == v3(500, 500, 500)
                    &&& scattered@.origin == rec@.p
                    &&& scattered@.direction == direction@
                    &&& ray_wf(scattered@)
                },
                None => true,
            },
    {
        match self {
            Material::Diffuse => {
                let in_cube: bool = rec.p.x >= -2_000_000 && rec.p.x <= 2_000_000
                    && rec.p.y >= -2_000_000 && rec.p.y <= 2_000_000 && rec.p.z >= -2_000_000
                    && rec.p.z <= 2_000_000;
                let usable: bool = dot_wide(&direction, &direction) >= 1;
                if in_cube && usable {
                    let attenuation: Color = Vec3::from(500, 500, 500);
                    Some((attenuation, Ray::new(rec.p, direction)))
                } else {
                    None
                }
            },
        }
    }

    /// Proposes an attenuation and a scattered ray for a hit, or signals
    /// absorption with `None`.
    ///
    /// The bounce direction is sampled from the hemisphere above the stored
    /// normal, so no particular outcome is promised; whatever is returned
    /// satisfies: the attenuation is exactly one half per channel, and the
    /// scattered ray is well formed, starts at the hit point, and leaves
    /// into the hemisphere around the stored normal.
    pub fn scatter(&self, r_in: &Ray, rec: &HitRecord) -> (res: Option<(Color, Ray)>)
        ensures
            res is Some ==> v3_bounded(rec@.p, coord_limit()),
            match res {
                Some((attenuation, scattered)) => {
                    &&& attenuation@ == v3(500, 500, 500)
                    &&& scattered@.origin == rec@.p
                    &&& ray_wf(scattered@)
                    &&& vdot(scattered@.direction, rec@.normal) >= 0
                    &&& v3_bounded(scattered@.direction, 1000)
                },
                None => true,
            },
    {
        match self {
            Material::Diffuse => {
                let direction: Vec3 = Vec3::random_in_hemisphere(rec.normal);
                self.scatter_with(rec, direction)
            },
        }
    }
}

} // verus!
