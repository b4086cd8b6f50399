//! Three-component fixed-point vectors, used as points, directions and
//! colors, together with their mathematical model `V3` over unbounded
//! integers.

use vstd::prelude::*;
use rand::Rng;

use crate::fixed::{
    abs_int, div_nonneg, fdiv, fixed_div, fixed_mul, fixed_sqrt, fmul, fsqrt, is_sqrt_of,
    lemma_fdiv_bound, lemma_fmul_bound, lemma_fmul_neg_left, lemma_fmul_self_nonneg,
    lemma_sqrt_floor_agrees, mag64,
};

verus! {

/// Largest coordinate magnitude (in fixed-point units) a well-formed scene
/// may use: two million thousandths, i.e. real magnitude 2000. Keeping scene
/// geometry inside this cube lets every intermediate of the intersection
/// arithmetic fit in an `i64`.
pub open spec fn coord_limit() -> int {
    2_000_000
}

/// Mathematical view of a vector: three unbounded integers, each counting
/// thousandths.
pub struct V3 {
    pub x: int,
    pub y: int,
    pub z: int,
}

/// Shorthand constructor for the mathematical view.
pub open spec fn v3(x: int, y: int, z: int) -> V3 {
    V3 { x, y, z }
}

/// Every component has magnitude at most `b`.
pub open spec fn v3_bounded(v: V3, b: int) -> bool {
    &&& abs_int(v.x) <= b
    &&& abs_int(v.y) <= b
    &&& abs_int(v.z) <= b
}

pub open spec fn vadd(a: V3, b: V3) -> V3 {
    V3 { x: a.x + b.x, y: a.y + b.y, z: a.z + b.z }
}

pub open spec fn vsub(a: V3, b: V3) -> V3 {
    V3 { x: a.x - b.x, y: a.y - b.y, z: a.z - b.z }
}

pub open spec fn vneg(a: V3) -> V3 {
    V3 { x: -a.x, y: -a.y, z: -a.z }
}

/// Component-wise fixed-point product.
pub open spec fn vmul(a: V3, b: V3) -> V3 {
    V3 { x: fmul(a.x, b.x), y: fmul(a.y, b.y), z: fmul(a.z, b.z) }
}

/// Fixed-point scaling by the scalar `k`.
pub open spec fn vscale(k: int, a: V3) -> V3 {
    V3 { x: fmul(k, a.x), y: fmul(k, a.y), z: fmul(k, a.z) }
}

/// Fixed-point division by the scalar `k`.
pub open spec fn vdivs(a: V3, k: int) -> V3 {
    V3 { x: fdiv(a.x, k), y: fdiv(a.y, k), z: fdiv(a.z, k) }
}

/// Fixed-point dot product.
pub open spec fn vdot(a: V3, b: V3) -> int {
    fmul(a.x, b.x) + fmul(a.y, b.y) + fmul(a.z, b.z)
}

/// Fixed-point cross product.
pub open spec fn vcross(a: V3, b: V3) -> V3 {
    V3 {
        x: fmul(a.y, b.z) - fmul(a.z, b.y),
        y: fmul(a.z, b.x) - fmul(a.x, b.z),
        z: fmul(a.x, b.y) - fmul(a.y, b.x),
    }
}

/// Fixed-point length: the square root of the squared length.
pub open spec fn vlen(a: V3) -> int {
    fsqrt(vdot(a, a))
}

/// The vector scaled to unit length (rounded toward zero).
pub open spec fn vunit(a: V3) -> V3 {
    vdivs(a, vlen(a))
}

/// A color whose channels all lie in the unit interval `[0, 1]`.
pub open spec fn color_01(c: V3) -> bool {
    &&& 0 <= c.x <= 1000
    &&& 0 <= c.y <= 1000
    &&& 0 <= c.z <= 1000
}

/// Negating a vector negates its dot product with any other vector.
pub proof fn lemma_vdot_neg_left(a: V3, b: V3)
    ensures
        vdot(vneg(a), b) == -vdot(a, b),
        vdot(a, vneg(b)) == -vdot(a, b),
{
    lemma_fmul_neg_left(a.x, b.x);
    lemma_fmul_neg_left(a.y, b.y);
    lemma_fmul_neg_left(a.z, b.z);
}

/// A vector of squared length at least one has positive fixed-point length.
pub proof fn lemma_vlen_pos(a: V3)
    requires
        1 <= vdot(a, a),
    ensures
        vlen(a) >= 1,
        is_sqrt_of(vdot(a, a) * 1000, vlen(a)),
{
    let n: int = vdot(a, a) * 1000;
    assert(n >= 1000);
    crate::fixed::lemma_sqrt_exists(n);
    if crate::fixed::sqrt_floor(n) == 0 {
        assert(is_sqrt_of(n, 0));
        assert(n < (0int + 1) * (0int + 1));
        assert(false);
    }
}

/// A squared length is never negative.
pub proof fn lemma_vdot_self_nonneg(a: V3)
    ensures
        vdot(a, a) >= 0,
{
    lemma_fmul_self_nonneg(a.x);
    lemma_fmul_self_nonneg(a.y);
    lemma_fmul_self_nonneg(a.z);
}

/// Clamp of `x` into `[lo, hi]` (for `lo <= hi`).
pub open spec fn clamp_spec(x: int, lo: int, hi: int) -> int {
    if x < lo {
        lo
    } else if x > hi {
        hi
    } else {
        x
    }
}

/// One output channel: average the accumulated channel over `n` samples,
/// gamma-correct with a square root, clamp to `[0, 0.999]` and scale to an
/// integer in `[0, 255]`.
pub open spec fn quant_channel(comp: int, n: int) -> int {
    clamp_spec(fsqrt(comp / n), 0, 999) * 256 / 1000
}

/// A quantized channel always lies in `[0, 255]`.
pub proof fn lemma_quant_channel_range(comp: int, n: int)
    ensures
        0 <= quant_channel(comp, n) <= 255,
{
    let c: int = clamp_spec(fsqrt(comp / n), 0, 999);
    assert(0 <= c <= 999);
    assert(0 <= c * 256 <= 255744) by (nonlinear_arith)
        requires
            0 <= c <= 999;
}

/// Quantizing a pure white accumulation — `n` samples of exactly `(1,1,1)` —
/// yields channel value 255, and a pure black one yields 0, for every
/// positive sample count.
pub proof fn lemma_quant_round_trip(n: int)
    requires
        1 <= n,
    ensures
        quant_channel(n * 1000, n) == 255,
        quant_channel(0, n) == 0,
{
    assert(n * 1000 / n == 1000) by (nonlinear_arith)
        requires
            1 <= n;
    assert(0int / n == 0) by (nonlinear_arith)
        requires
            1 <= n;
    assert(is_sqrt_of(1000int * 1000, 1000)) by (nonlinear_arith);
    lemma_sqrt_floor_agrees(1000int * 1000, 1000);
    assert(fsqrt(1000) == 1000);
    assert(is_sqrt_of(0, 0)) by (nonlinear_arith);
    lemma_sqrt_floor_agrees(0, 0);
    assert(fsqrt(0) == 0);
    assert(clamp_spec(1000, 0, 999) == 999);
    assert(999int * 256 / 1000 == 255) by (nonlinear_arith);
    assert(clamp_spec(0, 0, 999) == 0);
    assert(0int * 256 / 1000 == 0) by (nonlinear_arith);
}

/// A point in space, in fixed-point thousandths.
pub type Point3 = Vec3;

/// A color; channels conventionally lie in `[0, 1000]` before quantization.
pub type Color = Vec3;

/// Executable three-component vector.
#[derive(Clone, Copy, Debug, PartialEq, Eq, Structural)]
pub struct Vec3 {
    pub x: i64,
    pub y: i64,
    pub z: i64,
}

impl View for Vec3 {
    type V = V3;

    open spec fn view(&self) -> V3 {
        V3 { x: self.x as int, y: self.y as int, z: self.z as int }
    }
}

/// Relies on `rand::thread_rng` and `rand::Rng::gen_range`: returns a value
/// drawn from the half-open range `lo..hi`. `gen_range` panics only on an
/// empty range, which the precondition excludes.
#[verifier::external_body]
fn rand_range_i64(lo: i64, hi: i64) -> (r: i64)
    requires
        lo < hi,
    ensures
        lo <= r < hi,
{
    rand::thread_rng().gen_range(lo..hi)
}

/// Wide fixed-point dot product: exact in an `i128`, with no precondition.
pub fn dot_wide(a: &Vec3, b: &Vec3) -> (r: i128)
    ensures
        r as int == vdot(a@, b@),
{
    proof {
        lemma_fmul_bound(a.x as int, b.x as int, 0x8000000000000000, 0x8000000000000000);
        lemma_fmul_bound(a.y as int, b.y as int, 0x8000000000000000, 0x8000000000000000);
        lemma_fmul_bound(a.z as int, b.z as int, 0x8000000000000000, 0x8000000000000000);
    }
    let px: i128 = fmul_wide(a.x, b.x);
    let py: i128 = fmul_wide(a.y, b.y);
    let pz: i128 = fmul_wide(a.z, b.z);
    px + py + pz
}

/// Full-width fixed-point product of two `i64` values.
fn fmul_wide(a: i64, b: i64) -> (r: i128)
    ensures
        r as int == fmul(a as int, b as int),
{
    let ma: u128 = mag64(a) as u128;
    let mb: u128 = mag64(b) as u128;
    assert(ma * mb <= 0x40000000000000000000000000000000int) by (nonlinear_arith)
        requires
            ma <= 0x8000000000000000u128,
            mb <= 0x8000000000000000u128;
    let p: u128 = (ma * mb) / 1000;
    if (a < 0) != (b < 0) {
        -(p as i128)
    } else {
        p as i128
    }
}

impl Default for Vec3 {
    /// The zero vector.
    fn default() -> (r: Vec3)
        ensures
            r@ == v3(0, 0, 0),
    {
        Vec3::new()
    }
}

impl Vec3 {
    /// The zero vector (also the color black).
    pub fn new() -> (r: Vec3)
        ensures
            r@ == v3(0, 0, 0),
    {
        Vec3 { x: 0, y: 0, z: 0 }
    }

    /// Builds a vector from its three components.
    pub fn from(x: i64, y: i64, z: i64) -> (r: Vec3)
        ensures
            r@ == v3(x as int, y as int, z as int),
    {
        Vec3 { x, y, z }
    }

    /// Component-wise sum.
    pub fn add(&self, other: &Vec3) -> (r: Vec3)
        requires
            i64::MIN <= self@.x + other@.x <= i64::MAX,
            i64::MIN <= self@.y + other@.y <= i64::MAX,
            i64::MIN <= self@.z + other@.z <= i64::MAX,
        ensures
            r@ == vadd(self@, other@),
    {
        Vec3 { x: self.x + other.x, y: self.y + other.y, z: self.z + other.z }
    }

    /// Component-wise difference.
    pub fn sub(&self, other: &Vec3) -> (r: Vec3)
        requires
            i64::MIN <= self@.x - other@.x <= i64::MAX,
            i64::MIN <= self@.y - other@.y <= i64::MAX,
            i64::MIN <= self@.z - other@.z <= i64::MAX,
        ensures
            r@ == vsub(self@, other@),
    {
        Vec3 { x: self.x - other.x, y: self.y - other.y, z: self.z - other.z }
    }

    /// Component-wise negation.
    pub fn neg(&self) -> (r: Vec3)
        requires
            i64::MIN < self@.x,
            i64::MIN < self@.y,
            i64::MIN < self@.z,
        ensures
            r@ == vneg(self@),
    {
        Vec3 { x: -self.x, y: -self.y, z: -self.z }
    }

    /// Component-wise fixed-point product (used for color attenuation).
    pub fn mul(&self, other: &Vec3) -> (r: Vec3)
        requires
            abs_int(fmul(self@.x, other@.x)) <= i64::MAX as int,
            abs_int(fmul(self@.y, other@.y)) <= i64::MAX as int,
            abs_int(fmul(self@.z, other@.z)) <= i64::MAX as int,
        ensures
            r@ == vmul(self@, other@),
    {
        Vec3 {
            x: fixed_mul(self.x, other.x),
            y: fixed_mul(self.y, other.y),
            z: fixed_mul(self.z, other.z),
        }
    }

    /// Fixed-point scaling by a scalar.
    pub fn scale(&self, k: i64) -> (r: Vec3)
        requires
            abs_int(fmul(k as int, self@.x)) <= i64::MAX as int,
            abs_int(fmul(k as int, self@.y)) <= i64::MAX as int,
            abs_int(fmul(k as int, self@.z)) <= i64::MAX as int,
        ensures
            r@ == vscale(k as int, self@),
    {
        Vec3 { x: fixed_mul(k, self.x), y: fixed_mul(k, self.y), z: fixed_mul(k, self.z) }
    }

    /// Fixed-point division by a scalar.
    pub fn div(&self, k: i64) -> (r: Vec3)
        requires
            k != 0,
            abs_int(fdiv(self@.x, k as int)) <= i64::MAX as int,
            abs_int(fdiv(self@.y, k as int)) <= i64::MAX as int,
            abs_int(fdiv(self@.z, k as int)) <= i64::MAX as int,
        ensures
            r@ == vdivs(self@, k as int),
    {
        Vec3 { x: fixed_div(self.x, k), y: fixed_div(self.y, k), z: fixed_div(self.z, k) }
    }

    /// Squared length.
    pub fn length_squared(&self) -> (r: i64)
        requires
            vdot(self@, self@) <= i64::MAX as int,
        ensures
            r as int == vdot(self@, self@),
            r >= 0,
    {
        proof {
            lemma_vdot_self_nonneg(self@);
        }
        dot_wide(self, self) as i64
    }

    /// Length: square root of the squared length.
    pub fn length(&self) -> (r: i64)
        requires
            vdot(self@, self@) <= i64::MAX as int,
        ensures
            r as int == vlen(self@),
            r >= 0,
    {
        fixed_sqrt(self.length_squared())
    }

    /// Fixed-point dot product.
    pub fn dot(first: Vec3, second: Vec3) -> (r: i64)
        requires
            i64::MIN <= vdot(first@, second@) <= i64::MAX,
        ensures
            r as int == vdot(first@, second@),
    {
        dot_wide(&first, &second) as i64
    }

    /// Fixed-point cross product.
    pub fn cross(&self, other: Vec3) -> (r: Vec3)
        requires
            v3_bounded(self@, 1_000_000_000),
            v3_bounded(other@, 1_000_000_000),
        ensures
            r@ == vcross(self@, other@),
    {
        proof {
            lemma_fmul_bound(self@.y, other@.z, 1_000_000_000, 1_000_000_000);
            lemma_fmul_bound(self@.z, other@.y, 1_000_000_000, 1_000_000_000);
            lemma_fmul_bound(self@.z, other@.x, 1_000_000_000, 1_000_000_000);
            lemma_fmul_bound(self@.x, other@.z, 1_000_000_000, 1_000_000_000);
            lemma_fmul_bound(self@.x, other@.y, 1_000_000_000, 1_000_000_000);
            lemma_fmul_bound(self@.y, other@.x, 1_000_000_000, 1_000_000_000);
        }
        Vec3 {
            x: fixed_mul(self.y, other.z) - fixed_mul(self.z, other.y),
            y: fixed_mul(self.z, other.x) - fixed_mul(self.x, other.z),
            z: fixed_mul(self.x, other.y) - fixed_mul(self.y, other.x),
        }
    }

    /// The vector scaled to unit length (rounded toward zero).
    pub fn unit_vector(&self) -> (r: Vec3)
        requires
            1 <= vdot(self@, self@) <= i64::MAX as int,
            v3_bounded(self@, 1_000_000_000_000),
        ensures
            r@ == vunit(self@),
    {
        let l: i64 = self.length();
        proof {
            lemma_vlen_pos(self@);
            lemma_fdiv_bound(self@.x, l as int, 1_000_000_000_000);
            lemma_fdiv_bound(self@.y, l as int, 1_000_000_000_000);
            lemma_fdiv_bound(self@.z, l as int, 1_000_000_000_000);
        }
        self.div(l)
    }

    /// Clamps `x` into `[min, max]`.
    pub fn clamp(x: i64, min: i64, max: i64) -> (r: i64)
        ensures
            r as int == clamp_spec(x as int, min as int, max as int),
    {
        if x < min {
            return min;
        }
        if x > max {
            return max;
        }
        x
    }

    /// Turns an accumulated color into a discrete RGB triple: average over
    /// `samples_per_pixel`, gamma-correct with a square root per channel,
    /// clamp, and scale to `[0, 255]`.
    pub fn quantize(&self, samples_per_pixel: i64) -> (rgb: (u8, u8, u8))
        requires
            1 <= samples_per_pixel,
            0 <= self@.x,
            0 <= self@.y,
            0 <= self@.z,
        ensures
            rgb.0 as int == quant_channel(self@.x, samples_per_pixel as int),
            rgb.1 as int == quant_channel(self@.y, samples_per_pixel as int),
            rgb.2 as int == quant_channel(self@.z, samples_per_pixel as int),
    {
        let r: u8 = Self::quant_one(self.x, samples_per_pixel);
        let g: u8 = Self::quant_one(self.y, samples_per_pixel);
        let b: u8 = Self::quant_one(self.z, samples_per_pixel);
        (r, g, b)
    }

    /// Quantizes one accumulated channel.
    fn quant_one(comp: i64, n: i64) -> (q: u8)
        requires
            1 <= n,
            0 <= comp,
        ensures
            q as int == quant_channel(comp as int, n as int),
    {
        let avg: i64 = div_nonneg(comp, n);
        let gamma: i64 = fixed_sqrt(avg);
        let clamped: i64 = Self::clamp(gamma, 0, 999);
        let scaled: i64 = div_nonneg(clamped * 256, 1000);
        proof {
            lemma_quant_channel_range(comp as int, n as int);
        }
        scaled as u8
    }

    /// A vector with three independent uniform components in `[min, max)`.
    pub fn random(min: i64, max: i64) -> (r: Vec3)
        requires
            min < max,
        ensures
            min <= r@.x < max,
            min <= r@.y < max,
            min <= r@.z < max,
    {
        Vec3 {
            x: rand_range_i64(min, max),
            y: rand_range_i64(min, max),
            z: rand_range_i64(min, max),
        }
    }

    /// Rejection-samples a point strictly inside the unit sphere. The number
    /// of draws is bounded; if every draw is rejected (vanishingly rare) a
    /// fixed interior point is returned.
    pub fn random_in_unit_sphere() -> (r: Vec3)
        ensures
            vdot(r@, r@) < 1000,
            v3_bounded(r@, 1000),
    {
        let mut tries: u64 = 0;
        while tries < 32
            decreases 32 - tries,
        {
            let p: Vec3 = Vec3::random(-1000, 1000);
            let lsq: i128 = dot_wide(&p, &p);
            if lsq < 1000 {
                return p;
            }
            tries = tries + 1;
        }
        let fallback: Vec3 = Vec3 { x: 0, y: 0, z: 500 };
        assert(fmul(0, 0) == 0 && fmul(500, 500) == 250) by (nonlinear_arith);
        fallback
    }

    /// A point in the unit sphere scaled to (fixed-point) unit length; falls
    /// back to a fixed axis direction if the sample is too short to scale.
    pub fn random_unit_vector() -> (r: Vec3)
        ensures
            v3_bounded(r@, 1_000_000),
    {
        let p: Vec3 = Self::random_in_unit_sphere();
        let lsq: i128 = dot_wide(&p, &p);
        if lsq >= 1 {
            let u: Vec3 = p.unit_vector();
            proof {
                lemma_vlen_pos(p@);
                lemma_fdiv_bound(p@.x, vlen(p@), 1000);
                lemma_fdiv_bound(p@.y, vlen(p@), 1000);
                lemma_fdiv_bound(p@.z, vlen(p@), 1000);
            }
            u
        } else {
            Vec3 { x: 0, y: 0, z: 1000 }
        }
    }

    /// A point in the unit sphere, flipped if needed so that it lies in the
    /// hemisphere around `normal`.
    pub fn random_in_hemisphere(normal: Vec3) -> (r: Vec3)
        ensures
            vdot(r@, normal@) >= 0,
            vdot(r@, r@) < 1000,
            v3_bounded(r@, 1000),
    {
        let in_unit_sphere: Vec3 = Self::random_in_unit_sphere();
        let d: i128 = dot_wide(&in_unit_sphere, &normal);
        if d > 0 {
            in_unit_sphere
        } else {
            proof {
                lemma_vdot_neg_left(in_unit_sphere@, normal@);
                lemma_vdot_neg_left(in_unit_sphere@, in_unit_sphere@);
                lemma_vdot_neg_left(vneg(in_unit_sphere@), in_unit_sphere@);
            }
            in_unit_sphere.neg()
        }
    }
}

} // verus!
