//! Three-component vectors over fixed-point scalars, used both as points
//! and as colors.  Every operation's result is stated exactly over the
//! mathematical integers; the spec-level model of a vector is the triple
//! of its components.

use vstd::prelude::*;
use crate::fixed::{
    spec_tdiv, spec_isqrt, sabs, mul_fp, tdiv_i128, isqrt_u128, lemma_mul_le, lemma_tdiv_fits,
    lemma_isqrt_bounds, lemma_tdiv_error, FP_ONE,
};
use crate::rng::rng_range;

verus! {

/// Scene geometry is kept within this many fixed-point units of the
/// origin (1024 spatial units), which keeps every intermediate product
/// of the intersection arithmetic inside `i64`.
pub const COORD_LIMIT: i64 = 0x400_0000;

/// A vector whose largest component magnitude is below this threshold is
/// treated as zero when choosing scatter directions (about 0.004 units,
/// the fixed-point analogue of the usual floating-point epsilon).
pub const NEAR_ZERO_EPS: i64 = 256;

#[derive(Clone, Copy, PartialEq, Eq, Structural, Debug)]
pub struct Vec3 {
    pub x: i64,
    pub y: i64,
    pub z: i64,
}

/// Points and colors share the vector representation.
pub type Point3 = Vec3;
pub type Color = Vec3;

/// Componentwise sum of spec-level triples.
pub open spec fn add3(a: (int, int, int), b: (int, int, int)) -> (int, int, int) {
    (a.0 + b.0, a.1 + b.1, a.2 + b.2)
}

/// Componentwise difference of spec-level triples.
pub open spec fn sub3(a: (int, int, int), b: (int, int, int)) -> (int, int, int) {
    (a.0 - b.0, a.1 - b.1, a.2 - b.2)
}

/// Componentwise negation of a spec-level triple.
pub open spec fn neg3(a: (int, int, int)) -> (int, int, int) {
    (-a.0, -a.1, -a.2)
}

/// The raw inner product of two triples, in units of `FP_ONE` squared.
pub open spec fn dot3(a: (int, int, int), b: (int, int, int)) -> int {
    a.0 * b.0 + a.1 * b.1 + a.2 * b.2
}

/// Fixed-point scaling of a triple by `t`.
pub open spec fn scale3(a: (int, int, int), t: int) -> (int, int, int) {
    (
        spec_tdiv(a.0 * t, FP_ONE as int),
        spec_tdiv(a.1 * t, FP_ONE as int),
        spec_tdiv(a.2 * t, FP_ONE as int),
    )
}

/// The fixed-point length of a triple: the rounded-down square root of
/// the raw inner product with itself.
pub open spec fn len3(a: (int, int, int)) -> int {
    spec_isqrt(dot3(a, a))
}

/// The normalization of a triple: each component is rescaled by the
/// length (meaningful only for a nonzero triple).
pub open spec fn unit3(a: (int, int, int)) -> (int, int, int) {
    let l = len3(a);
    (
        spec_tdiv(a.0 * FP_ONE as int, l),
        spec_tdiv(a.1 * FP_ONE as int, l),
        spec_tdiv(a.2 * FP_ONE as int, l),
    )
}

/// All three magnitudes lie under the bound.
pub open spec fn bounded3(a: (int, int, int), bound: int) -> bool {
    sabs(a.0) <= bound && sabs(a.1) <= bound && sabs(a.2) <= bound
}

/// Every component's magnitude is below the near-zero threshold.
pub open spec fn near_zero3(a: (int, int, int)) -> bool {
    bounded3(a, NEAR_ZERO_EPS - 1)
}

/// What a random unit-direction sample satisfies: components within one
/// unit, and a length within a few ulps of one.
pub open spec fn unit_sample(s: (int, int, int)) -> bool {
    &&& bounded3(s, FP_ONE as int)
    &&& dot3(s, s) >= 4294574080
    &&& FP_ONE - 4 <= len3(s) <= FP_ONE + 8
}

/// The fixed-point dot product: the raw inner product rescaled by the
/// fixed-point unit.
pub open spec fn spec_dot(a: (int, int, int), b: (int, int, int)) -> int {
    spec_tdiv(dot3(a, b), FP_ONE as int)
}

/// The fixed-point squared length of a triple.
pub open spec fn spec_length_squared(a: (int, int, int)) -> int {
    spec_dot(a, a)
}

/// The squared length of a vector is its dot product with itself —
/// exactly, because it is the very same computation.
pub proof fn lemma_dot_self_is_length_squared(v: Vec3)
    ensures
        spec_length_squared(v.tup()) == spec_dot(v.tup(), v.tup()),
{
}

impl Vec3 {
    /// The spec-level view of a vector: the triple of its components.
    pub open spec fn tup(self) -> (int, int, int) {
        (self.x as int, self.y as int, self.z as int)
    }

    /// A vector that may stand in scene geometry: all components within
    /// the coordinate limit.
    pub open spec fn wf(self) -> bool {
        bounded3(self.tup(), COORD_LIMIT as int)
    }

    /// Every component's magnitude is below the near-zero threshold.
    pub open spec fn spec_near_zero(self) -> bool {
        near_zero3(self.tup())
    }

    pub fn new(x: i64, y: i64, z: i64) -> (r: Vec3)
        ensures
            r == (Vec3 { x, y, z }),
    {
        Vec3 { x, y, z }
    }

    pub fn zeros() -> (r: Vec3)
        ensures
            r == (Vec3 { x: 0, y: 0, z: 0 }),
    {
        Vec3 { x: 0, y: 0, z: 0 }
    }

    pub fn y(&self) -> (r: i64)
        ensures
            r == self.y,
    {
        self.y
    }

    pub fn add(&self, rhs: &Vec3) -> (r: Vec3)
        requires
            sabs(self.x + rhs.x) <= 0x7fff_ffff_ffff_ffff,
            sabs(self.y + rhs.y) <= 0x7fff_ffff_ffff_ffff,
            sabs(self.z + rhs.z) <= 0x7fff_ffff_ffff_ffff,
        ensures
            r.tup() == add3(self.tup(), rhs.tup()),
    {
        Vec3 { x: self.x + rhs.x, y: self.y + rhs.y, z: self.z + rhs.z }
    }

    pub fn sub(&self, rhs: &Vec3) -> (r: Vec3)
        requires
            sabs(self.x - rhs.x) <= 0x7fff_ffff_ffff_ffff,
            sabs(self.y - rhs.y) <= 0x7fff_ffff_ffff_ffff,
            sabs(self.z - rhs.z) <= 0x7fff_ffff_ffff_ffff,
        ensures
            r.tup() == sub3(self.tup(), rhs.tup()),
    {
        Vec3 { x: self.x - rhs.x, y: self.y - rhs.y, z: self.z - rhs.z }
    }

    pub fn neg(&self) -> (r: Vec3)
        requires
            self.x > i64::MIN,
            self.y > i64::MIN,
            self.z > i64::MIN,
        ensures
            r.tup() == neg3(self.tup()),
    {
        Vec3 { x: -self.x, y: -self.y, z: -self.z }
    }

    /// Fixed-point scaling by the scalar `t`.
    pub fn scale(&self, t: i64) -> (r: Vec3)
        requires
            sabs(spec_tdiv(self.x * t, FP_ONE as int)) <= 0x7fff_ffff_ffff_ffff,
            sabs(spec_tdiv(self.y * t, FP_ONE as int)) <= 0x7fff_ffff_ffff_ffff,
            sabs(spec_tdiv(self.z * t, FP_ONE as int)) <= 0x7fff_ffff_ffff_ffff,
        ensures
            r.tup() == scale3(self.tup(), t as int),
    {
        Vec3 { x: mul_fp(self.x, t), y: mul_fp(self.y, t), z: mul_fp(self.z, t) }
    }

    /// The raw inner product, exact over wide integers.
    pub fn dot_wide(&self, rhs: &Vec3) -> (r: i128)
        requires
            bounded3(self.tup(), 0x4000_0000_0000_0000),
            bounded3(rhs.tup(), 0x4000_0000_0000_0000),
        ensures
            r == dot3(self.tup(), rhs.tup()),
    {
        proof {
            lemma_mul_le(self.x as int, rhs.x as int, 0x4000_0000_0000_0000, 0x4000_0000_0000_0000);
            lemma_mul_le(self.y as int, rhs.y as int, 0x4000_0000_0000_0000, 0x4000_0000_0000_0000);
            lemma_mul_le(self.z as int, rhs.z as int, 0x4000_0000_0000_0000, 0x4000_0000_0000_0000);
        }
        let px: i128 = (self.x as i128) * (rhs.x as i128);
        let py: i128 = (self.y as i128) * (rhs.y as i128);
        let pz: i128 = (self.z as i128) * (rhs.z as i128);
        px + py + pz
    }

    /// The fixed-point dot product: the raw inner product rescaled by
    /// `FP_ONE`, truncating.
    pub fn dot(&self, rhs: &Vec3) -> (r: i64)
        requires
            bounded3(self.tup(), 0x40_0000_0000),
            bounded3(rhs.tup(), 0x40_0000_0000),
        ensures
            r == spec_tdiv(dot3(self.tup(), rhs.tup()), FP_ONE as int),
            sabs(r as int) <= 0x3000_0000_0000_0000,
    {
        let raw: i128 = self.dot_wide(rhs);
        proof {
            lemma_mul_le(self.x as int, rhs.x as int, 0x40_0000_0000, 0x40_0000_0000);
            lemma_mul_le(self.y as int, rhs.y as int, 0x40_0000_0000, 0x40_0000_0000);
            lemma_mul_le(self.z as int, rhs.z as int, 0x40_0000_0000, 0x40_0000_0000);
            lemma_tdiv_fits(raw as int, FP_ONE as int, 0x3000_0000_0000_0000);
        }
        let q: i128 = tdiv_i128(raw, 65536);
        q as i64
    }

    /// The squared length: by definition the very same computation as the
    /// dot product of the vector with itself.
    pub fn length_squared(&self) -> (r: i64)
        requires
            bounded3(self.tup(), 0x40_0000_0000),
        ensures
            r == spec_tdiv(dot3(self.tup(), self.tup()), FP_ONE as int),
    {
        self.dot(self)
    }

    /// The fixed-point length.
    pub fn length(&self) -> (r: i64)
        requires
            bounded3(self.tup(), 0x1000_0000_0000_0000),
        ensures
            r == len3(self.tup()),
            r >= 0,
            r * r <= dot3(self.tup(), self.tup()) < (r + 1) * (r + 1),
    {
        let raw: i128 = self.dot_wide(self);
        proof {
            lemma_raw_norm_nonneg(*self);
            lemma_mul_le(self.x as int, self.x as int, 0x1000_0000_0000_0000, 0x1000_0000_0000_0000);
            lemma_mul_le(self.y as int, self.y as int, 0x1000_0000_0000_0000, 0x1000_0000_0000_0000);
            lemma_mul_le(self.z as int, self.z as int, 0x1000_0000_0000_0000, 0x1000_0000_0000_0000);
        }
        let r: u128 = isqrt_u128(raw as u128);
        proof {
            let rr = r as int;
            if rr > 0x4000_0000_0000_0000 {
                lemma_mul_le(rr, rr, r as int, r as int);
                assert(rr * rr > 0x1000_0000_0000_0000_0000_0000_0000_0000) by (nonlinear_arith)
                    requires
                        rr > 0x4000_0000_0000_0000,
                ;
            }
        }
        r as i64
    }

    /// Normalization: each component rescaled by the length.  The result's
    /// components never exceed one fixed-point unit in magnitude, and its
    /// raw squared norm falls at most six ulps short of one.
    pub fn as_unit(&self) -> (r: Vec3)
        requires
            bounded3(self.tup(), 0x1000_0000_0000_0000),
            dot3(self.tup(), self.tup()) >= 1,
        ensures
            r.tup() == unit3(self.tup()),
            bounded3(r.tup(), FP_ONE as int),
            dot3(r.tup(), r.tup()) >= 4294574080,
    {
        let l: i64 = self.length();
        proof {
            lemma_unit_lower(self.tup());
            lemma_comp_sq_le(*self);
            lemma_unit_component(self.x as int, dot3(self.tup(), self.tup()), l as int);
            lemma_unit_component(self.y as int, dot3(self.tup(), self.tup()), l as int);
            lemma_unit_component(self.z as int, dot3(self.tup(), self.tup()), l as int);
        }
        let ux: i128 = tdiv_i128((self.x as i128) * 65536, l as i128);
        let uy: i128 = tdiv_i128((self.y as i128) * 65536, l as i128);
        let uz: i128 = tdiv_i128((self.z as i128) * 65536, l as i128);
        Vec3 { x: ux as i64, y: uy as i64, z: uz as i64 }
    }

    /// True when every component's magnitude is below the near-zero
    /// threshold.
    pub fn near_zero(&self) -> (r: bool)
        requires
            self.x > i64::MIN,
            self.y > i64::MIN,
            self.z > i64::MIN,
        ensures
            r == self.spec_near_zero(),
    {
        let ax: i64 = if self.x < 0 { -self.x } else { self.x };
        let ay: i64 = if self.y < 0 { -self.y } else { self.y };
        let az: i64 = if self.z < 0 { -self.z } else { self.z };
        ax < NEAR_ZERO_EPS && ay < NEAR_ZERO_EPS && az < NEAR_ZERO_EPS
    }

    /// The mirror reflection of `self` about the normal `n`:
    /// `v - 2 (v . n) n`, in fixed point.
    pub fn reflect(&self, n: &Vec3) -> (r: Vec3)
        requires
            bounded3(self.tup(), 2 * FP_ONE as int),
            bounded3(n.tup(), 2 * FP_ONE as int),
        ensures
            r.tup() == spec_reflect(self.tup(), n.tup()),
            bounded3(r.tup(), 0x40_0000),
    {
        let d: i64 = self.dot(n);
        proof {
            lemma_mul_le(self.x as int, n.x as int, 0x20000, 0x20000);
            lemma_mul_le(self.y as int, n.y as int, 0x20000, 0x20000);
            lemma_mul_le(self.z as int, n.z as int, 0x20000, 0x20000);
            lemma_tdiv_fits(dot3(self.tup(), n.tup()), FP_ONE as int, 0xC_0000);
        }
        let k: i64 = 2 * d;
        proof {
            lemma_mul_le(n.x as int, k as int, 0x20000, 0x18_0000);
            lemma_mul_le(n.y as int, k as int, 0x20000, 0x18_0000);
            lemma_mul_le(n.z as int, k as int, 0x20000, 0x18_0000);
            lemma_tdiv_fits(n.x as int * k as int, FP_ONE as int, 0x30_0000);
            lemma_tdiv_fits(n.y as int * k as int, FP_ONE as int, 0x30_0000);
            lemma_tdiv_fits(n.z as int * k as int, FP_ONE as int, 0x30_0000);
        }
        let sx: i64 = mul_fp(n.x, k);
        let sy: i64 = mul_fp(n.y, k);
        let sz: i64 = mul_fp(n.z, k);
        Vec3 { x: self.x - sx, y: self.y - sy, z: self.z - sz }
    }

    /// Each component drawn independently from `[0, FP_ONE)`.
    pub fn random(rng: &mut rand::rngs::StdRng) -> (r: Vec3)
        ensures
            0 <= r.x < FP_ONE,
            0 <= r.y < FP_ONE,
            0 <= r.z < FP_ONE,
    {
        Vec3::random_range(rng, 0, FP_ONE)
    }

    /// Each component drawn independently from `[lo, hi)`.
    pub fn random_range(rng: &mut rand::rngs::StdRng, lo: i64, hi: i64) -> (r: Vec3)
        requires
            lo < hi,
        ensures
            lo <= r.x < hi,
            lo <= r.y < hi,
            lo <= r.z < hi,
    {
        let x: i64 = rng_range(rng, lo, hi);
        let y: i64 = rng_range(rng, lo, hi);
        let z: i64 = rng_range(rng, lo, hi);
        Vec3 { x, y, z }
    }

    /// Rejection-samples a vector strictly inside the unit ball and at
    /// least a quarter unit long, so normalizing it is well conditioned.
    /// The attempt count is bounded so the loop provably terminates; the
    /// (never observed) fallback is a fixed interior vector.
    pub fn random_in_unit_sphere(rng: &mut rand::rngs::StdRng) -> (r: Vec3)
        ensures
            0x1000_0000 <= dot3(r.tup(), r.tup()) < FP_ONE as int * FP_ONE as int,
            bounded3(r.tup(), FP_ONE as int),
    {
        let mut attempts: u32 = 64;
        while attempts > 0
            decreases attempts,
        {
            let p = Vec3::random_range(rng, -65536, 65536);
            let raw: i128 = p.dot_wide(&p);
            if 0x1000_0000 <= raw && raw < 65536 * 65536 {
                return p;
            }
            attempts = attempts - 1;
        }
        Vec3 { x: 32768, y: 32768, z: 0 }
    }

    /// A random direction of (fixed-point) unit length: a unit-ball sample
    /// normalized.  The result's length is one within a few ulps, and in
    /// particular it is viable as a ray direction.
    pub fn random_unit_vector(rng: &mut rand::rngs::StdRng) -> (r: Vec3)
        ensures
            unit_sample(r.tup()),
            dot3(r.tup(), r.tup()) >= 4294574080,
    {
        let p = Vec3::random_in_unit_sphere(rng);
        proof {
            lemma_unit_length_floor(p.tup());
        }
        p.as_unit()
    }
}

/// The 8-bit channel value written for an accumulated channel `c` over
/// `samples` samples: average, gamma-correct with a square root, clamp
/// to just below one, and scale to `[0, 255]`.
pub open spec fn spec_quantize(c: int, samples: int) -> int {
    let avg = c / samples;
    let g = spec_isqrt(avg * 65536);
    let clamped = if g > 65470 {
        65470int
    } else {
        g
    };
    clamped / 256
}

/// One channel of `write_color`.
fn quantize_channel(c: i64, samples: u32) -> (r: u32)
    requires
        samples >= 1,
        0 <= c <= 0x4000_0000_0000,
    ensures
        r == spec_quantize(c as int, samples as int),
        r <= 255,
{
    let avg: u64 = (c as u64) / (samples as u64);
    proof {
        vstd::arithmetic::div_mod::lemma_div_nonincreasing(c as int, samples as int);
    }
    let g: u128 = isqrt_u128((avg as u128) * 65536);
    let gi: u64 = g as u64;
    let clamped: u64 = if gi > 65470 {
        65470
    } else {
        gi
    };
    proof {
        vstd::arithmetic::div_mod::lemma_div_is_ordered(clamped as int, 65470, 256);
    }
    (clamped / 256) as u32
}

impl Vec3 {
    /// The quantized channel triple for this accumulated color: the
    /// integers an image writer emits for one pixel.
    pub fn write_color(&self, samples_per_pixel: u32) -> (r: (u32, u32, u32))
        requires
            samples_per_pixel >= 1,
            0 <= self.x <= 0x4000_0000_0000,
            0 <= self.y <= 0x4000_0000_0000,
            0 <= self.z <= 0x4000_0000_0000,
        ensures
            r.0 == spec_quantize(self.x as int, samples_per_pixel as int),
            r.1 == spec_quantize(self.y as int, samples_per_pixel as int),
            r.2 == spec_quantize(self.z as int, samples_per_pixel as int),
            r.0 <= 255 && r.1 <= 255 && r.2 <= 255,
    {
        (
            quantize_channel(self.x, samples_per_pixel),
            quantize_channel(self.y, samples_per_pixel),
            quantize_channel(self.z, samples_per_pixel),
        )
    }
}

/// A raw squared norm is never negative.
pub proof fn lemma_raw_norm_nonneg(v: Vec3)
    by (nonlinear_arith)
    ensures
        dot3(v.tup(), v.tup()) >= 0,
{
}

/// Negating a triple negates inner products with it, and negating both
/// operands leaves the product unchanged.
pub proof fn lemma_neg_dot(a: (int, int, int), b: (int, int, int))
    by (nonlinear_arith)
    ensures
        dot3(neg3(a), b) == -dot3(a, b),
        dot3(a, neg3(b)) == -dot3(a, b),
        dot3(neg3(a), neg3(b)) == dot3(a, b),
{
}

/// One component's contribution to the squared norm of a normalized
/// triple, bracketed by its exact value plus truncation error.
proof fn lemma_unit_comp_sq(c: int, l: int, f: int, e: int)
    by (nonlinear_arith)
    requires
        l >= 1,
        sabs(c) <= l,
        sabs(e) <= l,
        f * l == c * 65536 - e,
    ensures
        65536 * 65536 * (c * c) - 131072 * (l * l) <= (f * f) * (l * l) <= 65536 * 65536 * (c * c)
            + 131072 * (l * l) + l * l,
{
}

/// A vector whose squared raw norm exceeds three near-zero squares is not
/// near zero.
pub proof fn lemma_viable_not_near_zero(a: (int, int, int))
    requires
        dot3(a, a) > 195075,
    ensures
        !near_zero3(a),
{
    if near_zero3(a) {
        assert(dot3(a, a) <= 195075) by (nonlinear_arith)
            requires
                sabs(a.0) <= 255 && sabs(a.1) <= 255 && sabs(a.2) <= 255,
                dot3(a, a) == a.0 * a.0 + a.1 * a.1 + a.2 * a.2,
        ;
    }
}

/// Normalizing any nonzero vector never loses more than six ulps of
/// squared norm below one: the result's raw squared norm is at least
/// `FP_ONE^2 - 6 FP_ONE`.
pub proof fn lemma_unit_lower(v: (int, int, int))
    requires
        bounded3(v, 0x1000_0000_0000_0000),
        dot3(v, v) >= 1,
    ensures
        dot3(unit3(v), unit3(v)) >= 4294574080,
{
    let s = dot3(v, v);
    let l = spec_isqrt(s);
    lemma_isqrt_bounds(s);
    assert(l >= 1) by (nonlinear_arith)
        requires
            l >= 0,
            s < (l + 1) * (l + 1),
            s >= 1,
    ;
    assert(v.0 * v.0 <= s && v.1 * v.1 <= s && v.2 * v.2 <= s) by (nonlinear_arith)
        requires
            s == v.0 * v.0 + v.1 * v.1 + v.2 * v.2,
    ;
    assert(sabs(v.0) <= l && sabs(v.1) <= l && sabs(v.2) <= l) by (nonlinear_arith)
        requires
            v.0 * v.0 <= s && v.1 * v.1 <= s && v.2 * v.2 <= s,
            s < (l + 1) * (l + 1),
            l >= 0,
    ;
    lemma_tdiv_error(v.0 * 65536, l);
    lemma_tdiv_error(v.1 * 65536, l);
    lemma_tdiv_error(v.2 * 65536, l);
    let u = unit3(v);
    lemma_unit_comp_sq(v.0, l, u.0, v.0 * 65536 - u.0 * l);
    lemma_unit_comp_sq(v.1, l, u.1, v.1 * 65536 - u.1 * l);
    lemma_unit_comp_sq(v.2, l, u.2, v.2 * 65536 - u.2 * l);
    let q = dot3(u, u);
    assert(q * (l * l) == (u.0 * u.0) * (l * l) + (u.1 * u.1) * (l * l) + (u.2 * u.2) * (l * l))
        by (nonlinear_arith)
        requires
            q == u.0 * u.0 + u.1 * u.1 + u.2 * u.2,
    ;
    assert(65536 * 65536 * s == 65536 * 65536 * (v.0 * v.0) + 65536 * 65536 * (v.1 * v.1) + 65536
        * 65536 * (v.2 * v.2)) by (nonlinear_arith)
        requires
            s == v.0 * v.0 + v.1 * v.1 + v.2 * v.2,
    ;
    assert(65536 * 65536 * s >= 65536 * 65536 * (l * l)) by (nonlinear_arith)
        requires
            s >= l * l,
    ;
    assert(q * (l * l) >= 65536 * 65536 * s - 393216 * (l * l));
    assert(q * (l * l) >= (4294967296 - 393216) * (l * l)) by (nonlinear_arith)
        requires
            q * (l * l) >= 65536 * 65536 * s - 393216 * (l * l),
            65536 * 65536 * s >= 65536 * 65536 * (l * l),
    ;
    assert(q >= 4294574080) by (nonlinear_arith)
        requires
            q * (l * l) >= (4294967296 - 393216) * (l * l),
            l >= 1,
    ;
}

/// Normalizing a vector of length at least a quarter unit yields a length
/// within a few ulps of one: four below to eight above (about 1.3e-4).
pub proof fn lemma_unit_length_floor(v: (int, int, int))
    requires
        bounded3(v, 0x1000_0000_0000_0000),
        dot3(v, v) >= 0x1000_0000,
    ensures
        FP_ONE - 4 <= len3(unit3(v)) <= FP_ONE + 8,
        unit_sample(unit3(v)),
{
    let s = dot3(v, v);
    let l = spec_isqrt(s);
    lemma_isqrt_bounds(s);
    lemma_unit_lower(v);
    assert(l >= 16384) by (nonlinear_arith)
        requires
            l >= 0,
            s < (l + 1) * (l + 1),
            s >= 0x1000_0000,
    ;
    assert(v.0 * v.0 <= s && v.1 * v.1 <= s && v.2 * v.2 <= s) by (nonlinear_arith)
        requires
            s == v.0 * v.0 + v.1 * v.1 + v.2 * v.2,
    ;
    assert(sabs(v.0) <= l && sabs(v.1) <= l && sabs(v.2) <= l) by (nonlinear_arith)
        requires
            v.0 * v.0 <= s && v.1 * v.1 <= s && v.2 * v.2 <= s,
            s < (l + 1) * (l + 1),
            l >= 0,
    ;
    lemma_tdiv_error(v.0 * 65536, l);
    lemma_tdiv_error(v.1 * 65536, l);
    lemma_tdiv_error(v.2 * 65536, l);
    let u = unit3(v);
    lemma_unit_comp_sq(v.0, l, u.0, v.0 * 65536 - u.0 * l);
    lemma_unit_comp_sq(v.1, l, u.1, v.1 * 65536 - u.1 * l);
    lemma_unit_comp_sq(v.2, l, u.2, v.2 * 65536 - u.2 * l);
    lemma_unit_component(v.0, s, l);
    lemma_unit_component(v.1, s, l);
    lemma_unit_component(v.2, s, l);
    let q = dot3(u, u);
    assert(q * (l * l) == (u.0 * u.0) * (l * l) + (u.1 * u.1) * (l * l) + (u.2 * u.2) * (l * l))
        by (nonlinear_arith)
        requires
            q == u.0 * u.0 + u.1 * u.1 + u.2 * u.2,
    ;
    assert(65536 * 65536 * s == 65536 * 65536 * (v.0 * v.0) + 65536 * 65536 * (v.1 * v.1) + 65536
        * 65536 * (v.2 * v.2)) by (nonlinear_arith)
        requires
            s == v.0 * v.0 + v.1 * v.1 + v.2 * v.2,
    ;
    assert(65536 * 65536 * s <= 65536 * 65536 * (l * l) + 65536 * 65536 * (2 * l + 1))
        by (nonlinear_arith)
        requires
            s < (l + 1) * (l + 1),
            l >= 1,
    ;
    assert(65536 * 65536 * (2 * l + 1) <= 786432 * (l * l)) by (nonlinear_arith)
        requires
            l >= 16384,
    ;
    assert(q * (l * l) <= 65536 * 65536 * s + 393216 * (l * l) + 3 * (l * l));
    assert(65536 * 65536 * s <= 65536 * 65536 * (l * l) + 786432 * (l * l));
    assert(q * (l * l) <= (4294967296 + 786432 + 393216 + 3) * (l * l)) by (nonlinear_arith)
        requires
            q * (l * l) <= 65536 * 65536 * s + 393216 * (l * l) + 3 * (l * l),
            65536 * 65536 * s <= 65536 * 65536 * (l * l) + 786432 * (l * l),
    ;
    assert(q <= 4296146947) by (nonlinear_arith)
        requires
            q * (l * l) <= (4294967296 + 786432 + 393216 + 3) * (l * l),
            l >= 1,
    ;
    lemma_isqrt_bounds(q);
    let qr = spec_isqrt(q);
    assert(qr >= 65532) by (nonlinear_arith)
        requires
            q < (qr + 1) * (qr + 1),
            q >= 4294574080,
            qr >= 0,
    ;
    assert(qr <= 65544) by (nonlinear_arith)
        requires
            qr * qr <= q,
            q <= 4296146947,
            qr >= 0,
    ;
}

/// Normalizing any vector of length at least one yields a vector of
/// length one, within four fixed-point ulps (about 6e-5).
pub proof fn lemma_unit_length(v: (int, int, int))
    requires
        bounded3(v, 0x1000_0000_0000_0000),
        dot3(v, v) >= 4294967296,
    ensures
        FP_ONE - 4 <= len3(unit3(v)) <= FP_ONE + 4,
{
    let s = dot3(v, v);
    let l = spec_isqrt(s);
    lemma_isqrt_bounds(s);
    assert(l >= 65536) by (nonlinear_arith)
        requires
            l >= 0,
            s < (l + 1) * (l + 1),
            s >= 4294967296,
    ;
    assert(v.0 * v.0 <= s && v.1 * v.1 <= s && v.2 * v.2 <= s) by (nonlinear_arith)
        requires
            s == v.0 * v.0 + v.1 * v.1 + v.2 * v.2,
    ;
    assert(sabs(v.0) <= l && sabs(v.1) <= l && sabs(v.2) <= l) by (nonlinear_arith)
        requires
            v.0 * v.0 <= s && v.1 * v.1 <= s && v.2 * v.2 <= s,
            s < (l + 1) * (l + 1),
            l >= 0,
    ;
    lemma_tdiv_error(v.0 * 65536, l);
    lemma_tdiv_error(v.1 * 65536, l);
    lemma_tdiv_error(v.2 * 65536, l);
    let u = unit3(v);
    let e1 = v.0 * 65536 - u.0 * l;
    let e2 = v.1 * 65536 - u.1 * l;
    let e3 = v.2 * 65536 - u.2 * l;
    lemma_unit_comp_sq(v.0, l, u.0, e1);
    lemma_unit_comp_sq(v.1, l, u.1, e2);
    lemma_unit_comp_sq(v.2, l, u.2, e3);
    let q = dot3(u, u);
    assert(q * (l * l) == (u.0 * u.0) * (l * l) + (u.1 * u.1) * (l * l) + (u.2 * u.2) * (l * l))
        by (nonlinear_arith)
        requires
            q == u.0 * u.0 + u.1 * u.1 + u.2 * u.2,
    ;
    assert(65536 * 65536 * s == 65536 * 65536 * (v.0 * v.0) + 65536 * 65536 * (v.1 * v.1) + 65536
        * 65536 * (v.2 * v.2)) by (nonlinear_arith)
        requires
            s == v.0 * v.0 + v.1 * v.1 + v.2 * v.2,
    ;
    assert(65536 * 65536 * s >= 65536 * 65536 * (l * l)) by (nonlinear_arith)
        requires
            s >= l * l,
    ;
    assert(65536 * 65536 * s <= 65536 * 65536 * (l * l) + 2 * 65536 * 65536 * l)
        by (nonlinear_arith)
        requires
            s < (l + 1) * (l + 1),
            l >= 1,
    ;
    assert(2 * 65536 * 65536 * l <= 131072 * (l * l)) by (nonlinear_arith)
        requires
            l >= 65536,
    ;
    assert((u.0 * u.0) * (l * l) >= 65536 * 65536 * (v.0 * v.0) - 131072 * (l * l));
    assert(q * (l * l) >= 65536 * 65536 * s - 393216 * (l * l));
    assert(q * (l * l) <= 65536 * 65536 * s + 393216 * (l * l) + 3 * (l * l));
    assert(65536 * 65536 * s <= 65536 * 65536 * (l * l) + 131072 * (l * l));
    assert((4294967296 - 393216) * (l * l) <= q * (l * l) <= (4294967296 + 524288 + 3) * (l * l))
        by (nonlinear_arith)
        requires
            q * (l * l) >= 65536 * 65536 * s - 393216 * (l * l),
            q * (l * l) <= 65536 * 65536 * s + 393216 * (l * l) + 3 * (l * l),
            65536 * 65536 * s >= 65536 * 65536 * (l * l),
            65536 * 65536 * s <= 65536 * 65536 * (l * l) + 131072 * (l * l),
    ;
    assert(4294574080 <= q <= 4295491587) by (nonlinear_arith)
        requires
            (4294967296 - 393216) * (l * l) <= q * (l * l) <= (4294967296 + 524288 + 3) * (l * l),
            l >= 1,
    ;
    lemma_isqrt_bounds(q);
    let qr = spec_isqrt(q);
    assert(qr >= 65532) by (nonlinear_arith)
        requires
            q < (qr + 1) * (qr + 1),
            q >= 4294574080,
            qr >= 0,
    ;
    assert(qr <= 65540) by (nonlinear_arith)
        requires
            qr * qr <= q,
            q <= 4295491587,
            qr >= 0,
    ;
}

/// Reflecting about an exactly unit normal flips the normal component of
/// the dot product: `dot(reflect(v, n), n) == -dot(v, n)`, within seven
/// fixed-point ulps of accumulated truncation error (about 1e-4).
pub proof fn lemma_reflect_preserves_dot(v: (int, int, int), n: (int, int, int))
    requires
        bounded3(v, FP_ONE as int),
        bounded3(n, FP_ONE as int),
        dot3(n, n) == 4294967296,
    ensures
        sabs(spec_dot(spec_reflect(v, n), n) + spec_dot(v, n)) <= 7,
{
    let big_r = dot3(v, n);
    let d = spec_tdiv(big_r, 65536);
    let k = 2 * d;
    lemma_tdiv_error(big_r, 65536);
    let e0 = big_r - d * 65536;
    lemma_tdiv_error(n.0 * k, 65536);
    lemma_tdiv_error(n.1 * k, 65536);
    lemma_tdiv_error(n.2 * k, 65536);
    let s0 = spec_tdiv(n.0 * k, 65536);
    let s1 = spec_tdiv(n.1 * k, 65536);
    let s2 = spec_tdiv(n.2 * k, 65536);
    let e1 = n.0 * k - s0 * 65536;
    let e2 = n.1 * k - s1 * 65536;
    let e3 = n.2 * k - s2 * 65536;
    let r = spec_reflect(v, n);
    let rr = dot3(r, n);
    assert(rr == big_r - (s0 * n.0 + s1 * n.1 + s2 * n.2)) by (nonlinear_arith)
        requires
            rr == (v.0 - s0) * n.0 + (v.1 - s1) * n.1 + (v.2 - s2) * n.2,
            big_r == v.0 * n.0 + v.1 * n.1 + v.2 * n.2,
    ;
    assert(s0 * n.0 * 65536 == k * (n.0 * n.0) - e1 * n.0) by (nonlinear_arith)
        requires
            s0 * 65536 == n.0 * k - e1,
    ;
    assert(s1 * n.1 * 65536 == k * (n.1 * n.1) - e2 * n.1) by (nonlinear_arith)
        requires
            s1 * 65536 == n.1 * k - e2,
    ;
    assert(s2 * n.2 * 65536 == k * (n.2 * n.2) - e3 * n.2) by (nonlinear_arith)
        requires
            s2 * 65536 == n.2 * k - e3,
    ;
    assert((s0 * n.0 + s1 * n.1 + s2 * n.2) * 65536 == s0 * n.0 * 65536 + s1 * n.1 * 65536 + s2
        * n.2 * 65536) by (nonlinear_arith);
    assert(k * dot3(n, n) == k * (n.0 * n.0) + k * (n.1 * n.1) + k * (n.2 * n.2))
        by (nonlinear_arith)
        requires
            dot3(n, n) == n.0 * n.0 + n.1 * n.1 + n.2 * n.2,
    ;
    assert((s0 * n.0 + s1 * n.1 + s2 * n.2) * 65536 == k * dot3(n, n) - (e1 * n.0 + e2 * n.1 + e3
        * n.2));
    lemma_mul_le(e1, n.0, 65536, 65536);
    lemma_mul_le(e2, n.1, 65536, 65536);
    lemma_mul_le(e3, n.2, 65536, 65536);
    assert(k * 4294967296 == (2 * big_r - 2 * e0) * 65536) by (nonlinear_arith)
        requires
            k == 2 * d,
            d * 65536 == big_r - e0,
    ;
    assert(sabs(rr + big_r) <= 327680) by (nonlinear_arith)
        requires
            (rr + big_r) * 65536 == 2 * e0 * 65536 + (e1 * n.0 + e2 * n.1 + e3 * n.2),
            sabs(e0) <= 65536,
            sabs(e1 * n.0 + e2 * n.1 + e3 * n.2) <= 3 * 4294967296,
    ;
    lemma_tdiv_error(rr, 65536);
    let fr = spec_tdiv(rr, 65536);
    let er = rr - fr * 65536;
    assert(sabs(fr + d) <= 7) by (nonlinear_arith)
        requires
            (fr + d) * 65536 == (rr + big_r) - er - e0,
            sabs(rr + big_r) <= 327680,
            sabs(er) <= 65536,
            sabs(e0) <= 65536,
    ;
}

/// A vector that is not near zero is viable as a ray direction: some
/// component reaches the threshold, so the raw squared norm reaches
/// `FP_ONE`.
pub proof fn lemma_not_near_zero_viable(v: Vec3)
    requires
        !v.spec_near_zero(),
    ensures
        dot3(v.tup(), v.tup()) >= FP_ONE as int,
{
    lemma_comp_sq_le(v);
    if sabs(v.x as int) >= NEAR_ZERO_EPS {
        assert(v.x as int * v.x as int >= 65536) by (nonlinear_arith)
            requires
                sabs(v.x as int) >= 256,
        ;
    } else if sabs(v.y as int) >= NEAR_ZERO_EPS {
        assert(v.y as int * v.y as int >= 65536) by (nonlinear_arith)
            requires
                sabs(v.y as int) >= 256,
        ;
    } else {
        assert(v.z as int * v.z as int >= 65536) by (nonlinear_arith)
            requires
                sabs(v.z as int) >= 256,
        ;
    }
}

/// Each squared component is at most the raw squared norm.
pub proof fn lemma_comp_sq_le(v: Vec3)
    by (nonlinear_arith)
    ensures
        v.x as int * v.x as int <= dot3(v.tup(), v.tup()),
        v.y as int * v.y as int <= dot3(v.tup(), v.tup()),
        v.z as int * v.z as int <= dot3(v.tup(), v.tup()),
{
}

/// The reflection of `v` about `n`, componentwise in fixed point.
pub open spec fn spec_reflect(v: (int, int, int), n: (int, int, int)) -> (int, int, int) {
    let k = 2 * spec_tdiv(dot3(v, n), FP_ONE as int);
    (
        v.0 - spec_tdiv(n.0 * k, FP_ONE as int),
        v.1 - spec_tdiv(n.1 * k, FP_ONE as int),
        v.2 - spec_tdiv(n.2 * k, FP_ONE as int),
    )
}

/// One normalized component stays within one fixed-point unit: the
/// component magnitude never exceeds the vector's length.
proof fn lemma_unit_component(c: int, s: int, l: int)
    requires
        s >= 1,
        c * c <= s,
        l >= 0,
        l * l <= s < (l + 1) * (l + 1),
    ensures
        l >= 1,
        sabs(spec_tdiv(c * 65536, l)) <= 65536,
{
    assert(l >= 1) by (nonlinear_arith)
        requires
            s >= 1,
            l >= 0,
            s < (l + 1) * (l + 1),
    ;
    assert(sabs(c) <= l) by (nonlinear_arith)
        requires
            c * c <= s < (l + 1) * (l + 1),
            l >= 0,
    ;
    lemma_mul_le(c, 65536, l, 65536);
    lemma_tdiv_fits(c * 65536, l, 65536);
    assert(l * 65536 == 65536 * l) by (nonlinear_arith);
}

} // verus!
