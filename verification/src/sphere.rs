//! Ray-sphere intersection.  The quadratic `a t^2 + 2 half_b t + c = 0`
//! is solved in fixed point; the spec functions below state each step of
//! that computation exactly, and `hit` returns precisely what they
//! describe.  A negative radius flips the outward normal (the hollow
//! sphere convention).

use vstd::prelude::*;
use crate::fixed::{
    spec_tdiv, spec_isqrt, sabs, mul_fp, div_fp, isqrt_u128, lemma_mul_le, lemma_tdiv_fits,
    lemma_tdiv_le, lemma_tdiv_mag_le, lemma_isqrt_bounds, FP_ONE,
};
use crate::vec3::{
    Vec3, Point3, sub3, neg3, dot3, unit3, bounded3, lemma_raw_norm_nonneg, lemma_neg_dot,
    COORD_LIMIT,
};
use crate::ray::Ray;
use crate::material::Material;
use crate::hit_record::HitRecord;

verus! {

#[derive(Clone, Copy, PartialEq, Eq, Structural, Debug)]
pub struct Sphere {
    pub center: Point3,
    pub radius: i64,
    pub material: Material,
}

impl Sphere {
    /// A sphere the scene may hold: center in bounds, a radius that is
    /// nonzero (its sign chooses the normal convention) and within the
    /// coordinate limit, and a scene material.
    pub open spec fn wf(self) -> bool {
        &&& self.center.wf()
        &&& 1 <= sabs(self.radius as int) <= COORD_LIMIT as int
        &&& self.material.wf()
    }

    pub fn new(center: Point3, radius: i64, material: Material) -> (r: Sphere)
        requires
            center.wf(),
            1 <= sabs(radius as int) <= COORD_LIMIT as int,
            material.wf(),
        ensures
            r == (Sphere { center, radius, material }),
            r.wf(),
    {
        Sphere { center, radius, material }
    }
}

/// Offset from the sphere's center to the ray's origin.
pub open spec fn spec_oc(s: Sphere, ray: Ray) -> (int, int, int) {
    sub3(ray.origin.tup(), s.center.tup())
}

/// The quadratic's leading coefficient: the direction's squared length.
pub open spec fn spec_a(ray: Ray) -> int {
    spec_tdiv(dot3(ray.direction.tup(), ray.direction.tup()), FP_ONE as int)
}

/// Half the quadratic's linear coefficient.
pub open spec fn spec_half_b(s: Sphere, ray: Ray) -> int {
    spec_tdiv(dot3(spec_oc(s, ray), ray.direction.tup()), FP_ONE as int)
}

/// The quadratic's constant coefficient: `|oc|^2 - radius^2`.
pub open spec fn spec_c(s: Sphere, ray: Ray) -> int {
    spec_tdiv(dot3(spec_oc(s, ray), spec_oc(s, ray)), FP_ONE as int) - spec_tdiv(
        s.radius as int * s.radius as int,
        FP_ONE as int,
    )
}

/// The reduced discriminant `half_b^2 - a c`.
pub open spec fn spec_discriminant(s: Sphere, ray: Ray) -> int {
    spec_tdiv(spec_half_b(s, ray) * spec_half_b(s, ray), FP_ONE as int) - spec_tdiv(
        spec_a(ray) * spec_c(s, ray),
        FP_ONE as int,
    )
}

/// The discriminant's fixed-point square root.
pub open spec fn spec_sqrt_disc(s: Sphere, ray: Ray) -> int {
    spec_isqrt(spec_discriminant(s, ray) * FP_ONE as int)
}

/// The nearer quadratic root.
pub open spec fn spec_root_near(s: Sphere, ray: Ray) -> int {
    spec_tdiv((-spec_half_b(s, ray) - spec_sqrt_disc(s, ray)) * FP_ONE as int, spec_a(ray))
}

/// The farther quadratic root.
pub open spec fn spec_root_far(s: Sphere, ray: Ray) -> int {
    spec_tdiv((-spec_half_b(s, ray) + spec_sqrt_disc(s, ray)) * FP_ONE as int, spec_a(ray))
}

/// The hit distance the test reports: no intersection when the
/// discriminant is negative, otherwise the nearer root if it lies within
/// `[t_min, t_max]`, otherwise the farther root if it does, otherwise
/// nothing.
pub open spec fn spec_chosen_root(s: Sphere, ray: Ray, t_min: int, t_max: int) -> Option<int> {
    if spec_discriminant(s, ray) < 0 {
        None
    } else if t_min <= spec_root_near(s, ray) <= t_max {
        Some(spec_root_near(s, ray))
    } else if t_min <= spec_root_far(s, ray) <= t_max {
        Some(spec_root_far(s, ray))
    } else {
        None
    }
}

/// Guards under which a chosen root yields a usable record: the hit point
/// stays inside scene bounds, and it is not exactly the center, so the
/// normal can be normalized to unit scale.  Geometrically these always
/// hold for a scene-sized sphere; rounding pathologies are rejected
/// rather than patched over.
pub open spec fn spec_record_ok(s: Sphere, ray: Ray, t: int) -> bool {
    let p = ray.spec_at(t);
    let pc = sub3(p, s.center.tup());
    &&& bounded3(p, COORD_LIMIT as int)
    &&& dot3(pc, pc) >= 1
}

/// The hit distance, after the record guards.
pub open spec fn spec_hit_t(s: Sphere, ray: Ray, t_min: int, t_max: int) -> Option<int> {
    match spec_chosen_root(s, ray, t_min, t_max) {
        None => None,
        Some(t) => if spec_record_ok(s, ray, t) {
            Some(t)
        } else {
            None
        },
    }
}

/// The outward normal at the hit point: the unit direction from center
/// to point, flipped when the radius is negative.
pub open spec fn spec_outward(s: Sphere, ray: Ray, t: int) -> (int, int, int) {
    let u = unit3(sub3(ray.spec_at(t), s.center.tup()));
    if s.radius >= 0 {
        u
    } else {
        neg3(u)
    }
}

/// Whether the ray meets the surface from the outward-normal side.
pub open spec fn spec_front_face(s: Sphere, ray: Ray, t: int) -> bool {
    dot3(ray.direction.tup(), spec_outward(s, ray, t)) < 0
}

/// The stored normal: the outward normal oriented against the ray.
pub open spec fn spec_normal(s: Sphere, ray: Ray, t: int) -> (int, int, int) {
    if spec_front_face(s, ray, t) {
        spec_outward(s, ray, t)
    } else {
        neg3(spec_outward(s, ray, t))
    }
}

/// Every field the record must carry for a hit of `s` at distance `t`.
pub open spec fn spec_hit_record(s: Sphere, ray: Ray, t: int, rec: HitRecord) -> bool {
    &&& rec.t == t
    &&& rec.p.tup() == ray.spec_at(t)
    &&& rec.front_face == spec_front_face(s, ray, t)
    &&& rec.normal.tup() == spec_normal(s, ray, t)
    &&& rec.material == s.material
}

/// A ray whose discriminant against the sphere is negative misses it:
/// the test reports no hit for any distance interval.
pub proof fn lemma_negative_discriminant_misses(s: Sphere, ray: Ray, t_min: int, t_max: int)
    requires
        spec_discriminant(s, ray) < 0,
    ensures
        spec_hit_t(s, ray, t_min, t_max) is None,
{
}

/// The hollow-sphere convention: negating the radius changes neither the
/// hit distances (the quadratic sees only the squared radius) nor the hit
/// point, but inverts the outward normal, and flips the face flag
/// whenever the hit is not tangential.
pub proof fn lemma_negative_radius_inverts_normal(s: Sphere, ray: Ray, t_min: int, t_max: int, t: int)
    requires
        1 <= sabs(s.radius as int) <= 0x7fff_ffff_ffff_ffff,
    ensures
        ({
            let flipped = Sphere { center: s.center, radius: (-s.radius as int) as i64, material: s.material };
            &&& spec_hit_t(flipped, ray, t_min, t_max) == spec_hit_t(s, ray, t_min, t_max)
            &&& spec_outward(flipped, ray, t) == neg3(spec_outward(s, ray, t))
            &&& (dot3(ray.direction.tup(), spec_outward(s, ray, t)) != 0 ==> spec_front_face(
                flipped,
                ray,
                t,
            ) == !spec_front_face(s, ray, t))
        }),
{
    let flipped = Sphere { center: s.center, radius: (-s.radius as int) as i64, material: s.material };
    assert((-s.radius as int) * (-s.radius as int) == s.radius as int * s.radius as int)
        by (nonlinear_arith);
    lemma_neg_dot(ray.direction.tup(), unit3(sub3(ray.spec_at(t), s.center.tup())));
}

/// Shrinking the admissible interval filters the reported hit by the new
/// upper bound and changes nothing else: a hit at distance `t <= t_max2`
/// survives, any other becomes a miss.
pub proof fn lemma_sphere_hit_narrow(s: Sphere, ray: Ray, t_min: int, t_max1: int, t_max2: int)
    requires
        ray.wf(),
        t_max2 <= t_max1,
    ensures
        spec_hit_t(s, ray, t_min, t_max2) == (match spec_hit_t(s, ray, t_min, t_max1) {
            Some(t) => if t <= t_max2 {
                Some(t)
            } else {
                None::<int>
            },
            None => None::<int>,
        }),
{
    let disc = spec_discriminant(s, ray);
    if disc >= 0 {
        let a = spec_a(ray);
        let hb = spec_half_b(s, ray);
        let sq = spec_sqrt_disc(s, ray);
        lemma_isqrt_bounds(disc * FP_ONE as int);
        lemma_tdiv_le(FP_ONE as int, dot3(ray.direction.tup(), ray.direction.tup()), FP_ONE as int);
        assert(spec_tdiv(FP_ONE as int, FP_ONE as int) == 1);
        lemma_tdiv_le((-hb - sq) * FP_ONE as int, (-hb + sq) * FP_ONE as int, a);
    }
}

impl Sphere {
    /// Intersection test within `[t_min, t_max]`: returns exactly the
    /// distance `spec_hit_t` describes, together with the hit point,
    /// oriented unit normal, face flag and material at that point.
    pub fn hit(&self, ray: &Ray, t_min: i64, t_max: i64) -> (r: Option<HitRecord>)
        requires
            self.wf(),
            ray.wf(),
            0 <= t_min <= COORD_LIMIT,
            0 <= t_max <= COORD_LIMIT,
        ensures
            r.is_some() == spec_hit_t(*self, *ray, t_min as int, t_max as int).is_some(),
            r matches Some(rec) ==> {
                &&& spec_hit_t(*self, *ray, t_min as int, t_max as int) == Some(rec.t as int)
                &&& t_min <= rec.t <= t_max
                &&& spec_hit_record(*self, *ray, rec.t as int, rec)
                &&& rec.wf()
            },
    {
        let d = &ray.direction;
        let oc: Vec3 = ray.origin.sub(&self.center);
        let a: i64 = d.dot(d);
        proof {
            lemma_mul_le(d.x as int, d.x as int, 0x400_0000, 0x400_0000);
            lemma_mul_le(d.y as int, d.y as int, 0x400_0000, 0x400_0000);
            lemma_mul_le(d.z as int, d.z as int, 0x400_0000, 0x400_0000);
            lemma_tdiv_fits(dot3(d.tup(), d.tup()), FP_ONE as int, 0x30_0000_0000);
            lemma_tdiv_le(FP_ONE as int, dot3(d.tup(), d.tup()), FP_ONE as int);
            assert(spec_tdiv(FP_ONE as int, FP_ONE as int) == 1);
            assert(a >= 1);
        }
        let half_b: i64 = oc.dot(d);
        proof {
            lemma_mul_le(oc.x as int, d.x as int, 0x800_0000, 0x400_0000);
            lemma_mul_le(oc.y as int, d.y as int, 0x800_0000, 0x400_0000);
            lemma_mul_le(oc.z as int, d.z as int, 0x800_0000, 0x400_0000);
            lemma_tdiv_fits(dot3(oc.tup(), d.tup()), FP_ONE as int, 0x60_0000_0000);
        }
        let oc_sq: i64 = oc.dot(&oc);
        proof {
            lemma_mul_le(oc.x as int, oc.x as int, 0x800_0000, 0x800_0000);
            lemma_mul_le(oc.y as int, oc.y as int, 0x800_0000, 0x800_0000);
            lemma_mul_le(oc.z as int, oc.z as int, 0x800_0000, 0x800_0000);
            lemma_tdiv_fits(dot3(oc.tup(), oc.tup()), FP_ONE as int, 0xC0_0000_0000);
            lemma_mul_le(self.radius as int, self.radius as int, 0x400_0000, 0x400_0000);
            lemma_tdiv_fits(self.radius as int * self.radius as int, FP_ONE as int, 0x10_0000_0000);
        }
        let r_sq: i64 = mul_fp(self.radius, self.radius);
        let c: i64 = oc_sq - r_sq;
        proof {
            lemma_mul_le(half_b as int, half_b as int, 0x60_0000_0000, 0x60_0000_0000);
            lemma_tdiv_fits(half_b as int * half_b as int, FP_ONE as int, 0x2400_0000_0000_0000);
            lemma_mul_le(a as int, c as int, 0x30_0000_0000, 0xD0_0000_0000);
            lemma_tdiv_fits(a as int * c as int, FP_ONE as int, 0x2700_0000_0000_0000);
        }
        let discriminant: i64 = mul_fp(half_b, half_b) - mul_fp(a, c);
        if discriminant < 0 {
            return None;
        }
        let disc_scaled: u128 = (discriminant as u128) * 65536;
        let sqrtd_wide: u128 = isqrt_u128(disc_scaled);
        proof {
            if sqrtd_wide >= 0x100_0000_0000 {
                assert(sqrtd_wide * sqrtd_wide > 0x4B00_0000_0000_0000_0000) by (nonlinear_arith)
                    requires
                        sqrtd_wide >= 0x100_0000_0000,
                ;
            }
        }
        let sqrtd: i64 = sqrtd_wide as i64;
        let neg_hb: i64 = -half_b;
        let n1: i64 = neg_hb - sqrtd;
        proof {
            lemma_mul_le(n1 as int, FP_ONE as int, 0x160_0000_0000, FP_ONE as int);
            lemma_tdiv_mag_le(n1 as int * FP_ONE as int, a as int);
        }
        let mut root: i64 = div_fp(n1, a);
        if root < t_min || t_max < root {
            let n2: i64 = neg_hb + sqrtd;
            proof {
                lemma_mul_le(n2 as int, FP_ONE as int, 0x160_0000_0000, FP_ONE as int);
                lemma_tdiv_mag_le(n2 as int * FP_ONE as int, a as int);
            }
            root = div_fp(n2, a);
            if root < t_min || t_max < root {
                return None;
            }
        }
        let p: Point3 = ray.at(root);
        if p.x < -COORD_LIMIT || p.x > COORD_LIMIT || p.y < -COORD_LIMIT || p.y > COORD_LIMIT
            || p.z < -COORD_LIMIT || p.z > COORD_LIMIT {
            return None;
        }
        let pc: Vec3 = p.sub(&self.center);
        let pc_sq: i128 = pc.dot_wide(&pc);
        proof {
            lemma_raw_norm_nonneg(pc);
        }
        if pc_sq < 1 {
            return None;
        }
        let u: Vec3 = pc.as_unit();
        let outward: Vec3 = if self.radius >= 0 {
            u
        } else {
            proof {
                lemma_neg_dot(u.tup(), u.tup());
            }
            u.neg()
        };
        let mut rec = HitRecord {
            t: root,
            p,
            normal: Vec3::zeros(),
            front_face: false,
            material: self.material,
        };
        rec.set_face_normal(ray, outward);
        Some(rec)
    }
}

} // verus!
