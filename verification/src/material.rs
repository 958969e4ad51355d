//! Surface shading.  The three material kinds form a closed sum type,
//! dispatched by pattern matching; each variant owns its shading
//! parameters as fixed-point scalars.

use vstd::prelude::*;
use crate::fixed::{
    spec_tdiv, spec_isqrt, sabs, mul_fp, div_fp, isqrt_i64, lemma_mul_le, lemma_tdiv_fits,
    lemma_tdiv_mag_le, lemma_tdiv_nonneg, FP_ONE,
};
use crate::vec3::{
    Vec3, Color, add3, sub3, neg3, dot3, scale3, unit3, bounded3, near_zero3, unit_sample,
    spec_reflect, spec_dot, lemma_viable_not_near_zero, lemma_not_near_zero_viable,
};
use crate::ray::Ray;
use crate::hit_record::HitRecord;
use crate::rng::rng_range;

verus! {

/// Diffuse: scatters around the surface normal, tinted by its albedo.
#[derive(Clone, Copy, PartialEq, Eq, Structural, Debug)]
pub struct Lambertian {
    pub albedo: Color,
}

/// Reflective: mirrors the incoming direction, optionally fuzzed.
#[derive(Clone, Copy, PartialEq, Eq, Structural, Debug)]
pub struct Metal {
    pub albedo: Color,
    pub fuzz: i64,
}

/// Refractive glass, described by its index of refraction.
#[derive(Clone, Copy, PartialEq, Eq, Structural, Debug)]
pub struct Dielectric {
    pub ir: i64,
}

/// The closed set of surface behaviors a scene object may carry.
#[derive(Clone, Copy, PartialEq, Eq, Structural, Debug)]
pub enum Material {
    Lambertian(Lambertian),
    Metal(Metal),
    Dielectric(Dielectric),
}

/// A color channel triple usable as an attenuation: every channel in
/// `[0, 1]` in fixed point.
pub open spec fn valid_color(c: Color) -> bool {
    &&& 0 <= c.x <= FP_ONE
    &&& 0 <= c.y <= FP_ONE
    &&& 0 <= c.z <= FP_ONE
}

impl Lambertian {
    pub fn new(albedo: Color) -> (r: Lambertian)
        requires
            valid_color(albedo),
        ensures
            r == (Lambertian { albedo }),
    {
        Lambertian { albedo }
    }
}

impl Metal {
    /// The fuzz perturbation radius is clamped into `[0, 1]`.
    pub fn new(albedo: Color, fuzz: i64) -> (r: Metal)
        requires
            valid_color(albedo),
        ensures
            r.albedo == albedo,
            r.fuzz == (if fuzz < 0 {
                0int
            } else if fuzz > FP_ONE {
                FP_ONE as int
            } else {
                fuzz as int
            }),
    {
        let f: i64 = if fuzz < 0 {
            0
        } else if fuzz > FP_ONE {
            FP_ONE
        } else {
            fuzz
        };
        Metal { albedo, fuzz: f }
    }
}

impl Dielectric {
    pub fn new(ir: i64) -> (r: Dielectric)
        requires
            FP_ONE <= ir <= 8 * FP_ONE,
        ensures
            r == (Dielectric { ir }),
    {
        Dielectric { ir }
    }
}

impl Material {
    /// Parameters every scene material must keep: channels in `[0, 1]`,
    /// fuzz in `[0, 1]`, refraction index in `[1, 8]`.
    pub open spec fn wf(self) -> bool {
        match self {
            Material::Lambertian(m) => valid_color(m.albedo),
            Material::Metal(m) => valid_color(m.albedo) && 0 <= m.fuzz <= FP_ONE,
            Material::Dielectric(m) => FP_ONE <= m.ir <= 8 * FP_ONE,
        }
    }
}

/// The attenuation a material reports whenever it scatters: its albedo,
/// or unit white for glass.
pub open spec fn spec_albedo(m: Material) -> (int, int, int) {
    match m {
        Material::Lambertian(l) => l.albedo.tup(),
        Material::Metal(mt) => mt.albedo.tup(),
        Material::Dielectric(_) => (FP_ONE as int, FP_ONE as int, FP_ONE as int),
    }
}

/// The diffuse scatter direction built from a drawn unit sample: the
/// normal plus the sample, or the normal alone when that sum degenerates
/// to near zero.
pub open spec fn lambertian_dir(normal: (int, int, int), s: (int, int, int)) -> (int, int, int) {
    let cand = add3(normal, s);
    if near_zero3(cand) {
        normal
    } else {
        cand
    }
}

/// What one diffuse scatter returned, as a function of its one drawn
/// unit sample `s`.
pub open spec fn lambertian_outcome(
    r: Option<(Color, Ray)>,
    rec: HitRecord,
    albedo: Color,
    s: (int, int, int),
) -> bool {
    &&& unit_sample(s)
    &&& r matches Some(pair) && {
        &&& pair.0 == albedo
        &&& pair.1.origin == rec.p
        &&& pair.1.direction.tup() == lambertian_dir(rec.normal.tup(), s)
    }
}

impl Lambertian {
    /// Diffuse scatter: the normal plus a random unit vector, falling
    /// back to the normal itself when that sum degenerates to near zero.
    /// A diffuse surface never absorbs the ray, and its scatter direction
    /// is never near zero.
    pub fn scatter(&self, _ray: &Ray, rec: &HitRecord, rng: &mut rand::rngs::StdRng) -> (r: Option<
        (Color, Ray),
    >)
        requires
            valid_color(self.albedo),
            rec.wf(),
        ensures
            r.is_some(),
            r matches Some(pair) ==> {
                &&& pair.0 == self.albedo
                &&& pair.1.origin == rec.p
                &&& pair.1.wf()
                &&& !pair.1.direction.spec_near_zero()
            },
            exists|s: (int, int, int)| lambertian_outcome(r, *rec, self.albedo, s),
    {
        let s = Vec3::random_unit_vector(rng);
        let candidate = rec.normal.add(&s);
        let scatter_direction: Vec3 = if candidate.near_zero() {
            proof {
                lemma_viable_not_near_zero(rec.normal.tup());
            }
            rec.normal
        } else {
            proof {
                lemma_not_near_zero_viable(candidate);
            }
            candidate
        };
        let r = Some((self.albedo, Ray::new(rec.p, scatter_direction)));
        proof {
            assert(lambertian_outcome(r, *rec, self.albedo, s.tup()));
        }
        r
    }
}

/// The fuzzed mirror direction: the reflection of the unit incoming
/// direction, perturbed by a fuzz-scaled ball sample.
pub open spec fn metal_dir(refl: (int, int, int), fuzz: int, fs: (int, int, int)) -> (
    int,
    int,
    int,
) {
    add3(refl, scale3(fs, fuzz))
}

/// What one mirror scatter returned, as a function of its drawn ball
/// sample `fs`: the candidate direction is kept exactly when it points
/// off the surface and is long enough to trace further.
pub open spec fn metal_outcome(
    r: Option<(Color, Ray)>,
    ray: Ray,
    rec: HitRecord,
    m: Metal,
    fs: (int, int, int),
) -> bool {
    let cand = metal_dir(
        spec_reflect(unit3(ray.direction.tup()), rec.normal.tup()),
        m.fuzz as int,
        fs,
    );
    &&& 0x1000_0000 <= dot3(fs, fs) < FP_ONE as int * FP_ONE as int
    &&& bounded3(fs, FP_ONE as int)
    &&& (r.is_some() <==> (dot3(cand, rec.normal.tup()) > 0 && dot3(cand, cand) >= FP_ONE as int))
    &&& (r matches Some(pair) ==> {
        &&& pair.0 == m.albedo
        &&& pair.1.origin == rec.p
        &&& pair.1.direction.tup() == cand
    })
}

impl Metal {
    /// Mirror scatter: the normalized incoming direction reflected about
    /// the normal, perturbed by a fuzz-scaled unit-ball sample.  The ray
    /// is absorbed unless the result points away from the surface and is
    /// long enough to trace further.  The outcome is an exact function of
    /// the inputs and the one drawn ball sample; without fuzz the sample
    /// drops out and the equivalence over the inputs alone holds.
    pub fn scatter(&self, ray: &Ray, rec: &HitRecord, rng: &mut rand::rngs::StdRng) -> (r: Option<
        (Color, Ray),
    >)
        requires
            valid_color(self.albedo),
            0 <= self.fuzz <= FP_ONE,
            ray.wf(),
            rec.wf(),
        ensures
            r matches Some(pair) ==> {
                &&& pair.0 == self.albedo
                &&& pair.1.origin == rec.p
                &&& pair.1.wf()
                &&& dot3(pair.1.direction.tup(), rec.normal.tup()) > 0
            },
            exists|fs: (int, int, int)| metal_outcome(r, *ray, *rec, *self, fs),
            self.fuzz == 0 ==> {
                let refl = spec_reflect(unit3(ray.direction.tup()), rec.normal.tup());
                &&& (r.is_some() <==> (dot3(refl, rec.normal.tup()) > 0 && dot3(refl, refl)
                    >= FP_ONE as int))
                &&& (r matches Some(pair) ==> pair.1.direction.tup() == refl)
            },
    {
        let unit_in = ray.direction.as_unit();
        let reflected = unit_in.reflect(&rec.normal);
        let ghost mut wfs: (int, int, int) = (32768int, 32768int, 0int);
        let dir: Vec3 = if self.fuzz > 0 {
            let fs = Vec3::random_in_unit_sphere(rng);
            proof {
                wfs = fs.tup();
                lemma_mul_le(fs.x as int, self.fuzz as int, 65536, 65536);
                lemma_mul_le(fs.y as int, self.fuzz as int, 65536, 65536);
                lemma_mul_le(fs.z as int, self.fuzz as int, 65536, 65536);
                lemma_tdiv_fits(fs.x as int * self.fuzz as int, 65536, 65536);
                lemma_tdiv_fits(fs.y as int * self.fuzz as int, 65536, 65536);
                lemma_tdiv_fits(fs.z as int * self.fuzz as int, 65536, 65536);
            }
            let perturb = fs.scale(self.fuzz);
            reflected.add(&perturb)
        } else {
            proof {
                vstd::arithmetic::div_mod::lemma_div_of0(65536);
                assert(scale3(wfs, 0) == (0int, 0int, 0int));
            }
            reflected
        };
        let scattered = Ray::new(rec.p, dir);
        let dn: i128 = dir.dot_wide(&rec.normal);
        let dd: i128 = dir.dot_wide(&dir);
        let r: Option<(Color, Ray)> = if dn > 0 && dd >= 65536 {
            Some((self.albedo, scattered))
        } else {
            None
        };
        proof {
            assert(metal_outcome(r, *ray, *rec, *self, wfs));
        }
        r
    }
}

/// The refraction ratio used for glass: the reciprocal of the index when
/// the ray arrives from outside, the index itself from inside.
pub open spec fn spec_dielectric_ratio(d: Dielectric, front_face: bool) -> int {
    if front_face {
        spec_tdiv(FP_ONE as int * FP_ONE as int, d.ir as int)
    } else {
        d.ir as int
    }
}

/// The cosine of the angle between the reversed unit incoming direction
/// and the normal, clamped into `[-1, 1]`.
pub open spec fn spec_cos_theta(uv: (int, int, int), n: (int, int, int)) -> int {
    let c = -spec_dot(uv, n);
    if c > FP_ONE {
        FP_ONE as int
    } else if c < -FP_ONE {
        -FP_ONE as int
    } else {
        c
    }
}

/// Snell refraction of the unit direction `uv` about the normal `n`:
/// the perpendicular part is `ratio * (uv + cos * n)`, the parallel part
/// restores unit length.
pub open spec fn refract3(uv: (int, int, int), n: (int, int, int), ratio: int, cos: int) -> (
    int,
    int,
    int,
) {
    let perp = scale3(add3(uv, scale3(n, cos)), ratio);
    let perp_ls = spec_tdiv(dot3(perp, perp), FP_ONE as int);
    let k = if FP_ONE - perp_ls < 0 {
        0int
    } else {
        FP_ONE - perp_ls
    };
    sub3(perp, scale3(n, spec_isqrt(k * FP_ONE as int)))
}

impl Dielectric {
    /// Glass scatter: refract by Snell's law when possible, reflect on
    /// total internal reflection or with probability given by Schlick's
    /// reflectance approximation.  Glass absorbs nothing: the ray always
    /// continues, with unit attenuation, along the named reflection or
    /// refraction of the unit incoming direction (or, if rounding left
    /// both degenerately short, back along the normal).
    pub fn scatter(&self, ray: &Ray, rec: &HitRecord, rng: &mut rand::rngs::StdRng) -> (r: Option<
        (Color, Ray),
    >)
        requires
            FP_ONE <= self.ir <= 8 * FP_ONE,
            ray.wf(),
            rec.wf(),
        ensures
            r.is_some(),
            r matches Some(pair) ==> {
                &&& pair.0 == (Vec3 { x: FP_ONE, y: FP_ONE, z: FP_ONE })
                &&& pair.1.origin == rec.p
                &&& pair.1.wf()
            },
            r matches Some(pair) ==> {
                let uv = unit3(ray.direction.tup());
                let n = rec.normal.tup();
                ||| pair.1.direction.tup() == spec_reflect(uv, n)
                ||| pair.1.direction.tup() == refract3(
                    uv,
                    n,
                    spec_dielectric_ratio(*self, rec.front_face),
                    spec_cos_theta(uv, n),
                )
                ||| pair.1.direction.tup() == neg3(n)
            },
    {
        let ratio: i64 = if rec.front_face {
            proof {
                lemma_tdiv_mag_le(65536int * 65536, self.ir as int);
                assert(sabs(65536int * 65536) <= 65536 * self.ir as int);
                lemma_tdiv_fits(65536int * 65536, self.ir as int, 65536);
            }
            div_fp(FP_ONE, self.ir)
        } else {
            self.ir
        };
        let unit_dir = ray.direction.as_unit();
        let d: i64 = unit_dir.dot(&rec.normal);
        let mut cos_theta: i64 = -d;
        proof {
            lemma_mul_le(unit_dir.x as int, rec.normal.x as int, 65536, 65536);
            lemma_mul_le(unit_dir.y as int, rec.normal.y as int, 65536, 65536);
            lemma_mul_le(unit_dir.z as int, rec.normal.z as int, 65536, 65536);
        }
        if cos_theta > FP_ONE {
            cos_theta = FP_ONE;
        }
        if cos_theta < -FP_ONE {
            cos_theta = -FP_ONE;
        }
        proof {
            lemma_mul_le(cos_theta as int, cos_theta as int, 65536, 65536);
            lemma_tdiv_fits(cos_theta as int * cos_theta as int, 65536, 65536);
            assert(cos_theta as int * cos_theta as int >= 0) by (nonlinear_arith);
        }
        let cos2: i64 = mul_fp(cos_theta, cos_theta);
        proof {
            lemma_tdiv_nonneg(cos_theta as int * cos_theta as int, 65536);
        }
        let sin2: i64 = FP_ONE - cos2;
        proof {
            lemma_mul_le(ratio as int, ratio as int, 524288, 524288);
            lemma_tdiv_fits(ratio as int * ratio as int, 65536, 4194304);
            assert(ratio as int * ratio as int >= 0) by (nonlinear_arith);
            lemma_tdiv_nonneg(ratio as int * ratio as int, 65536);
        }
        let r2: i64 = mul_fp(ratio, ratio);
        proof {
            lemma_mul_le(r2 as int, sin2 as int, 4194304, 65536);
            lemma_tdiv_fits(r2 as int * sin2 as int, 65536, 4194304);
        }
        let rs: i64 = mul_fp(r2, sin2);
        let cannot_refract: bool = rs > FP_ONE;
        let refl_prob: i64 = self.reflectance(cos_theta, ratio);
        let coin: i64 = rng_range(rng, 0, FP_ONE);
        let dir0: Vec3 = if cannot_refract || refl_prob > coin {
            unit_dir.reflect(&rec.normal)
        } else {
            self.refract(&unit_dir, &rec.normal, ratio, cos_theta)
        };
        let dd0: i128 = dir0.dot_wide(&dir0);
        let dir: Vec3 = if dd0 >= 65536 {
            dir0
        } else {
            let refl_dir = unit_dir.reflect(&rec.normal);
            let ddr: i128 = refl_dir.dot_wide(&refl_dir);
            if ddr >= 65536 {
                refl_dir
            } else {
                proof {
                    crate::vec3::lemma_neg_dot(rec.normal.tup(), rec.normal.tup());
                }
                rec.normal.neg()
            }
        };
        Some((Vec3 { x: FP_ONE, y: FP_ONE, z: FP_ONE }, Ray::new(rec.p, dir)))
    }

    /// Schlick's reflectance approximation, clamped into `[0, 1]`.
    fn reflectance(&self, cos_theta: i64, ratio: i64) -> (r: i64)
        requires
            sabs(cos_theta as int) <= FP_ONE as int,
            0 <= ratio <= 8 * FP_ONE,
        ensures
            0 <= r <= 33 * FP_ONE as int,
    {
        let denom: i64 = FP_ONE + ratio;
        proof {
            lemma_mul_le((FP_ONE - ratio) as int, 65536, 458752, 65536);
            lemma_tdiv_mag_le((FP_ONE - ratio) as int * FP_ONE as int, denom as int);
            assert(sabs(spec_tdiv((FP_ONE - ratio) as int * FP_ONE as int, denom as int)) <= 7
                * FP_ONE as int) by {
                assert(sabs((FP_ONE - ratio) as int * FP_ONE as int) <= (7 * FP_ONE as int) * (
                denom as int)) by (nonlinear_arith)
                    requires
                        0 <= ratio <= 8 * FP_ONE as int,
                        denom == FP_ONE + ratio,
                        sabs((FP_ONE - ratio) as int * FP_ONE as int) <= 7 * FP_ONE as int
                            * FP_ONE as int,
                ;
                lemma_tdiv_fits(
                    (FP_ONE - ratio) as int * FP_ONE as int,
                    denom as int,
                    7 * FP_ONE as int,
                );
            }
        }
        let a0: i64 = div_fp(FP_ONE - ratio, denom);
        proof {
            lemma_mul_le(a0 as int, a0 as int, 458752, 458752);
            lemma_tdiv_fits(a0 as int * a0 as int, 65536, 3211264);
            assert(a0 as int * a0 as int >= 0) by (nonlinear_arith);
            lemma_tdiv_nonneg(a0 as int * a0 as int, 65536);
        }
        let r0: i64 = mul_fp(a0, a0);
        let r0c: i64 = if r0 > FP_ONE {
            FP_ONE
        } else {
            r0
        };
        let omc: i64 = FP_ONE - cos_theta;
        proof {
            lemma_mul_le(omc as int, omc as int, 131072, 131072);
            lemma_tdiv_fits(omc as int * omc as int, 65536, 262144);
            assert(omc as int * omc as int >= 0) by (nonlinear_arith);
            lemma_tdiv_nonneg(omc as int * omc as int, 65536);
        }
        let p2: i64 = mul_fp(omc, omc);
        proof {
            lemma_mul_le(p2 as int, p2 as int, 262144, 262144);
            lemma_tdiv_fits(p2 as int * p2 as int, 65536, 1048576);
            assert(p2 as int * p2 as int >= 0) by (nonlinear_arith);
            lemma_tdiv_nonneg(p2 as int * p2 as int, 65536);
        }
        let p4: i64 = mul_fp(p2, p2);
        proof {
            lemma_mul_le(p4 as int, omc as int, 1048576, 131072);
            lemma_tdiv_fits(p4 as int * omc as int, 65536, 2097152);
            assert(p4 as int * omc as int >= 0) by (nonlinear_arith)
                requires
                    p4 >= 0,
                    omc >= 0,
            ;
            lemma_tdiv_nonneg(p4 as int * omc as int, 65536);
        }
        let p5: i64 = mul_fp(p4, omc);
        proof {
            lemma_mul_le((FP_ONE - r0c) as int, p5 as int, 65536, 2097152);
            lemma_tdiv_fits((FP_ONE - r0c) as int * p5 as int, 65536, 2097152);
            assert((FP_ONE - r0c) as int * p5 as int >= 0) by (nonlinear_arith)
                requires
                    r0c <= FP_ONE,
                    p5 >= 0,
            ;
            lemma_tdiv_nonneg((FP_ONE - r0c) as int * p5 as int, 65536);
        }
        r0c + mul_fp(FP_ONE - r0c, p5)
    }

    /// Snell refraction of a unit direction about the normal.
    fn refract(&self, unit_dir: &Vec3, normal: &Vec3, ratio: i64, cos_theta: i64) -> (r: Vec3)
        requires
            bounded3(unit_dir.tup(), FP_ONE as int),
            bounded3(normal.tup(), FP_ONE as int),
            0 <= ratio <= 8 * FP_ONE,
            sabs(cos_theta as int) <= FP_ONE as int,
        ensures
            bounded3(r.tup(), 0x20_0000),
            r.tup() == refract3(unit_dir.tup(), normal.tup(), ratio as int, cos_theta as int),
    {
        proof {
            lemma_mul_le(normal.x as int, cos_theta as int, 65536, 65536);
            lemma_mul_le(normal.y as int, cos_theta as int, 65536, 65536);
            lemma_mul_le(normal.z as int, cos_theta as int, 65536, 65536);
            lemma_tdiv_fits(normal.x as int * cos_theta as int, 65536, 65536);
            lemma_tdiv_fits(normal.y as int * cos_theta as int, 65536, 65536);
            lemma_tdiv_fits(normal.z as int * cos_theta as int, 65536, 65536);
        }
        let cn = normal.scale(cos_theta);
        let sum = unit_dir.add(&cn);
        proof {
            lemma_mul_le(sum.x as int, ratio as int, 131072, 524288);
            lemma_mul_le(sum.y as int, ratio as int, 131072, 524288);
            lemma_mul_le(sum.z as int, ratio as int, 131072, 524288);
            lemma_tdiv_fits(sum.x as int * ratio as int, 65536, 1048576);
            lemma_tdiv_fits(sum.y as int * ratio as int, 65536, 1048576);
            lemma_tdiv_fits(sum.z as int * ratio as int, 65536, 1048576);
        }
        let perp = sum.scale(ratio);
        let perp_ls: i64 = perp.length_squared();
        proof {
            crate::vec3::lemma_raw_norm_nonneg(perp);
            lemma_tdiv_nonneg(dot3(perp.tup(), perp.tup()), 65536);
        }
        let mut k: i64 = FP_ONE - perp_ls;
        if k < 0 {
            k = 0;
        }
        let s: i64 = isqrt_i64(k * 65536);
        proof {
            if s > FP_ONE {
                assert(s as int * s as int > FP_ONE as int * FP_ONE as int) by (nonlinear_arith)
                    requires
                        s > FP_ONE as int,
                ;
            }
            lemma_mul_le(normal.x as int, s as int, 65536, 65536);
            lemma_mul_le(normal.y as int, s as int, 65536, 65536);
            lemma_mul_le(normal.z as int, s as int, 65536, 65536);
            lemma_tdiv_fits(normal.x as int * s as int, 65536, 65536);
            lemma_tdiv_fits(normal.y as int * s as int, 65536, 65536);
            lemma_tdiv_fits(normal.z as int * s as int, 65536, 65536);
        }
        let sn = normal.scale(s);
        perp.sub(&sn)
    }
}

impl Material {
    /// Dispatches to the variant's scatter rule.  Whatever randomness the
    /// rule drew, a scattered ray starts at the hit point, carries a valid
    /// attenuation, and is well-formed; a diffuse or glass surface never
    /// absorbs; a mirror only returns rays that point away from the
    /// surface, and without fuzz its outcome is the stated exact function
    /// of the inputs.
    pub fn scatter(&self, ray: &Ray, rec: &HitRecord, rng: &mut rand::rngs::StdRng) -> (r: Option<
        (Color, Ray),
    >)
        requires
            self.wf(),
            ray.wf(),
            rec.wf(),
        ensures
            r matches Some(pair) ==> {
                &&& valid_color(pair.0)
                &&& pair.0.tup() == spec_albedo(*self)
                &&& pair.1.origin == rec.p
                &&& pair.1.wf()
            },
            self matches Material::Lambertian(m) ==> {
                &&& r.is_some()
                &&& (r matches Some(pair) ==> pair.0 == m.albedo
                    && !pair.1.direction.spec_near_zero())
                &&& exists|s: (int, int, int)| lambertian_outcome(r, *rec, m.albedo, s)
            },
            self matches Material::Dielectric(d) ==> {
                &&& r.is_some()
                &&& (r matches Some(pair) ==> {
                    let uv = unit3(ray.direction.tup());
                    let n = rec.normal.tup();
                    &&& pair.0 == (Vec3 { x: FP_ONE, y: FP_ONE, z: FP_ONE })
                    &&& {
                        ||| pair.1.direction.tup() == spec_reflect(uv, n)
                        ||| pair.1.direction.tup() == refract3(
                            uv,
                            n,
                            spec_dielectric_ratio(*d, rec.front_face),
                            spec_cos_theta(uv, n),
                        )
                        ||| pair.1.direction.tup() == neg3(n)
                    }
                })
            },
            self matches Material::Metal(m) ==> {
                &&& (r matches Some(pair) ==> pair.0 == m.albedo && dot3(
                    pair.1.direction.tup(),
                    rec.normal.tup(),
                ) > 0)
                &&& exists|fs: (int, int, int)| metal_outcome(r, *ray, *rec, *m, fs)
                &&& (m.fuzz == 0 ==> {
                    let refl = spec_reflect(unit3(ray.direction.tup()), rec.normal.tup());
                    &&& (r.is_some() <==> (dot3(refl, rec.normal.tup()) > 0 && dot3(refl, refl)
                        >= FP_ONE as int))
                    &&& (r matches Some(pair) ==> pair.1.direction.tup() == refl)
                })
            },
    {
        match self {
            Material::Lambertian(m) => m.scatter(ray, rec, rng),
            Material::Metal(m) => m.scatter(ray, rec, rng),
            Material::Dielectric(m) => m.scatter(ray, rec, rng),
        }
    }
}

} // verus!
