// Vector algebra, quantization and material behavior on concrete values.
// All scalars are fixed-point with 16 fractional bits: 65536 is 1.0.

use ray_tracer::fixed::{isqrt_i64, mul_fp, div_fp, tdiv_i128, FP_ONE};
use ray_tracer::vec3::Vec3;
use ray_tracer::ray::Ray;
use ray_tracer::hit_record::HitRecord;
use ray_tracer::material::{Lambertian, Metal, Dielectric, Material};

fn seeded(seed: u64) -> rand::rngs::StdRng {
    <rand::rngs::StdRng as rand::SeedableRng>::seed_from_u64(seed)
}

#[test]
fn isqrt_brackets_its_argument() {
    assert_eq!(isqrt_i64(0), 0);
    assert_eq!(isqrt_i64(24), 4);
    assert_eq!(isqrt_i64(25), 5);
    assert_eq!(isqrt_i64(26), 5);
    assert_eq!(isqrt_i64(65536 * 65536), 65536);
}

#[test]
fn fixed_mul_and_div_round_toward_zero() {
    assert_eq!(mul_fp(FP_ONE, FP_ONE), FP_ONE);
    assert_eq!(mul_fp(3 * FP_ONE, -2 * FP_ONE), -6 * FP_ONE);
    assert_eq!(mul_fp(1, 1), 0);
    assert_eq!(mul_fp(-1, 1), 0);
    assert_eq!(div_fp(FP_ONE, 2 * FP_ONE), FP_ONE / 2);
    assert_eq!(div_fp(-FP_ONE, 2 * FP_ONE), -(FP_ONE / 2));
    assert_eq!(tdiv_i128(-7, 2), -3);
    assert_eq!(tdiv_i128(7, 2), 3);
}

#[test]
fn dot_of_self_is_length_squared() {
    let v = Vec3::new(3 * FP_ONE, -2 * FP_ONE, FP_ONE);
    assert_eq!(v.dot(&v), v.length_squared());
    let w = Vec3::new(12345, -6789, 271828);
    assert_eq!(w.dot(&w), w.length_squared());
}

#[test]
fn unit_vector_has_unit_length() {
    // The normalization of any nonzero vector has length 1 within four
    // fixed-point ulps (about 6e-5).
    for v in [
        Vec3::new(3 * FP_ONE, 4 * FP_ONE, 0),
        Vec3::new(FP_ONE, FP_ONE, FP_ONE),
        Vec3::new(-7 * FP_ONE, 2 * FP_ONE, 54321),
        Vec3::new(100 * FP_ONE, -55 * FP_ONE, 3 * FP_ONE),
    ] {
        let u = v.as_unit();
        let len = u.length();
        assert!((len - FP_ONE).abs() <= 4, "length {len}");
    }
    // An exactly representable case is exact: |(3,4,0)| = 5.
    let v = Vec3::new(3 * FP_ONE, 4 * FP_ONE, 0);
    assert_eq!(v.length(), 5 * FP_ONE);
    assert_eq!(v.as_unit().x, 3 * FP_ONE / 5);
    assert_eq!(v.as_unit().y, 4 * FP_ONE / 5);
}

#[test]
fn reflection_flips_the_normal_component() {
    // Against the exact unit normal (0, 1, 0):
    // dot(reflect(v, n), n) == -dot(v, n).
    let n = Vec3::new(0, FP_ONE, 0);
    let v = Vec3::new(FP_ONE, -FP_ONE, 0);
    let r = v.reflect(&n);
    assert_eq!(r.x, FP_ONE);
    assert_eq!(r.y, FP_ONE);
    assert_eq!(r.z, 0);
    assert_eq!(r.dot(&n), -v.dot(&n));
    let w = Vec3::new(12345, -54321, 7777);
    let rw = w.reflect(&n);
    assert!((rw.dot(&n) + w.dot(&n)).abs() <= 7);
}

#[test]
fn near_zero_detects_tiny_vectors() {
    assert!(Vec3::new(0, 0, 0).near_zero());
    assert!(Vec3::new(255, -255, 255).near_zero());
    assert!(!Vec3::new(256, 0, 0).near_zero());
    assert!(!Vec3::new(0, 0, -99999).near_zero());
}

#[test]
fn write_color_averages_gammas_and_clamps() {
    // Four samples of pure red plus a quarter-intensity blue channel:
    // sqrt(1.0) -> clamped to 0.999 -> 255; sqrt(0.25) = 0.5 -> 128.
    let pixel = Vec3::new(4 * FP_ONE, 0, 4 * 16384);
    assert_eq!(pixel.write_color(4), (255, 0, 128));
    // A single black sample stays black.
    assert_eq!(Vec3::zeros().write_color(1), (0, 0, 0));
}

#[test]
fn random_range_stays_in_range() {
    let mut rng = seeded(7);
    // A one-wide range pins the sample exactly.
    let v = Vec3::random_range(&mut rng, 5, 6);
    assert_eq!((v.x, v.y, v.z), (5, 5, 5));
    for _ in 0..100 {
        let w = Vec3::random_range(&mut rng, -10, 10);
        assert!(-10 <= w.x && w.x < 10);
        assert!(-10 <= w.y && w.y < 10);
        assert!(-10 <= w.z && w.z < 10);
        let r = Vec3::random(&mut rng);
        assert!(0 <= r.x && r.x < FP_ONE);
        assert!(0 <= r.y && r.y < FP_ONE);
        assert!(0 <= r.z && r.z < FP_ONE);
    }
}

#[test]
fn unit_ball_samples_are_inside_and_nonzero() {
    let mut rng = seeded(11);
    for _ in 0..200 {
        let p = Vec3::random_in_unit_sphere(&mut rng);
        let ls = p.x as i128 * p.x as i128 + p.y as i128 * p.y as i128 + p.z as i128 * p.z as i128;
        assert!((1i128 << 28) <= ls && ls < (FP_ONE as i128) * (FP_ONE as i128));
        let u = Vec3::random_unit_vector(&mut rng);
        let ul = u.length();
        assert!(-4 <= ul - FP_ONE && ul - FP_ONE <= 8, "unit sample length {ul}");
    }
}

#[test]
fn metal_constructor_clamps_fuzz() {
    let albedo = Vec3::new(FP_ONE / 2, FP_ONE / 2, FP_ONE / 2);
    assert_eq!(Metal::new(albedo, 3 * FP_ONE).fuzz, FP_ONE);
    assert_eq!(Metal::new(albedo, -5).fuzz, 0);
    assert_eq!(Metal::new(albedo, 1234).fuzz, 1234);
}

fn record_with(normal: Vec3, material: Material) -> HitRecord {
    HitRecord { t: 66, p: Vec3::zeros(), normal, front_face: true, material }
}

#[test]
fn lambertian_always_scatters() {
    let albedo = Vec3::new(45875, 19661, 19661);
    let mat = Lambertian::new(albedo);
    let rec = record_with(Vec3::new(0, FP_ONE, 0), Material::Lambertian(mat));
    let ray = Ray::new(Vec3::new(0, FP_ONE, 0), Vec3::new(0, -FP_ONE, 0));
    let mut rng = seeded(3);
    for _ in 0..50 {
        let out = mat.scatter(&ray, &rec, &mut rng);
        let (attenuation, scattered) = out.expect("diffuse never absorbs");
        assert_eq!(attenuation, albedo);
        assert_eq!(scattered.origin, rec.p);
        assert!(!scattered.direction.near_zero(), "diffuse direction is never near zero");
    }
}

#[test]
fn metal_absorbs_rays_reflected_into_the_surface() {
    let albedo = Vec3::new(52429, 39322, 13107);
    let mat = Metal::new(albedo, 0);
    let rec = record_with(Vec3::new(0, FP_ONE, 0), Material::Metal(mat));
    let mut rng = seeded(4);
    // Incoming from above, moving away from the surface: its reflection
    // points into the surface and is rejected.
    let away = Ray::new(Vec3::new(0, FP_ONE, 0), Vec3::new(0, FP_ONE, 0));
    assert!(mat.scatter(&away, &rec, &mut rng).is_none());
    // Incoming toward the surface reflects up and is kept.
    let toward = Ray::new(Vec3::new(0, FP_ONE, 0), Vec3::new(0, -FP_ONE, 0));
    let (attenuation, scattered) = mat.scatter(&toward, &rec, &mut rng).expect("mirror keeps it");
    assert_eq!(attenuation, albedo);
    assert_eq!(scattered.direction.y, FP_ONE);
}

#[test]
fn dielectric_never_absorbs() {
    let mat = Dielectric::new(98304);
    let rec = record_with(Vec3::new(0, FP_ONE, 0), Material::Dielectric(mat));
    let mut rng = seeded(5);
    for _ in 0..50 {
        let ray = Ray::new(Vec3::new(0, FP_ONE, 0), Vec3::new(12345, -FP_ONE, -4242));
        let (attenuation, scattered) = mat.scatter(&ray, &rec, &mut rng).expect("glass never absorbs");
        assert_eq!(attenuation, Vec3::new(FP_ONE, FP_ONE, FP_ONE));
        assert_eq!(scattered.origin, rec.p);
    }
}
