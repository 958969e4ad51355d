// Intersection, closest-hit selection, shading and an end-to-end render
// on concrete scenes.  Scalars are fixed-point: 65536 is 1.0.

use ray_tracer::fixed::FP_ONE;
use ray_tracer::vec3::{Vec3, COORD_LIMIT};
use ray_tracer::ray::Ray;
use ray_tracer::sphere::Sphere;
use ray_tracer::hittable_list::HittableList;
use ray_tracer::material::{Lambertian, Metal, Material};
use ray_tracer::camera::Camera;
use ray_tracer::render::{ray_color, render, T_MIN_HIT};

fn seeded(seed: u64) -> rand::rngs::StdRng {
    <rand::rngs::StdRng as rand::SeedableRng>::seed_from_u64(seed)
}

fn gray() -> Material {
    Material::Lambertian(Lambertian::new(Vec3::new(32768, 32768, 32768)))
}

#[test]
fn head_on_ray_hits_at_distance_minus_radius() {
    // Origin three units before a unit sphere, aimed at its center: the
    // hit is exactly two units away, with the normal pointing from the
    // center toward the hit point.
    let sphere = Sphere::new(Vec3::zeros(), FP_ONE, gray());
    let ray = Ray::new(Vec3::new(0, 0, -3 * FP_ONE), Vec3::new(0, 0, FP_ONE));
    let rec = sphere.hit(&ray, T_MIN_HIT, COORD_LIMIT).expect("head-on ray must hit");
    assert_eq!(rec.t, 2 * FP_ONE);
    assert_eq!(rec.p, Vec3::new(0, 0, -FP_ONE));
    assert_eq!(rec.normal, Vec3::new(0, 0, -FP_ONE));
    assert!(rec.front_face);
}

#[test]
fn ray_far_from_sphere_misses() {
    let sphere = Sphere::new(Vec3::zeros(), FP_ONE, gray());
    // Parallel to the z axis but three units off to the side.
    let ray = Ray::new(Vec3::new(0, 3 * FP_ONE, -3 * FP_ONE), Vec3::new(0, 0, FP_ONE));
    assert!(sphere.hit(&ray, T_MIN_HIT, COORD_LIMIT).is_none());
    // Aimed away from the sphere.
    let behind = Ray::new(Vec3::new(0, 0, -3 * FP_ONE), Vec3::new(0, 0, -FP_ONE));
    assert!(behind.direction.y == 0);
    assert!(sphere.hit(&behind, T_MIN_HIT, COORD_LIMIT).is_none());
}

#[test]
fn negative_radius_flips_the_face_flag_from_inside() {
    // A ray from the center outward: against a positive radius the
    // outward normal points along the ray (a back face); against the
    // hollow convention's negative radius it points against the ray.
    let solid = Sphere::new(Vec3::zeros(), FP_ONE, gray());
    let hollow = Sphere::new(Vec3::zeros(), -FP_ONE, gray());
    let ray = Ray::new(Vec3::zeros(), Vec3::new(0, 0, FP_ONE));
    let rec_solid = solid.hit(&ray, T_MIN_HIT, COORD_LIMIT).expect("inside hit");
    let rec_hollow = hollow.hit(&ray, T_MIN_HIT, COORD_LIMIT).expect("inside hit");
    assert_eq!(rec_solid.t, rec_hollow.t);
    assert_eq!(rec_solid.t, FP_ONE);
    assert!(!rec_solid.front_face);
    assert!(rec_hollow.front_face);
    // The stored normal opposes the ray in both conventions.
    assert_eq!(rec_solid.normal, Vec3::new(0, 0, -FP_ONE));
    assert_eq!(rec_hollow.normal, Vec3::new(0, 0, -FP_ONE));
}

#[test]
fn collection_returns_the_nearer_of_two_spheres() {
    let near_mat = Material::Lambertian(Lambertian::new(Vec3::new(45875, 19661, 19661)));
    let far_mat = Material::Metal(Metal::new(Vec3::new(52429, 39322, 13107), 0));
    let mut world = HittableList::new();
    // The farther sphere is added first; the nearer one must still win.
    world.add(Sphere::new(Vec3::new(0, 0, 4 * FP_ONE), FP_ONE, far_mat));
    world.add(Sphere::new(Vec3::new(0, 0, 2 * FP_ONE), FP_ONE, near_mat));
    let ray = Ray::new(Vec3::zeros(), Vec3::new(0, 0, FP_ONE));
    let rec = world.hit(&ray, T_MIN_HIT, COORD_LIMIT).expect("both spheres are ahead");
    assert_eq!(rec.t, FP_ONE);
    assert_eq!(rec.material, near_mat);
}

#[test]
fn equal_distance_keeps_the_first_member() {
    let first_mat = Material::Lambertian(Lambertian::new(Vec3::new(FP_ONE, 0, 0)));
    let second_mat = Material::Lambertian(Lambertian::new(Vec3::new(0, FP_ONE, 0)));
    let mut world = HittableList::new();
    // Two identical spheres: both hit at exactly the same distance, and
    // the earlier member wins the tie.
    world.add(Sphere::new(Vec3::new(0, 0, 2 * FP_ONE), FP_ONE, first_mat));
    world.add(Sphere::new(Vec3::new(0, 0, 2 * FP_ONE), FP_ONE, second_mat));
    let ray = Ray::new(Vec3::zeros(), Vec3::new(0, 0, FP_ONE));
    let rec = world.hit(&ray, T_MIN_HIT, COORD_LIMIT).expect("spheres are ahead");
    assert_eq!(rec.material, first_mat);
}

#[test]
fn empty_collection_reports_no_hit() {
    let world = HittableList::new();
    let ray = Ray::new(Vec3::zeros(), Vec3::new(0, 0, FP_ONE));
    assert!(world.hit(&ray, T_MIN_HIT, COORD_LIMIT).is_none());
}

#[test]
fn zero_depth_is_black() {
    let mut world = HittableList::new();
    world.add(Sphere::new(Vec3::new(0, 0, 2 * FP_ONE), FP_ONE, gray()));
    let mut rng = seeded(1);
    for dir in [Vec3::new(0, 0, FP_ONE), Vec3::new(0, FP_ONE, 0), Vec3::new(7777, -FP_ONE, 321)] {
        let ray = Ray::new(Vec3::zeros(), dir);
        assert_eq!(ray_color(&ray, &world, 0, &mut rng), Vec3::zeros());
    }
}

#[test]
fn empty_scene_shows_the_background_gradient() {
    let world = HittableList::new();
    let mut rng = seeded(2);
    // Straight up: the gradient's sky end, exactly.
    let up = Ray::new(Vec3::zeros(), Vec3::new(0, FP_ONE, 0));
    assert_eq!(ray_color(&up, &world, 50, &mut rng), Vec3::new(32768, 45875, FP_ONE));
    // Straight down: exactly white.
    let down = Ray::new(Vec3::zeros(), Vec3::new(0, -FP_ONE, 0));
    assert_eq!(ray_color(&down, &world, 50, &mut rng), Vec3::new(FP_ONE, FP_ONE, FP_ONE));
    // Horizontal: the midpoint blend, exactly.
    let level = Ray::new(Vec3::zeros(), Vec3::new(FP_ONE, 0, 0));
    assert_eq!(ray_color(&level, &world, 50, &mut rng), Vec3::new(49152, 55705, FP_ONE));
}

#[test]
fn unfuzzed_metal_bounce_tints_the_background() {
    // Two fuzz-free metal spheres ahead of the ray: the nearer, red one is
    // selected; its deterministic reflection escapes to the background at
    // the gradient's midpoint (0.75, 0.85, 1.0), so the returned color is
    // exactly red times that: (0.75, 0, 0).
    let red = Material::Metal(Metal::new(Vec3::new(FP_ONE, 0, 0), 0));
    let green = Material::Metal(Metal::new(Vec3::new(0, FP_ONE, 0), 0));
    let mut world = HittableList::new();
    world.add(Sphere::new(Vec3::new(0, 0, -FP_ONE), 32768, red));
    world.add(Sphere::new(Vec3::new(0, 0, -78643), 32768, green));
    let ray = Ray::new(Vec3::zeros(), Vec3::new(0, 0, -FP_ONE));
    let mut rng = seeded(9);
    assert_eq!(ray_color(&ray, &world, 2, &mut rng), Vec3::new(49152, 0, 0));
}

#[test]
fn absorbed_ray_is_black_and_camera_aims_where_told() {
    let camera = Camera::default();
    let corner = camera.get_ray(0, 0);
    assert_eq!(corner.origin, Vec3::zeros());
    assert_eq!(corner.direction, Vec3::new(-116508, -65536, -65536));
    let opposite = camera.get_ray(FP_ONE, FP_ONE);
    assert_eq!(opposite.direction, Vec3::new(116508, 65536, -65536));
}

#[test]
fn fixed_scene_renders_byte_identical_output() {
    // Two spheres, the standard camera, one sample per pixel, depth one
    // and a fixed seed: every path ends after a single bounce, so each
    // pixel is either black (a hit) or the background gradient at its
    // jittered coordinate, quantized.
    let mut world = HittableList::new();
    world.add(Sphere::new(Vec3::new(0, 0, -FP_ONE), 32768, gray()));
    world.add(Sphere::new(Vec3::new(0, -6586368, -FP_ONE), 6553600, gray()));
    let camera = Camera::default();
    let pixels = render(&world, &camera, 4, 3, 1, 1, 42);
    assert_eq!(pixels.len(), 12);
    let mut out = String::new();
    out.push_str("P3\n4 3\n255\n");
    for (r, g, b) in pixels {
        out.push_str(&format!("{} {} {}\n", r, g, b));
    }
    let expected = "P3\n4 3\n255\n\
        193 220 255\n189 218 255\n197 222 255\n204 226 255\n\
        221 235 255\n0 0 0\n216 233 255\n214 231 255\n\
        0 0 0\n0 0 0\n0 0 0\n0 0 0\n";
    assert_eq!(out, expected);
}
