//! The camera maps normalized image-plane coordinates to rays cast into
//! the scene.  Its four vectors are derived once from the viewport
//! extents and focal length, and are immutable thereafter.

use vstd::prelude::*;
use crate::fixed::{spec_tdiv, mul_fp, tdiv_i128, lemma_mul_le, lemma_tdiv_fits,
    lemma_tdiv_nonneg, FP_ONE};
use crate::vec3::{Vec3, Point3, bounded3, lemma_comp_sq_le};
use crate::ray::Ray;

verus! {

#[derive(Clone, Copy, PartialEq, Eq, Structural, Debug)]
pub struct Camera {
    pub origin: Point3,
    pub horizontal: Vec3,
    pub vertical: Vec3,
    pub lower_left_corner: Point3,
}

impl Camera {
    /// A camera whose rays are always usable: all vectors comfortably in
    /// bounds, the image plane spanned in x and y only, and the plane at
    /// least a small focal distance in front of the origin, so every ray
    /// direction has a z component large enough to trace.
    pub open spec fn wf(self) -> bool {
        &&& bounded3(self.origin.tup(), 0x10_0000)
        &&& bounded3(self.horizontal.tup(), 0x10_0000)
        &&& bounded3(self.vertical.tup(), 0x10_0000)
        &&& bounded3(self.lower_left_corner.tup(), 0x10_0000)
        &&& self.horizontal.z == 0
        &&& self.vertical.z == 0
        &&& self.lower_left_corner.z - self.origin.z <= -256
    }

    /// Builds a camera at the origin from the viewport extents and the
    /// focal length: `horizontal` and `vertical` span the image plane,
    /// and the lower-left corner sits half a viewport away from the
    /// origin at focal depth.
    pub fn new(viewport_width: i64, viewport_height: i64, focal_length: i64) -> (r: Camera)
        requires
            0 <= viewport_width <= 0x10_0000,
            0 <= viewport_height <= 0x10_0000,
            256 <= focal_length <= 0x10_0000,
        ensures
            r.origin == (Vec3 { x: 0, y: 0, z: 0 }),
            r.horizontal == (Vec3 { x: viewport_width, y: 0, z: 0 }),
            r.vertical == (Vec3 { x: 0, y: viewport_height, z: 0 }),
            r.lower_left_corner.x == -spec_tdiv(viewport_width as int, 2),
            r.lower_left_corner.y == -spec_tdiv(viewport_height as int, 2),
            r.lower_left_corner.z == -focal_length,
            r.wf(),
    {
        proof {
            lemma_tdiv_fits(viewport_width as int, 2, 0x10_0000);
            lemma_tdiv_fits(viewport_height as int, 2, 0x10_0000);
            lemma_tdiv_nonneg(viewport_width as int, 2);
            lemma_tdiv_nonneg(viewport_height as int, 2);
        }
        let half_w: i64 = tdiv_i128(viewport_width as i128, 2) as i64;
        let half_h: i64 = tdiv_i128(viewport_height as i128, 2) as i64;
        Camera {
            origin: Vec3 { x: 0, y: 0, z: 0 },
            horizontal: Vec3 { x: viewport_width, y: 0, z: 0 },
            vertical: Vec3 { x: 0, y: viewport_height, z: 0 },
            lower_left_corner: Vec3 { x: -half_w, y: -half_h, z: -focal_length },
        }
    }

    /// The standard camera: a 16:9 viewport of height 2 at focal length 1.
    pub fn default() -> (r: Camera)
        ensures
            r.origin == (Vec3 { x: 0, y: 0, z: 0 }),
            r.horizontal == (Vec3 { x: 233016, y: 0, z: 0 }),
            r.vertical == (Vec3 { x: 0, y: 131072, z: 0 }),
            r.lower_left_corner == (Vec3 { x: -116508i64, y: -65536i64, z: -65536i64 }),
            r.wf(),
    {
        proof {
            assert(233016int / 2 == 116508 && 131072int / 2 == 65536);
        }
        Camera::new(233016, 131072, 65536)
    }

    /// The ray through image-plane coordinates `(u, v)`:
    /// `lower_left_corner + u * horizontal + v * vertical - origin`,
    /// starting at the camera origin.
    pub fn get_ray(&self, u: i64, v: i64) -> (r: Ray)
        requires
            self.wf(),
            0 <= u <= 2 * FP_ONE,
            0 <= v <= 2 * FP_ONE,
        ensures
            r.origin == self.origin,
            r.direction.x == self.lower_left_corner.x + spec_tdiv(
                self.horizontal.x as int * u as int,
                FP_ONE as int,
            ) + spec_tdiv(self.vertical.x as int * v as int, FP_ONE as int) - self.origin.x,
            r.direction.y == self.lower_left_corner.y + spec_tdiv(
                self.horizontal.y as int * u as int,
                FP_ONE as int,
            ) + spec_tdiv(self.vertical.y as int * v as int, FP_ONE as int) - self.origin.y,
            r.direction.z == self.lower_left_corner.z - self.origin.z,
            r.wf(),
    {
        proof {
            lemma_mul_le(self.horizontal.x as int, u as int, 0x10_0000, 0x2_0000);
            lemma_mul_le(self.horizontal.y as int, u as int, 0x10_0000, 0x2_0000);
            lemma_mul_le(self.vertical.x as int, v as int, 0x10_0000, 0x2_0000);
            lemma_mul_le(self.vertical.y as int, v as int, 0x10_0000, 0x2_0000);
            lemma_tdiv_fits(self.horizontal.x as int * u as int, 65536, 0x20_0000);
            lemma_tdiv_fits(self.horizontal.y as int * u as int, 65536, 0x20_0000);
            lemma_tdiv_fits(self.vertical.x as int * v as int, 65536, 0x20_0000);
            lemma_tdiv_fits(self.vertical.y as int * v as int, 65536, 0x20_0000);
        }
        let hx: i64 = mul_fp(self.horizontal.x, u);
        let hy: i64 = mul_fp(self.horizontal.y, u);
        let vx: i64 = mul_fp(self.vertical.x, v);
        let vy: i64 = mul_fp(self.vertical.y, v);
        let dx: i64 = self.lower_left_corner.x + hx + vx - self.origin.x;
        let dy: i64 = self.lower_left_corner.y + hy + vy - self.origin.y;
        let dz: i64 = self.lower_left_corner.z - self.origin.z;
        let direction = Vec3 { x: dx, y: dy, z: dz };
        proof {
            lemma_comp_sq_le(direction);
            assert(dz as int * dz as int >= 65536) by (nonlinear_arith)
                requires
                    dz <= -256,
            ;
        }
        Ray { origin: self.origin, direction }
    }
}

} // verus!
