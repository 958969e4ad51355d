//! A ray is the half-line `origin + t * direction`.  Directions are never
//! normalized implicitly; a well-formed ray only promises a direction that
//! is not degenerately short.

use vstd::prelude::*;
use crate::fixed::{sabs, mul_fp, lemma_mul_le, lemma_tdiv_fits, FP_ONE};
use crate::vec3::{Vec3, Point3, add3, scale3, dot3, bounded3, COORD_LIMIT};

verus! {

#[derive(Clone, Copy, PartialEq, Eq, Structural, Debug)]
pub struct Ray {
    pub origin: Point3,
    pub direction: Vec3,
}

impl Ray {
    /// A ray the tracer may follow: both fields within scene bounds and a
    /// direction long enough that intersection arithmetic stays sound
    /// (a zero-direction ray is a disallowed input, not a recovered one).
    pub open spec fn wf(self) -> bool {
        &&& self.origin.wf()
        &&& self.direction.wf()
        &&& dot3(self.direction.tup(), self.direction.tup()) >= FP_ONE as int
    }

    /// The point reached after parameter `t`, componentwise in fixed point.
    pub open spec fn spec_at(self, t: int) -> (int, int, int) {
        add3(self.origin.tup(), scale3(self.direction.tup(), t))
    }

    pub fn new(origin: Point3, direction: Vec3) -> (r: Ray)
        ensures
            r == (Ray { origin, direction }),
    {
        Ray { origin, direction }
    }

    pub fn origin(&self) -> (r: Point3)
        ensures
            r == self.origin,
    {
        self.origin
    }

    pub fn direction(&self) -> (r: Vec3)
        ensures
            r == self.direction,
    {
        self.direction
    }

    /// `origin + t * direction`.
    pub fn at(&self, t: i64) -> (r: Point3)
        requires
            self.origin.wf(),
            self.direction.wf(),
            sabs(t as int) <= COORD_LIMIT as int,
        ensures
            r.tup() == self.spec_at(t as int),
            bounded3(r.tup(), 0x20_0000_0000),
    {
        proof {
            lemma_mul_le(self.direction.x as int, t as int, COORD_LIMIT as int, COORD_LIMIT as int);
            lemma_mul_le(self.direction.y as int, t as int, COORD_LIMIT as int, COORD_LIMIT as int);
            lemma_mul_le(self.direction.z as int, t as int, COORD_LIMIT as int, COORD_LIMIT as int);
            lemma_tdiv_fits(self.direction.x as int * t as int, FP_ONE as int, 0x10_0000_0000);
            lemma_tdiv_fits(self.direction.y as int * t as int, FP_ONE as int, 0x10_0000_0000);
            lemma_tdiv_fits(self.direction.z as int * t as int, FP_ONE as int, 0x10_0000_0000);
        }
        let sx: i64 = mul_fp(self.direction.x, t);
        let sy: i64 = mul_fp(self.direction.y, t);
        let sz: i64 = mul_fp(self.direction.z, t);
        Vec3 { x: self.origin.x + sx, y: self.origin.y + sy, z: self.origin.z + sz }
    }
}

} // verus!
