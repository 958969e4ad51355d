//! The transient result of a successful intersection test: distance, hit
//! point, a unit-scale normal oriented against the incoming ray, the
//! front-face flag, and the material at the point.

use vstd::prelude::*;
use crate::fixed::FP_ONE;
use crate::vec3::{Vec3, Point3, neg3, dot3, bounded3};
use crate::ray::Ray;
use crate::material::Material;

verus! {

#[derive(Clone, Copy, PartialEq, Eq, Structural, Debug)]
pub struct HitRecord {
    /// Hit distance along the ray.
    pub t: i64,
    /// The hit point.
    pub p: Point3,
    /// Unit-scale normal, oriented to oppose the incoming ray.
    pub normal: Vec3,
    /// Whether the ray met the surface from its outward side.
    pub front_face: bool,
    /// The material of the object that was hit.
    pub material: Material,
}

impl HitRecord {
    /// What every record handed out by an intersection test satisfies:
    /// the point is inside scene bounds, the normal has unit scale (its
    /// raw squared norm at most six ulps below one, so it is never near
    /// zero), and the material is a scene material.
    pub open spec fn wf(self) -> bool {
        &&& self.t >= 0
        &&& self.p.wf()
        &&& bounded3(self.normal.tup(), FP_ONE as int)
        &&& dot3(self.normal.tup(), self.normal.tup()) >= 4294574080
        &&& self.material.wf()
    }

    /// Stores the outward normal oriented against the ray: the flag
    /// records whether the ray arrived from the outward side, and the
    /// stored normal is flipped when it did not.
    pub fn set_face_normal(&mut self, ray: &Ray, outward_normal: Vec3)
        requires
            old(self).t >= 0,
            old(self).p.wf(),
            old(self).material.wf(),
            ray.direction.wf(),
            bounded3(outward_normal.tup(), FP_ONE as int),
            dot3(outward_normal.tup(), outward_normal.tup()) >= 4294574080,
        ensures
            final(self).front_face == (dot3(ray.direction.tup(), outward_normal.tup()) < 0),
            final(self).normal.tup() == (if dot3(ray.direction.tup(), outward_normal.tup()) < 0 {
                outward_normal.tup()
            } else {
                neg3(outward_normal.tup())
            }),
            final(self).t == old(self).t,
            final(self).p == old(self).p,
            final(self).material == old(self).material,
            final(self).wf(),
    {
        let d: i128 = ray.direction.dot_wide(&outward_normal);
        proof {
            crate::vec3::lemma_neg_dot(outward_normal.tup(), outward_normal.tup());
        }
        self.front_face = d < 0;
        self.normal = if self.front_face {
            outward_normal
        } else {
            outward_normal.neg()
        };
    }
}

} // verus!
