//! An ordered collection of scene objects.  Its intersection test selects
//! the closest member hit; the spec model below walks the sequence from
//! the front, narrowing the admissible distance interval exactly as the
//! executable loop does, and a strictly closer hit is needed to displace
//! an earlier one, so ties keep the first member found.

use vstd::prelude::*;
use crate::vec3::COORD_LIMIT;
use crate::ray::Ray;
use crate::sphere::{Sphere, spec_hit_t, spec_hit_record};
use crate::hit_record::HitRecord;

verus! {

pub struct HittableList {
    pub objects: Vec<Sphere>,
}

/// The closest hit among `objs` within `[t_min, t_max]`, together with
/// the index of the member that produced it.  Ties keep the earliest
/// member.
pub open spec fn spec_list_hit(objs: Seq<Sphere>, ray: Ray, t_min: int, t_max: int) -> Option<
    (int, int),
>
    decreases objs.len(),
{
    if objs.len() == 0 {
        None
    } else {
        match spec_hit_t(objs[0], ray, t_min, t_max) {
            None => match spec_list_hit(objs.skip(1), ray, t_min, t_max) {
                None => None,
                Some(p) => Some((p.0, p.1 + 1)),
            },
            Some(t) => match spec_list_hit(objs.skip(1), ray, t_min, t) {
                None => Some((t, 0)),
                Some(p) => if p.0 < t {
                    Some((p.0, p.1 + 1))
                } else {
                    Some((t, 0))
                },
            },
        }
    }
}

/// A reported hit lies in the queried interval and names a member.
pub proof fn lemma_list_hit_range(objs: Seq<Sphere>, ray: Ray, t_min: int, t_max: int)
    ensures
        spec_list_hit(objs, ray, t_min, t_max) matches Some(p) ==> t_min <= p.0 <= t_max && 0
            <= p.1 < objs.len(),
    decreases objs.len(),
{
    if objs.len() > 0 {
        match spec_hit_t(objs[0], ray, t_min, t_max) {
            None => {
                lemma_list_hit_range(objs.skip(1), ray, t_min, t_max);
            },
            Some(t) => {
                lemma_list_hit_range(objs.skip(1), ray, t_min, t);
            },
        }
    }
}

impl HittableList {
    /// Every member is a well-formed scene object.
    pub open spec fn wf(self) -> bool {
        forall|i: int| 0 <= i < self.objects@.len() ==> self.objects@[i].wf()
    }

    pub fn new() -> (r: HittableList)
        ensures
            r.objects@.len() == 0,
            r.wf(),
    {
        HittableList { objects: Vec::new() }
    }

    /// Appends an object to the scene.
    pub fn add(&mut self, object: Sphere)
        requires
            old(self).wf(),
            object.wf(),
        ensures
            final(self).objects@ == old(self).objects@.push(object),
            final(self).wf(),
    {
        self.objects.push(object);
    }

    /// The closest hit among all members within `[t_min, t_max]`: exactly
    /// the member and distance that `spec_list_hit` selects, with the
    /// record of that member's intersection test.
    pub fn hit(&self, ray: &Ray, t_min: i64, t_max: i64) -> (r: Option<HitRecord>)
        requires
            self.wf(),
            ray.wf(),
            0 <= t_min <= COORD_LIMIT,
            0 <= t_max <= COORD_LIMIT,
        ensures
            r.is_some() == spec_list_hit(self.objects@, *ray, t_min as int, t_max as int).is_some(),
            r matches Some(rec) ==> spec_list_hit(self.objects@, *ray, t_min as int, t_max as int)
                matches Some(p) && {
                &&& p.0 == rec.t as int
                &&& 0 <= p.1 < self.objects@.len()
                &&& spec_hit_record(self.objects@[p.1], *ray, rec.t as int, rec)
                &&& t_min <= rec.t <= t_max
                &&& rec.wf()
            },
    {
        let ghost objs = self.objects@;
        let mut best: Option<HitRecord> = None;
        let mut closest: i64 = t_max;
        let ghost mut bi: int = 0;
        let mut i: usize = 0;
        let n: usize = self.objects.len();
        proof {
            assert(objs.skip(0) =~= objs);
        }
        while i < n
            invariant
                self.wf(),
                ray.wf(),
                0 <= t_min <= COORD_LIMIT,
                0 <= t_max <= COORD_LIMIT,
                objs == self.objects@,
                n == objs.len(),
                0 <= i <= n,
                best matches None ==> closest == t_max,
                best matches Some(b) ==> {
                    &&& 0 <= bi < i
                    &&& closest == b.t
                    &&& t_min <= b.t <= t_max
                    &&& spec_hit_record(objs[bi], *ray, b.t as int, b)
                    &&& b.wf()
                },
                spec_list_hit(objs, *ray, t_min as int, t_max as int) == (match spec_list_hit(
                    objs.skip(i as int),
                    *ray,
                    t_min as int,
                    closest as int,
                ) {
                    None => match best {
                        None => None::<(int, int)>,
                        Some(b) => Some((b.t as int, bi)),
                    },
                    Some(p) => if best is None || p.0 < closest {
                        Some((p.0, p.1 + i))
                    } else {
                        Some((best->Some_0.t as int, bi))
                    },
                }),
            decreases n - i,
        {
            proof {
                assert(objs.skip(i as int)[0] == objs[i as int]);
                assert(objs.skip(i as int).skip(1) =~= objs.skip(i as int + 1));
                lemma_list_hit_range(objs.skip(i as int + 1), *ray, t_min as int, closest as int);
            }
            let cur: Option<HitRecord> = self.objects[i].hit(ray, t_min, closest);
            match cur {
                Some(rec) => {
                    proof {
                        lemma_list_hit_range(
                            objs.skip(i as int + 1),
                            *ray,
                            t_min as int,
                            rec.t as int,
                        );
                    }
                    if best.is_none() || rec.t < closest {
                        best = Some(rec);
                        closest = rec.t;
                        proof {
                            bi = i as int;
                        }
                    }
                },
                None => {},
            }
            i = i + 1;
        }
        proof {
            assert(objs.skip(n as int) =~= Seq::<Sphere>::empty());
        }
        best
    }
}

/// The collection always reports the globally closest valid hit: no
/// member's own intersection in the same interval is closer than what
/// the collection returns.
pub proof fn lemma_list_hit_closest(
    objs: Seq<Sphere>,
    ray: Ray,
    t_min: int,
    t_max: int,
    j: int,
    tj: int,
)
    requires
        ray.wf(),
        0 <= j < objs.len(),
        spec_hit_t(objs[j], ray, t_min, t_max) == Some(tj),
    ensures
        spec_list_hit(objs, ray, t_min, t_max) matches Some(p) && p.0 <= tj,
    decreases objs.len(),
{
    if j >= 1 {
        assert(objs.skip(1)[j - 1] == objs[1 + (j - 1)]);
    }
    match spec_hit_t(objs[0], ray, t_min, t_max) {
        None => {
            lemma_list_hit_closest(objs.skip(1), ray, t_min, t_max, j - 1, tj);
        },
        Some(t) => {
            if j == 0 {
                lemma_list_hit_range(objs.skip(1), ray, t_min, t);
            } else {
                crate::sphere::lemma_sphere_hit_narrow(objs[j], ray, t_min, t_max, t);
                if tj <= t {
                    lemma_list_hit_closest(objs.skip(1), ray, t_min, t, j - 1, tj);
                } else {
                    lemma_list_hit_range(objs.skip(1), ray, t_min, t);
                }
            }
        },
    }
}

} // verus!
