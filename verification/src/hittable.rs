//! The closed family of intersectable objects. The sphere is its only
//! primitive; the scene container folds over values of this type.

use vstd::prelude::*;
use crate::hitrecord::HitRecord;
use crate::ray::Ray;
use crate::sphere::{Sphere, ssphere_hit};

verus! {

/// An object a ray can strike.
#[derive(Clone, Copy, PartialEq, Eq, Structural, Debug)]
pub enum Hittable {
    Sphere(Sphere),
}

/// Value of the intersection test of one object.
pub open spec fn shittable_hit(h: Hittable, r: Ray, tmin: int, tmax: int) -> Option<HitRecord> {
    match h {
        Hittable::Sphere(s) => ssphere_hit(s, r, tmin, tmax),
    }
}

impl Hittable {
    pub open spec fn wf(self) -> bool {
        match self {
            Hittable::Sphere(s) => s.wf(),
        }
    }

    /// Test this object against `r` within `[tmin, tmax]`.
    pub fn hit(&self, r: &Ray, tmin: i64, tmax: i64) -> (res: Option<HitRecord>)
        requires
            r.wf(),
            self.wf(),
            0 < tmin,
            tmax <= 0x400_0000,
        ensures
            res == shittable_hit(*self, *r, tmin as int, tmax as int),
            res is Some ==> (res->Some_0).wf() && tmin <= (res->Some_0).t <= tmax,
    {
        match self {
            Hittable::Sphere(s) => s.hit(r, tmin, tmax),
        }
    }
}

} // verus!
