//! The scene container: an insertion-ordered sequence of objects with
//! nearest-hit resolution.

use vstd::prelude::*;
use crate::hitrecord::HitRecord;
use crate::hittable::{Hittable, shittable_hit};
use crate::ray::Ray;

verus! {

/// Value of the container's fold: test objects in insertion order, keeping
/// the nearest hit seen so far as the shrinking upper bound of the search
/// interval. A later object replaces the running record only at a strictly
/// smaller parameter, so on an exact tie the first-seen object wins.
pub open spec fn slist_hit(objs: Seq<Hittable>, r: Ray, tmin: int, tmax: int) -> Option<HitRecord>
    decreases objs.len(),
{
    if objs.len() == 0 {
        None
    } else {
        let prev = slist_hit(objs.drop_last(), r, tmin, tmax);
        let bound = match prev {
            Some(h) => h.t as int,
            None => tmax,
        };
        match shittable_hit(objs.last(), r, tmin, bound) {
            Some(h) => match prev {
                Some(h0) => if h.t < h0.t {
                    Some(h)
                } else {
                    prev
                },
                None => Some(h),
            },
            None => prev,
        }
    }
}

/// Nearest-hit resolution is truly nearest: whenever any object of the
/// scene registers a hit on its own, the fold returns a hit, and at a
/// parameter no larger than that object's.
pub proof fn lemma_list_hit_minimal(objs: Seq<Hittable>, r: Ray, tmin: int, tmax: int)
    requires
        0 < tmin,
        tmax <= 0x400_0000,
    ensures
        forall|i: int|
            0 <= i < objs.len() && #[trigger] shittable_hit(objs[i], r, tmin, tmax) is Some
                ==> slist_hit(objs, r, tmin, tmax) is Some && (slist_hit(
                objs,
                r,
                tmin,
                tmax,
            )->Some_0).t <= (shittable_hit(objs[i], r, tmin, tmax)->Some_0).t,
        slist_hit(objs, r, tmin, tmax) is Some ==> tmin <= (slist_hit(
            objs,
            r,
            tmin,
            tmax,
        )->Some_0).t <= tmax,
    decreases objs.len(),
{
    if objs.len() > 0 {
        let rest = objs.drop_last();
        lemma_list_hit_minimal(rest, r, tmin, tmax);
        let prev = slist_hit(rest, r, tmin, tmax);
        let bound: int = match prev {
            Some(h) => h.t as int,
            None => tmax,
        };
        let last = objs.last();
        match last {
            Hittable::Sphere(sl) => {
                if shittable_hit(last, r, tmin, bound) is Some {
                    crate::sphere::lemma_sphere_hit_in_range(sl, r, tmin, bound);
                }
                assert forall|i: int|
                    0 <= i < objs.len() && #[trigger] shittable_hit(objs[i], r, tmin, tmax)
                        is Some implies slist_hit(objs, r, tmin, tmax) is Some && (slist_hit(
                    objs,
                    r,
                    tmin,
                    tmax,
                )->Some_0).t <= (shittable_hit(objs[i], r, tmin, tmax)->Some_0).t by {
                    if i < objs.len() - 1 {
                        assert(rest[i] == objs[i]);
                    } else {
                        let hn = shittable_hit(last, r, tmin, tmax)->Some_0;
                        crate::sphere::lemma_sphere_hit_shrink(sl, r, tmin, tmax, bound);
                    }
                }
            },
        }
    }
}

/// Nearest-hit resolution of two overlapping objects along one ray: the
/// container returns the record of the nearer one, and swapping their
/// insertion order does not change the result.
pub proof fn lemma_nearest_of_two(a: Hittable, b: Hittable, r: Ray, tmin: int, tmax: int)
    requires
        0 < tmin,
        tmax <= 0x400_0000,
        shittable_hit(a, r, tmin, tmax) is Some,
        shittable_hit(b, r, tmin, tmax) is Some,
        (shittable_hit(a, r, tmin, tmax)->Some_0).t < (shittable_hit(b, r, tmin, tmax)->Some_0).t,
    ensures
        slist_hit(seq![a, b], r, tmin, tmax) == shittable_hit(a, r, tmin, tmax),
        slist_hit(seq![b, a], r, tmin, tmax) == shittable_hit(a, r, tmin, tmax),
{
    let ha = shittable_hit(a, r, tmin, tmax)->Some_0;
    let hb = shittable_hit(b, r, tmin, tmax)->Some_0;
    match a {
        Hittable::Sphere(sa) => match b {
            Hittable::Sphere(sb) => {
                assert(ha.t <= tmax && hb.t <= tmax) by {
                    crate::sphere::lemma_sphere_hit_shrink(sa, r, tmin, tmax, tmax);
                    crate::sphere::lemma_sphere_hit_shrink(sb, r, tmin, tmax, tmax);
                }
                reveal_with_fuel(slist_hit, 3);
                let ab = seq![a, b];
                assert(ab.drop_last() =~= seq![a]);
                assert(seq![a].drop_last() =~= Seq::<Hittable>::empty());
                assert(slist_hit(seq![a], r, tmin, tmax) == Some(ha));
                crate::sphere::lemma_sphere_hit_shrink(sb, r, tmin, tmax, ha.t as int);
                assert(shittable_hit(b, r, tmin, ha.t as int) is None);
                assert(slist_hit(ab, r, tmin, tmax) == Some(ha));
                let ba = seq![b, a];
                assert(ba.drop_last() =~= seq![b]);
                assert(seq![b].drop_last() =~= Seq::<Hittable>::empty());
                assert(slist_hit(seq![b], r, tmin, tmax) == Some(hb));
                crate::sphere::lemma_sphere_hit_shrink(sa, r, tmin, tmax, hb.t as int);
                assert(shittable_hit(a, r, tmin, hb.t as int) == Some(ha));
                assert(slist_hit(ba, r, tmin, tmax) == Some(ha));
            },
        },
    }
}

/// On an exact tie of entry parameters, the first-seen object wins: a
/// later object must beat a strictly smaller bound to replace the running
/// record.
pub proof fn lemma_tie_first_wins(a: Hittable, b: Hittable, r: Ray, tmin: int, tmax: int)
    requires
        0 < tmin,
        tmax <= 0x400_0000,
        shittable_hit(a, r, tmin, tmax) is Some,
        shittable_hit(b, r, tmin, tmax) is Some,
        (shittable_hit(a, r, tmin, tmax)->Some_0).t == (shittable_hit(b, r, tmin, tmax)->Some_0).t,
    ensures
        slist_hit(seq![a, b], r, tmin, tmax) == shittable_hit(a, r, tmin, tmax),
        slist_hit(seq![b, a], r, tmin, tmax) == shittable_hit(b, r, tmin, tmax),
{
    let ha = shittable_hit(a, r, tmin, tmax)->Some_0;
    let hb = shittable_hit(b, r, tmin, tmax)->Some_0;
    match a {
        Hittable::Sphere(sa) => match b {
            Hittable::Sphere(sb) => {
                assert(ha.t <= tmax && hb.t <= tmax) by {
                    crate::sphere::lemma_sphere_hit_in_range(sa, r, tmin, tmax);
                    crate::sphere::lemma_sphere_hit_in_range(sb, r, tmin, tmax);
                }
                reveal_with_fuel(slist_hit, 3);
                let ab = seq![a, b];
                assert(ab.drop_last() =~= seq![a]);
                assert(seq![a].drop_last() =~= Seq::<Hittable>::empty());
                assert(slist_hit(seq![a], r, tmin, tmax) == Some(ha));
                crate::sphere::lemma_sphere_hit_shrink(sb, r, tmin, tmax, ha.t as int);
                assert(slist_hit(ab, r, tmin, tmax) == Some(ha));
                let ba = seq![b, a];
                assert(ba.drop_last() =~= seq![b]);
                assert(seq![b].drop_last() =~= Seq::<Hittable>::empty());
                assert(slist_hit(seq![b], r, tmin, tmax) == Some(hb));
                crate::sphere::lemma_sphere_hit_shrink(sa, r, tmin, tmax, hb.t as int);
                assert(slist_hit(ba, r, tmin, tmax) == Some(hb));
            },
        },
    }
}

/// An insertion-ordered scene of objects, itself intersectable.
#[derive(Clone, Debug)]
pub struct HittableList {
    pub list: Vec<Hittable>,
}

impl HittableList {
    /// Every object of the scene is well-formed.
    pub open spec fn wf(self) -> bool {
        forall|i: int| 0 <= i < self.list.len() ==> self.list[i].wf()
    }

    pub fn new() -> (s: HittableList)
        ensures
            s.list@ == Seq::<Hittable>::empty(),
            s.wf(),
    {
        HittableList { list: Vec::new() }
    }

    /// Append an object; insertion order is the tie-break order of the
    /// nearest-hit fold.
    pub fn add(&mut self, o: Hittable)
        requires
            o.wf(),
        ensures
            final(self).list@ == old(self).list@.push(o),
            old(self).wf() ==> final(self).wf(),
    {
        self.list.push(o);
    }

    /// Resolve the nearest hit of `r` among all objects within
    /// `[tmin, tmax]`.
    pub fn hit(&self, r: &Ray, tmin: i64, tmax: i64) -> (res: Option<HitRecord>)
        requires
            r.wf(),
            self.wf(),
            0 < tmin,
            tmax <= 0x400_0000,
        ensures
            res == slist_hit(self.list@, *r, tmin as int, tmax as int),
            res is Some ==> (res->Some_0).wf() && tmin <= (res->Some_0).t <= tmax,
    {
        let mut rec: Option<HitRecord> = None;
        let mut closest: i64 = tmax;
        let n = self.list.len();
        let mut i: usize = 0;
        while i < n
            invariant
                0 <= i <= n,
                n == self.list.len(),
                self.wf(),
                r.wf(),
                0 < tmin,
                tmax <= 0x400_0000,
                match rec {
                    Some(h) => slist_hit(self.list@.take(i as int), *r, tmin as int, tmax as int)
                        == Some(h) && closest == h.t && h.wf() && tmin <= h.t <= tmax,
                    None => slist_hit(self.list@.take(i as int), *r, tmin as int, tmax as int)
                        is None && closest == tmax,
                },
            decreases n - i,
        {
            proof {
                assert(self.list@.take(i as int + 1).drop_last() == self.list@.take(i as int));
                assert(self.list@.take(i as int + 1).last() == self.list@[i as int]);
            }
            match self.list[i].hit(r, tmin, closest) {
                None => {},
                Some(h) => {
                    if rec.is_none() || h.t < closest {
                        closest = h.t;
                        rec = Some(h);
                    }
                },
            }
            i = i + 1;
        }
        proof {
            assert(self.list@.take(n as int) == self.list@);
        }
        rec
    }
}

} // verus!
