//! The sole geometric primitive: a sphere, with its ray-intersection test.

use vstd::prelude::*;
use crate::fixed::{fmul, fdiv, fsqrt, in_b, tdiv, fx_mul, fx_div, fx_sqrt};
use crate::hitrecord::HitRecord;
use crate::material::Material;
use crate::ray::{Ray, sat};
use crate::vec3::{Vec3, Point3, V3i, sdot, slen_sq, v3};

verus! {

/// A sphere: centre, radius and the material of its surface.
#[derive(Clone, Copy, PartialEq, Eq, Structural, Debug)]
pub struct Sphere {
    pub centre: Point3,
    pub radius: i64,
    pub material: Material,
}

/// Value of `origin - centre` for the quadratic below.
pub open spec fn s_oc(s: Sphere, r: Ray) -> Vec3 {
    v3(
        r.origin.x as int - s.centre.x as int,
        r.origin.y as int - s.centre.y as int,
        r.origin.z as int - s.centre.z as int,
    )
}

/// Quadratic coefficient `a = dir . dir`.
pub open spec fn s_a(r: Ray) -> int {
    slen_sq(r.dir)
}

/// Quadratic coefficient `half_b = oc . dir`.
pub open spec fn s_halfb(s: Sphere, r: Ray) -> int {
    sdot(s_oc(s, r), r.dir)
}

/// Quadratic coefficient `c = oc . oc - radius^2`.
pub open spec fn s_c(s: Sphere, r: Ray) -> int {
    slen_sq(s_oc(s, r)) - fmul(s.radius as int, s.radius as int)
}

/// Discriminant of the half-angle quadratic.
pub open spec fn s_disc(s: Sphere, r: Ray) -> int {
    fmul(s_halfb(s, r), s_halfb(s, r)) - fmul(s_a(r), s_c(s, r))
}

/// The smaller root of the quadratic: the entry point of the ray.
pub open spec fn s_root(s: Sphere, r: Ray) -> int {
    fdiv(-s_halfb(s, r) - fsqrt(s_disc(s, r)), s_a(r))
}

/// Whether the hit data at parameter `root` is representable: the hit point
/// stays within the world bound and the outward normal is near-unit. Both
/// hold for every geometrically sensible hit; a hit that fails them is
/// discarded as out of range.
pub open spec fn s_hit_representable(s: Sphere, r: Ray, root: int) -> bool {
    let p = sat(r, root);
    let onx = fdiv(p.x - s.centre.x as int, s.radius as int);
    let ony = fdiv(p.y - s.centre.y as int, s.radius as int);
    let onz = fdiv(p.z - s.centre.z as int, s.radius as int);
    let on = v3(onx, ony, onz);
    in_b(p.x, 0x4000_0000) && in_b(p.y, 0x4000_0000) && in_b(p.z, 0x4000_0000) && in_b(onx, 73728)
        && in_b(ony, 73728) && in_b(onz, 73728) && slen_sq(on) >= 32768
}

/// Value of the intersection test: the record of the nearest hit strictly
/// within `[tmin, tmax]`, if any.
pub open spec fn ssphere_hit(s: Sphere, r: Ray, tmin: int, tmax: int) -> Option<HitRecord> {
    if s_disc(s, r) < 0 {
        None
    } else {
        let root = s_root(s, r);
        if root < tmin || root > tmax {
            None
        } else if !s_hit_representable(s, r, root) {
            None
        } else {
            let p = sat(r, root);
            let on = v3(
                fdiv(p.x - s.centre.x as int, s.radius as int),
                fdiv(p.y - s.centre.y as int, s.radius as int),
                fdiv(p.z - s.centre.z as int, s.radius as int),
            );
            let front = sdot(r.dir, on) < 0;
            let normal = if front {
                on
            } else {
                v3(-(on.x as int), -(on.y as int), -(on.z as int))
            };
            Some(
                HitRecord {
                    p: v3(p.x, p.y, p.z),
                    normal,
                    material: s.material,
                    t: root as i64,
                    front,
                },
            )
        }
    }
}

/// A hit is reported only at a parameter within the search interval.
pub proof fn lemma_sphere_hit_in_range(s: Sphere, r: Ray, tmin: int, tmax: int)
    requires
        0 < tmin,
        tmax <= 0x400_0000,
        ssphere_hit(s, r, tmin, tmax) is Some,
    ensures
        tmin <= (ssphere_hit(s, r, tmin, tmax)->Some_0).t <= tmax,
{
}

/// Shrinking the far end of the search interval keeps a hit exactly when
/// the hit still lies within it: the root of the quadratic does not depend
/// on the interval.
pub proof fn lemma_sphere_hit_shrink(s: Sphere, r: Ray, tmin: int, t1: int, t2: int)
    requires
        0 < tmin,
        t2 <= t1 <= 0x400_0000,
    ensures
        ssphere_hit(s, r, tmin, t2) == match ssphere_hit(s, r, tmin, t1) {
            Some(h) => if h.t <= t2 {
                Some(h)
            } else {
                None::<HitRecord>
            },
            None => None::<HitRecord>,
        },
{
}

impl Sphere {
    /// A well-formed sphere: centre within the scene bound, a positive,
    /// bounded radius, and meaningful material parameters.
    pub open spec fn wf(self) -> bool {
        self.centre.bounded(0x400_0000) && 0 < self.radius <= 0x400_0000 && self.material.wf()
    }

    pub fn new(c: Point3, r: i64, m: Material) -> (s: Sphere)
        requires
            c.bounded(0x400_0000),
            0 < r <= 0x400_0000,
            m.wf(),
        ensures
            s == (Sphere { centre: c, radius: r, material: m }),
            s.wf(),
    {
        Sphere { centre: c, radius: r, material: m }
    }

    /// Test this sphere against `r` within `[tmin, tmax]`, returning the
    /// record of the entry hit, if one lies in the interval and is
    /// representable.
    #[verifier::rlimit(100)]
    pub fn hit(&self, r: &Ray, tmin: i64, tmax: i64) -> (res: Option<HitRecord>)
        requires
            r.wf(),
            self.wf(),
            0 < tmin,
            tmax <= 0x400_0000,
        ensures
            res == ssphere_hit(*self, *r, tmin as int, tmax as int),
            res is Some ==> (res->Some_0).wf() && (res->Some_0).material == self.material && tmin
                <= (res->Some_0).t <= tmax,
    {
        let oc = r.origin.sub(&self.centre);
        assert(oc == s_oc(*self, *r));
        let a = r.dir.len_sq();
        proof {
            crate::fixed::lemma_fmul_bound(oc.x as int, oc.x as int, 0x4400_0000, 0x4400_0000);
            crate::fixed::lemma_fmul_bound(oc.y as int, oc.y as int, 0x4400_0000, 0x4400_0000);
            crate::fixed::lemma_fmul_bound(oc.z as int, oc.z as int, 0x4400_0000, 0x4400_0000);
            crate::fixed::lemma_fmul_bound(oc.x as int, r.dir.x as int, 0x4400_0000, 73728);
            crate::fixed::lemma_fmul_bound(oc.y as int, r.dir.y as int, 0x4400_0000, 73728);
            crate::fixed::lemma_fmul_bound(oc.z as int, r.dir.z as int, 0x4400_0000, 73728);
            crate::fixed::lemma_fmul_bound(r.dir.x as int, r.dir.x as int, 73728, 73728);
            crate::fixed::lemma_fmul_bound(r.dir.y as int, r.dir.y as int, 73728, 73728);
            crate::fixed::lemma_fmul_bound(r.dir.z as int, r.dir.z as int, 73728, 73728);
            crate::fixed::lemma_fmul_bound(
                self.radius as int,
                self.radius as int,
                0x400_0000,
                0x400_0000,
            );
        }
        let half_b = Vec3::dot(&oc, &r.dir);
        assert(in_b(half_b as int, 0xE6C0_0000));
        let ocls = oc.len_sq();
        assert(in_b(ocls as int, 3 * tdiv(0x4400_0000int * 0x4400_0000, 65536)));
        let c = ocls - fx_mul(self.radius, self.radius);
        assert(in_b(c as int, 0x4000_0000_0000));
        assert(in_b(a as int, 248832));
        proof {
            crate::fixed::lemma_fmul_bound(half_b as int, half_b as int, 0xE6C0_0000, 0xE6C0_0000);
            crate::fixed::lemma_fmul_bound(a as int, c as int, 248832, 0x4000_0000_0000);
        }
        let disc = fx_mul(half_b, half_b) - fx_mul(a, c);
        assert(disc as int == s_disc(*self, *r));
        if disc < 0 {
            return None;
        }
        let sd = fx_sqrt(disc);
        proof {
            assert(sd as int <= 0x3_0000_0000) by (nonlinear_arith)
                requires
                    0 <= sd,
                    sd as int * sd as int <= disc as int * 65536,
                    disc as int <= 0x4_0000_0000_0000,
            ;
        }
        let num = -half_b - sd;
        proof {
            assert(in_b(num as int * 65536, 0x4_0000_0000int * 0x10_0000)) by (nonlinear_arith)
                requires
                    in_b(num as int, 0x4_0000_0000),
            ;
            crate::fixed::lemma_tdiv_bound(
                num as int * 65536,
                a as int,
                0x4_0000_0000int * 0x10_0000,
            );
        }
        let root = fx_div(num, a);
        assert(root as int == s_root(*self, *r));
        if root < tmin || root > tmax {
            return None;
        }
        let p = r.at(root);
        if p.x < -0x4000_0000 || p.x > 0x4000_0000 || p.y < -0x4000_0000 || p.y > 0x4000_0000
            || p.z < -0x4000_0000 || p.z > 0x4000_0000 {
            return None;
        }
        let pc = p.sub(&self.centre);
        proof {
            assert(in_b(pc.x as int * 65536, 0x4400_0000int * 65536)) by (nonlinear_arith)
                requires
                    in_b(pc.x as int, 0x4400_0000),
            ;
            assert(in_b(pc.y as int * 65536, 0x4400_0000int * 65536)) by (nonlinear_arith)
                requires
                    in_b(pc.y as int, 0x4400_0000),
            ;
            assert(in_b(pc.z as int * 65536, 0x4400_0000int * 65536)) by (nonlinear_arith)
                requires
                    in_b(pc.z as int, 0x4400_0000),
            ;
            crate::fixed::lemma_tdiv_bound(
                pc.x as int * 65536,
                self.radius as int,
                0x4400_0000int * 65536,
            );
            crate::fixed::lemma_tdiv_bound(
                pc.y as int * 65536,
                self.radius as int,
                0x4400_0000int * 65536,
            );
            crate::fixed::lemma_tdiv_bound(
                pc.z as int * 65536,
                self.radius as int,
                0x4400_0000int * 65536,
            );
        }
        let onx = fx_div(pc.x, self.radius);
        let ony = fx_div(pc.y, self.radius);
        let onz = fx_div(pc.z, self.radius);
        if onx < -73728 || onx > 73728 || ony < -73728 || ony > 73728 || onz < -73728 || onz > 73728
        {
            return None;
        }
        let on = Vec3 { x: onx, y: ony, z: onz };
        let ls = on.len_sq();
        if ls < 32768 {
            return None;
        }
        let rec = HitRecord::new(r, root, &on, self.material);
        proof {
            if !(sdot(r.dir, on) < 0) {
                crate::fixed::lemma_fmul_neg(on.x as int, on.x as int);
                crate::fixed::lemma_fmul_neg(on.x as int, -(on.x as int));
                crate::fixed::lemma_fmul_neg(on.y as int, on.y as int);
                crate::fixed::lemma_fmul_neg(on.y as int, -(on.y as int));
                crate::fixed::lemma_fmul_neg(on.z as int, on.z as int);
                crate::fixed::lemma_fmul_neg(on.z as int, -(on.z as int));
            }
        }
        Some(rec)
    }
}

} // verus!
