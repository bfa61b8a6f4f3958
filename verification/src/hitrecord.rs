//! The record a successful ray/geometry intersection produces, consumed
//! immediately by material scattering.

use vstd::prelude::*;
use crate::fixed::in_b;
use crate::material::Material;
use crate::ray::{Ray, sat};
use crate::vec3::{Vec3, Point3, V3i, sdot, slen_sq};

verus! {

/// A hit: the point reached, the surface normal there (always oriented
/// against the incoming ray), the surface's material, the ray parameter of
/// the hit, and whether the ray struck the front (outer) side.
#[derive(Clone, Copy, PartialEq, Eq, Structural, Debug)]
pub struct HitRecord {
    pub p: Point3,
    pub normal: Vec3,
    pub material: Material,
    pub t: i64,
    pub front: bool,
}

impl HitRecord {
    /// A record fit for further scattering: the hit point can serve as the
    /// origin of the next ray, the normal as a direction.
    pub open spec fn wf(self) -> bool {
        &&& self.p.bounded(0x4000_0000)
        &&& crate::vec3::dir_ok(self.normal)
        &&& 0 < self.t <= 0x400_0000
        &&& self.material.wf()
    }

    /// Build the record for a hit of ray `r` at parameter `root`, orienting
    /// `outward_normal` against the ray and remembering in `front` whether
    /// it already pointed that way.
    pub fn new(r: &Ray, root: i64, outward_normal: &Vec3, m: Material) -> (rec: HitRecord)
        requires
            r.wf(),
            0 <= root <= 0x400_0000,
            outward_normal.bounded(73728),
        ensures
            rec.p.vi() == sat(*r, root as int),
            rec.t == root,
            rec.material == m,
            rec.front == (sdot(r.dir, *outward_normal) < 0),
            rec.front ==> rec.normal == *outward_normal,
            !rec.front ==> rec.normal.vi() == (V3i {
                x: -(outward_normal.x as int),
                y: -(outward_normal.y as int),
                z: -(outward_normal.z as int),
            }),
            sdot(r.dir, rec.normal) <= 0,
    {
        let p = r.at(root);
        let front = Vec3::dot(&r.dir, outward_normal) < 0;
        let normal = if front {
            *outward_normal
        } else {
            proof {
                crate::fixed::lemma_fmul_neg(r.dir.x as int, outward_normal.x as int);
                crate::fixed::lemma_fmul_neg(r.dir.y as int, outward_normal.y as int);
                crate::fixed::lemma_fmul_neg(r.dir.z as int, outward_normal.z as int);
            }
            outward_normal.neg()
        };
        HitRecord { p, normal, t: root, front, material: m }
    }
}

} // verus!
