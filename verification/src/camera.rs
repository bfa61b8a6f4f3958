//! The pinhole camera: a precomputed screen basis mapping normalized screen
//! coordinates to rays. Deriving the basis from a field of view and a
//! look-at point is the caller's affair; the mapping itself is exact.

use vstd::prelude::*;
use crate::fixed::{fmul, in_b};
use crate::ray::Ray;
use crate::vec3::{Vec3, Point3, sunit, v3};

verus! {

/// A camera: rays start at `origin` and pass through
/// `lower_left + s * horizontal + t * vertical` on the screen plane.
#[derive(Clone, Copy, PartialEq, Eq, Structural, Debug)]
pub struct Camera {
    pub origin: Point3,
    pub lower_left: Point3,
    pub horizontal: Vec3,
    pub vertical: Vec3,
}

/// Value of the unnormalized direction towards screen coordinate `(s, t)`.
pub open spec fn scam_dir(cam: Camera, s: int, t: int) -> Vec3 {
    v3(
        cam.lower_left.x as int + fmul(s, cam.horizontal.x as int) + fmul(t, cam.vertical.x as int)
            - cam.origin.x as int,
        cam.lower_left.y as int + fmul(s, cam.horizontal.y as int) + fmul(t, cam.vertical.y as int)
            - cam.origin.y as int,
        cam.lower_left.z as int + fmul(s, cam.horizontal.z as int) + fmul(t, cam.vertical.z as int)
            - cam.origin.z as int,
    )
}

/// Value of the camera ray at `(s, t)`: the normalized direction, absent
/// when the screen point degenerates onto the origin.
pub open spec fn scam_ray(cam: Camera, s: int, t: int) -> Option<Ray> {
    match sunit(scam_dir(cam, s, t)) {
        Some(u) => Some(Ray { origin: cam.origin, dir: u }),
        None => None,
    }
}

impl Camera {
    /// A well-formed camera: basis vectors within a quarter of the world
    /// bound, so every screen direction stays representable.
    pub open spec fn wf(self) -> bool {
        self.origin.bounded(0x1000_0000) && self.lower_left.bounded(0x1000_0000)
            && self.horizontal.bounded(0x1000_0000) && self.vertical.bounded(0x1000_0000)
    }

    pub fn new(origin: Point3, lower_left: Point3, horizontal: Vec3, vertical: Vec3) -> (c: Camera)
        requires
            origin.bounded(0x1000_0000),
            lower_left.bounded(0x1000_0000),
            horizontal.bounded(0x1000_0000),
            vertical.bounded(0x1000_0000),
        ensures
            c == (Camera { origin, lower_left, horizontal, vertical }),
            c.wf(),
    {
        Camera { origin, lower_left, horizontal, vertical }
    }

    /// The ray towards normalized screen coordinate `(s, t)`, both in the
    /// unit interval.
    pub fn get_ray(&self, s: i64, t: i64) -> (r: Option<Ray>)
        requires
            self.wf(),
            0 <= s <= 65536,
            0 <= t <= 65536,
        ensures
            r == scam_ray(*self, s as int, t as int),
            r is Some ==> (r->Some_0).wf(),
    {
        proof {
            crate::fixed::lemma_fmul_bound(s as int, self.horizontal.x as int, 65536, 0x1000_0000);
            crate::fixed::lemma_fmul_bound(s as int, self.horizontal.y as int, 65536, 0x1000_0000);
            crate::fixed::lemma_fmul_bound(s as int, self.horizontal.z as int, 65536, 0x1000_0000);
            crate::fixed::lemma_fmul_bound(t as int, self.vertical.x as int, 65536, 0x1000_0000);
            crate::fixed::lemma_fmul_bound(t as int, self.vertical.y as int, 65536, 0x1000_0000);
            crate::fixed::lemma_fmul_bound(t as int, self.vertical.z as int, 65536, 0x1000_0000);
        }
        let dx = self.lower_left.x + crate::fixed::fx_mul(s, self.horizontal.x) + crate::fixed::fx_mul(
            t,
            self.vertical.x,
        ) - self.origin.x;
        let dy = self.lower_left.y + crate::fixed::fx_mul(s, self.horizontal.y) + crate::fixed::fx_mul(
            t,
            self.vertical.y,
        ) - self.origin.y;
        let dz = self.lower_left.z + crate::fixed::fx_mul(s, self.horizontal.z) + crate::fixed::fx_mul(
            t,
            self.vertical.z,
        ) - self.origin.z;
        let d = Vec3 { x: dx, y: dy, z: dz };
        assert(d == scam_dir(*self, s as int, t as int));
        match Vec3::unit_checked(&d) {
            Some(u) => Some(Ray::new(self.origin, u)),
            None => None,
        }
    }
}

} // verus!
