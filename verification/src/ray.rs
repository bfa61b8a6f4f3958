//! Rays: half-lines through the scene, parameterized by a fixed-point
//! distance along a near-unit direction.

use vstd::prelude::*;
use crate::fixed::{fmul, in_b};
use crate::vec3::{Vec3, Point3, V3i, dir_ok};

verus! {

/// Largest component magnitude a ray origin may carry.
pub const ORIGIN_MAX: i64 = 0x4000_0000;

/// Largest ray parameter the renderer traces to: 1024 units, the world
/// model's horizon. Geometry is meant to sit well inside it (the scene
/// bound is 1024 units and camera origins a few dozen); a surface placed
/// farther along a ray than this is treated as a miss of the open sky.
pub const T_MAX: i64 = 0x400_0000;

/// Smallest ray parameter accepted for a hit, guarding against re-hitting
/// the surface a scattered ray starts on (about one thousandth of a unit).
pub const T_MIN: i64 = 66;

/// A half-line: all points `origin + t * dir` for `t >= 0`.
#[derive(Clone, Copy, PartialEq, Eq, Structural, Debug)]
pub struct Ray {
    pub origin: Point3,
    pub dir: Vec3,
}

/// Value of the point a ray reaches at parameter `t`.
pub open spec fn sat(r: Ray, t: int) -> V3i {
    V3i {
        x: r.origin.x as int + fmul(t, r.dir.x as int),
        y: r.origin.y as int + fmul(t, r.dir.y as int),
        z: r.origin.z as int + fmul(t, r.dir.z as int),
    }
}

impl Ray {
    /// A well-formed ray: origin within the world bound and a near-unit,
    /// clearly nonzero direction.
    pub open spec fn wf(self) -> bool {
        self.origin.bounded(0x4000_0000) && dir_ok(self.dir)
    }

    pub fn new(origin: Point3, dir: Vec3) -> (r: Ray)
        ensures
            r == (Ray { origin, dir }),
    {
        Ray { origin, dir }
    }

    /// The point this ray reaches at parameter `t`.
    pub fn at(&self, t: i64) -> (r: Point3)
        requires
            self.wf(),
            0 <= t <= 0x400_0000,
        ensures
            r.vi() == sat(*self, t as int),
            r.bounded(0x4000_0000int + 0x480_0000),
    {
        proof {
            crate::fixed::lemma_fmul_bound(t as int, self.dir.x as int, 0x400_0000, 73728);
            crate::fixed::lemma_fmul_bound(t as int, self.dir.y as int, 0x400_0000, 73728);
            crate::fixed::lemma_fmul_bound(t as int, self.dir.z as int, 0x400_0000, 73728);
            assert(crate::fixed::tdiv(0x400_0000int * 73728, 65536) == 0x480_0000);
        }
        let px = self.origin.x + crate::fixed::fx_mul(t, self.dir.x);
        let py = self.origin.y + crate::fixed::fx_mul(t, self.dir.y);
        let pz = self.origin.z + crate::fixed::fx_mul(t, self.dir.z);
        Vec3 { x: px, y: py, z: pz }
    }
}

} // verus!
