//! Three-component fixed-point vectors, used for points, directions and
//! colours.

use vstd::prelude::*;
use crate::fixed::{fmul, fdiv, fsqrt, in_b, tdiv, fx_mul, fx_div, fx_sqrt};

verus! {

/// A vector of three fixed-point scalars.
#[derive(Clone, Copy, PartialEq, Eq, Structural, Debug)]
pub struct Vec3 {
    pub x: i64,
    pub y: i64,
    pub z: i64,
}

/// A location in space.
pub type Point3 = Vec3;

/// An RGB colour; each channel denotes an intensity in `[0, 1]`.
pub type Colour = Vec3;

/// The mathematical value of a vector: its components as unbounded integers.
pub ghost struct V3i {
    pub x: int,
    pub y: int,
    pub z: int,
}

/// Build a vector from mathematical component values; meaningful when each
/// fits an `i64`, which every use proves.
pub open spec fn v3(x: int, y: int, z: int) -> Vec3 {
    Vec3 { x: x as i64, y: y as i64, z: z as i64 }
}

/// Componentwise sum.
pub open spec fn svadd(a: Vec3, b: Vec3) -> Vec3 {
    v3(a.x as int + b.x as int, a.y as int + b.y as int, a.z as int + b.z as int)
}

/// Componentwise scaling by the fixed-point scalar `s`.
pub open spec fn svscale(a: Vec3, s: int) -> Vec3 {
    v3(fmul(a.x as int, s), fmul(a.y as int, s), fmul(a.z as int, s))
}

/// A well-formed colour: every channel inside the unit interval.
pub open spec fn colour_wf(c: Colour) -> bool {
    0 <= c.x <= 65536 && 0 <= c.y <= 65536 && 0 <= c.z <= 65536
}

/// Value of the dot product of two vectors.
pub open spec fn sdot(a: Vec3, b: Vec3) -> int {
    fmul(a.x as int, b.x as int) + fmul(a.y as int, b.y as int) + fmul(a.z as int, b.z as int)
}

/// Value of the squared length of a vector.
pub open spec fn slen_sq(v: Vec3) -> int {
    sdot(v, v)
}

/// Value of the (truncated) length of a vector.
pub open spec fn slen(v: Vec3) -> int {
    fsqrt(slen_sq(v))
}

impl Vec3 {
    /// Whether every component lies within the symmetric bound `m`.
    pub open spec fn bounded(self, m: int) -> bool {
        in_b(self.x as int, m) && in_b(self.y as int, m) && in_b(self.z as int, m)
    }

    /// The mathematical value of this vector.
    pub open spec fn vi(self) -> V3i {
        V3i { x: self.x as int, y: self.y as int, z: self.z as int }
    }

    pub fn new(x: i64, y: i64, z: i64) -> (r: Vec3)
        ensures
            r == (Vec3 { x, y, z }),
    {
        Vec3 { x, y, z }
    }

    pub fn add(&self, o: &Vec3) -> (r: Vec3)
        requires
            self.bounded(0x2000_0000_0000_0000),
            o.bounded(0x2000_0000_0000_0000),
        ensures
            r.x as int == self.x as int + o.x as int,
            r.y as int == self.y as int + o.y as int,
            r.z as int == self.z as int + o.z as int,
    {
        Vec3 { x: self.x + o.x, y: self.y + o.y, z: self.z + o.z }
    }

    pub fn sub(&self, o: &Vec3) -> (r: Vec3)
        requires
            self.bounded(0x2000_0000_0000_0000),
            o.bounded(0x2000_0000_0000_0000),
        ensures
            r.x as int == self.x as int - o.x as int,
            r.y as int == self.y as int - o.y as int,
            r.z as int == self.z as int - o.z as int,
    {
        Vec3 { x: self.x - o.x, y: self.y - o.y, z: self.z - o.z }
    }

    pub fn neg(&self) -> (r: Vec3)
        requires
            self.bounded(0x2000_0000_0000_0000),
        ensures
            r.x as int == -(self.x as int),
            r.y as int == -(self.y as int),
            r.z as int == -(self.z as int),
    {
        Vec3 { x: -self.x, y: -self.y, z: -self.z }
    }

    /// Multiply every component by the fixed-point scalar `s`.
    pub fn scale(&self, s: i64) -> (r: Vec3)
        requires
            self.bounded(0x40_0000_0000),
            in_b(s as int, 0x40_0000_0000),
        ensures
            r.x as int == fmul(self.x as int, s as int),
            r.y as int == fmul(self.y as int, s as int),
            r.z as int == fmul(self.z as int, s as int),
    {
        proof {
            crate::fixed::lemma_fmul_bound(self.x as int, s as int, 0x40_0000_0000, 0x40_0000_0000);
            crate::fixed::lemma_fmul_bound(self.y as int, s as int, 0x40_0000_0000, 0x40_0000_0000);
            crate::fixed::lemma_fmul_bound(self.z as int, s as int, 0x40_0000_0000, 0x40_0000_0000);
        }
        Vec3 { x: fx_mul(self.x, s), y: fx_mul(self.y, s), z: fx_mul(self.z, s) }
    }

    /// Componentwise product, used to attenuate one colour by another.
    pub fn cmul(&self, o: &Vec3) -> (r: Vec3)
        requires
            self.bounded(0x40_0000_0000),
            o.bounded(0x40_0000_0000),
        ensures
            r.x as int == fmul(self.x as int, o.x as int),
            r.y as int == fmul(self.y as int, o.y as int),
            r.z as int == fmul(self.z as int, o.z as int),
    {
        proof {
            crate::fixed::lemma_fmul_bound(self.x as int, o.x as int, 0x40_0000_0000, 0x40_0000_0000);
            crate::fixed::lemma_fmul_bound(self.y as int, o.y as int, 0x40_0000_0000, 0x40_0000_0000);
            crate::fixed::lemma_fmul_bound(self.z as int, o.z as int, 0x40_0000_0000, 0x40_0000_0000);
        }
        Vec3 { x: fx_mul(self.x, o.x), y: fx_mul(self.y, o.y), z: fx_mul(self.z, o.z) }
    }

    pub fn dot(a: &Vec3, b: &Vec3) -> (r: i64)
        requires
            a.bounded(0x40_0000_0000),
            b.bounded(0x40_0000_0000),
        ensures
            r as int == sdot(*a, *b),
            in_b(r as int, 3 * tdiv(0x40_0000_0000int * 0x40_0000_0000, 65536)),
    {
        proof {
            crate::fixed::lemma_fmul_bound(a.x as int, b.x as int, 0x40_0000_0000, 0x40_0000_0000);
            crate::fixed::lemma_fmul_bound(a.y as int, b.y as int, 0x40_0000_0000, 0x40_0000_0000);
            crate::fixed::lemma_fmul_bound(a.z as int, b.z as int, 0x40_0000_0000, 0x40_0000_0000);
        }
        fx_mul(a.x, b.x) + fx_mul(a.y, b.y) + fx_mul(a.z, b.z)
    }

    pub fn len_sq(&self) -> (r: i64)
        requires
            self.bounded(0x40_0000_0000),
        ensures
            r as int == slen_sq(*self),
            r >= 0,
    {
        proof {
            crate::fixed::lemma_fmul_self_nonneg(self.x as int);
            crate::fixed::lemma_fmul_self_nonneg(self.y as int);
            crate::fixed::lemma_fmul_self_nonneg(self.z as int);
        }
        Vec3::dot(self, self)
    }

    pub fn len(&self) -> (r: i64)
        requires
            self.bounded(0x40_0000_0000),
        ensures
            r as int == slen(*self),
            r >= 0,
    {
        fx_sqrt(self.len_sq())
    }
}

/// Largest component magnitude a normalized direction may carry: slightly
/// above one, to absorb the rounding of the normalization itself.
pub const DIR_MAX: i64 = 73728;

/// Smallest squared length a normalized direction may carry: one half, far
/// below what normalization of any representable vector produces.
pub const DIR_MIN_LEN_SQ: i64 = 32768;

/// Whether `v` is acceptable as the direction of a ray: componentwise close
/// to a unit vector and of clearly nonzero length.
pub open spec fn dir_ok(v: Vec3) -> bool {
    v.bounded(73728) && slen_sq(v) >= 32768
}

/// Value of checked normalization: the componentwise quotient by the
/// truncated length, guarded so that a result is returned only when it is an
/// acceptable ray direction.
pub open spec fn sunit(v: Vec3) -> Option<Vec3> {
    let l = slen(v);
    if l <= 0 {
        None
    } else {
        let u = (Vec3 {
            x: fdiv(v.x as int, l) as i64,
            y: fdiv(v.y as int, l) as i64,
            z: fdiv(v.z as int, l) as i64,
        });
        if in_b(fdiv(v.x as int, l), 73728) && in_b(fdiv(v.y as int, l), 73728) && in_b(
            fdiv(v.z as int, l),
            73728,
        ) && dir_ok(u) {
            Some(u)
        } else {
            None
        }
    }
}

impl Vec3 {
    /// Normalize `v`, rejecting degenerate inputs whose quotient is not an
    /// acceptable ray direction.
    pub fn unit_checked(v: &Vec3) -> (r: Option<Vec3>)
        requires
            v.bounded(0x40_0000_0000),
        ensures
            r == sunit(*v),
            r is Some ==> dir_ok(r->Some_0),
    {
        let l = v.len();
        if l <= 0 {
            return None;
        }
        proof {
            crate::fixed::lemma_tdiv_bound(v.x as int * 65536, l as int, 0x40_0000_0000int * 65536);
            crate::fixed::lemma_tdiv_bound(v.y as int * 65536, l as int, 0x40_0000_0000int * 65536);
            crate::fixed::lemma_tdiv_bound(v.z as int * 65536, l as int, 0x40_0000_0000int * 65536);
            assert(in_b(v.x as int * 65536, 0x40_0000_0000int * 65536)) by (nonlinear_arith)
                requires
                    in_b(v.x as int, 0x40_0000_0000),
            ;
            assert(in_b(v.y as int * 65536, 0x40_0000_0000int * 65536)) by (nonlinear_arith)
                requires
                    in_b(v.y as int, 0x40_0000_0000),
            ;
            assert(in_b(v.z as int * 65536, 0x40_0000_0000int * 65536)) by (nonlinear_arith)
                requires
                    in_b(v.z as int, 0x40_0000_0000),
            ;
        }
        let ux = fx_div(v.x, l);
        let uy = fx_div(v.y, l);
        let uz = fx_div(v.z, l);
        if ux < -73728 || ux > 73728 || uy < -73728 || uy > 73728 || uz < -73728 || uz > 73728 {
            return None;
        }
        let u = Vec3 { x: ux, y: uy, z: uz };
        let ls = u.len_sq();
        if ls < 32768 {
            return None;
        }
        Some(u)
    }
}

/// Value of normalization with a fallback for degenerate inputs.
pub open spec fn sunit_or(v: Vec3, fallback: Vec3) -> Vec3 {
    match sunit(v) {
        Some(u) => u,
        None => fallback,
    }
}

/// Value of reflecting direction `u` about the normal `n`:
/// `u - 2 * dot(u, n) * n`.
pub open spec fn sreflect(u: Vec3, n: Vec3) -> Vec3 {
    let d2 = 2 * sdot(u, n);
    v3(
        u.x as int - fmul(d2, n.x as int),
        u.y as int - fmul(d2, n.y as int),
        u.z as int - fmul(d2, n.z as int),
    )
}

impl Vec3 {
    /// Reflect direction `u` about the normal `n`.
    pub fn reflect(u: &Vec3, n: &Vec3) -> (r: Vec3)
        requires
            u.bounded(73728),
            n.bounded(73728),
        ensures
            r == sreflect(*u, *n),
            r.bounded(700000),
    {
        proof {
            crate::fixed::lemma_fmul_bound(u.x as int, n.x as int, 73728, 73728);
            crate::fixed::lemma_fmul_bound(u.y as int, n.y as int, 73728, 73728);
            crate::fixed::lemma_fmul_bound(u.z as int, n.z as int, 73728, 73728);
        }
        let d = Vec3::dot(u, n);
        assert(in_b(d as int, 248832));
        let d2 = 2 * d;
        proof {
            crate::fixed::lemma_fmul_bound(d2 as int, n.x as int, 497664, 73728);
            crate::fixed::lemma_fmul_bound(d2 as int, n.y as int, 497664, 73728);
            crate::fixed::lemma_fmul_bound(d2 as int, n.z as int, 497664, 73728);
        }
        let r = Vec3 {
            x: u.x - fx_mul(d2, n.x),
            y: u.y - fx_mul(d2, n.y),
            z: u.z - fx_mul(d2, n.z),
        };
        r
    }
}

} // verus!
