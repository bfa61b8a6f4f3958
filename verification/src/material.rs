//! The closed set of surface materials and their scattering model.
//!
//! Scattering is split in two: `scatter_with` is deterministic, taking the
//! random draws as an argument, and is specified exactly by `spec_scatter`;
//! `scatter` draws from the generator and hands over. Absence of a result
//! means the ray was absorbed.

use vstd::prelude::*;
use crate::fixed::{fmul, fdiv, fsqrt, in_b, sclamp, tdiv, fx_mul, fx_div, fx_sqrt, fx_clamp};
use crate::hitrecord::HitRecord;
use crate::ray::Ray;
use crate::rng::SmRng;
use crate::vec3::{
    Vec3,
    Colour,
    colour_wf,
    dir_ok,
    sdot,
    slen_sq,
    sreflect,
    sunit,
    sunit_or,
    svadd,
    svscale,
    v3,
};

verus! {

/// A surface material. Every primitive carries one; a material never holds
/// mutable state, so one value may stand for many surfaces.
#[derive(Clone, Copy, PartialEq, Eq, Structural, Debug)]
pub enum Material {
    /// Ideal diffuse surface with a base colour.
    Lambertian { albedo: Colour },
    /// Specular reflection, optionally roughened by `fuzz` in `[0, 1]`.
    Metal { albedo: Colour, fuzz: i64 },
    /// Clear refractive surface with index of refraction `ir` in `[1, 4]`.
    Dielectric { ir: i64 },
}

impl Material {
    /// Parameters within their meaningful ranges.
    pub open spec fn wf(self) -> bool {
        match self {
            Material::Lambertian { albedo } => colour_wf(albedo),
            Material::Metal { albedo, fuzz } => colour_wf(albedo) && 0 <= fuzz <= 65536,
            Material::Dielectric { ir } => 65536 <= ir <= 262144,
        }
    }
}

/// The random draws one scattering decision consumes.
#[derive(Clone, Copy, PartialEq, Eq, Structural, Debug)]
pub struct ScatterRand {
    /// A vector within the unit ball, perturbing diffuse directions and
    /// fuzzed reflections.
    pub ball: Vec3,
    /// A uniform draw from the unit interval, deciding reflection against
    /// refraction at a dielectric boundary.
    pub coin: i64,
}

/// Draws fit for one scattering decision.
pub open spec fn rand_wf(sr: ScatterRand) -> bool {
    sr.ball.bounded(65536) && slen_sq(sr.ball) <= 65536 && 0 <= sr.coin <= 65536
}

/// Value of the Schlick reflectance approximation for a boundary of
/// refraction ratio `ratio` met at cosine `cos`.
pub open spec fn sschlick(ratio: int, cos: int) -> int {
    let r0a = sclamp(fdiv(65536 - ratio, 65536 + ratio), -65536, 65536);
    let r0 = fmul(r0a, r0a);
    let q = 65536 - cos;
    let q5 = fmul(fmul(fmul(q, q), fmul(q, q)), q);
    r0 + fmul(65536 - r0, q5)
}

/// Value of Snell refraction of unit direction `u` at normal `n`.
pub open spec fn srefract(u: Vec3, n: Vec3, ratio: int, cos: int) -> Vec3 {
    let w = v3(
        fmul(ratio, u.x as int + fmul(cos, n.x as int)),
        fmul(ratio, u.y as int + fmul(cos, n.y as int)),
        fmul(ratio, u.z as int + fmul(cos, n.z as int)),
    );
    let k = 65536 - slen_sq(w);
    let s = if k > 0 {
        fsqrt(k)
    } else {
        0
    };
    v3(
        w.x as int - fmul(s, n.x as int),
        w.y as int - fmul(s, n.y as int),
        w.z as int - fmul(s, n.z as int),
    )
}

/// Value of one scattering decision: the scattered ray and attenuation, or
/// nothing when the ray is absorbed.
pub open spec fn spec_scatter(m: Material, r_in: Ray, rec: HitRecord, sr: ScatterRand) -> Option<
    (Ray, Colour),
> {
    match m {
        Material::Lambertian { albedo } => {
            let dir = sunit_or(svadd(rec.normal, sr.ball), rec.normal);
            Some((Ray { origin: rec.p, dir }, albedo))
        },
        Material::Metal { albedo, fuzz } => match sunit(r_in.dir) {
            None => None,
            Some(u) => {
                let perturb = sunit_or(sr.ball, v3(0, 0, 0));
                let fuzzed = svadd(sreflect(u, rec.normal), svscale(perturb, fuzz as int));
                match sunit(fuzzed) {
                    None => None,
                    Some(u2) => if sdot(u2, rec.normal) > 0 {
                        Some((Ray { origin: rec.p, dir: u2 }, albedo))
                    } else {
                        None
                    },
                }
            },
        },
        Material::Dielectric { ir } => match sunit(r_in.dir) {
            None => None,
            Some(u) => {
                let ratio = if rec.front {
                    fdiv(65536, ir as int)
                } else {
                    ir as int
                };
                let cos = sclamp(
                    -fmul(u.x as int, rec.normal.x as int) - fmul(u.y as int, rec.normal.y as int)
                        - fmul(u.z as int, rec.normal.z as int),
                    0,
                    65536,
                );
                let sin = fsqrt(65536 - fmul(cos, cos));
                let reflects = fmul(ratio, sin) > 65536 || sschlick(ratio, cos) > sr.coin as int;
                let dir0 = if reflects {
                    sreflect(u, rec.normal)
                } else {
                    srefract(u, rec.normal, ratio, cos)
                };
                match sunit(dir0) {
                    None => None,
                    Some(u2) => Some(
                        (Ray { origin: rec.p, dir: u2 }, Vec3 { x: 65536, y: 65536, z: 65536 }),
                    ),
                }
            },
        },
    }
}

/// A diffuse surface always scatters: the decision is `Some` for every
/// draw, the scattered ray starts at the hit point, and the attenuation is
/// the albedo unchanged.
pub proof fn lemma_lambertian_always_scatters(
    albedo: Colour,
    r_in: Ray,
    rec: HitRecord,
    sr: ScatterRand,
)
    ensures
        spec_scatter(Material::Lambertian { albedo }, r_in, rec, sr) is Some,
        (spec_scatter(Material::Lambertian { albedo }, r_in, rec, sr)->Some_0).1 == albedo,
        (spec_scatter(Material::Lambertian { albedo }, r_in, rec, sr)->Some_0).0.origin == rec.p,
{
}

/// A rough metal absorbs a grazing ray: whenever the fuzzed, normalized
/// reflection does not point away from the surface, the decision is
/// absence, never a ray into the surface.
pub proof fn lemma_metal_rejects_grazing(
    albedo: Colour,
    fuzz: i64,
    r_in: Ray,
    rec: HitRecord,
    sr: ScatterRand,
)
    requires
        sunit(r_in.dir) is Some,
        match sunit(
            svadd(
                sreflect(sunit(r_in.dir)->Some_0, rec.normal),
                svscale(sunit_or(sr.ball, v3(0, 0, 0)), fuzz as int),
            ),
        ) {
            Some(u2) => sdot(u2, rec.normal) <= 0,
            None => true,
        },
    ensures
        spec_scatter(Material::Metal { albedo, fuzz }, r_in, rec, sr) is None,
{
}

/// A clear dielectric never absorbs energy: whenever it scatters, the
/// attenuation is pure white.
pub proof fn lemma_dielectric_attenuates_white(ir: i64, r_in: Ray, rec: HitRecord, sr: ScatterRand)
    requires
        spec_scatter(Material::Dielectric { ir }, r_in, rec, sr) is Some,
    ensures
        (spec_scatter(Material::Dielectric { ir }, r_in, rec, sr)->Some_0).1 == (Vec3 {
            x: 65536,
            y: 65536,
            z: 65536,
        }),
{
}

/// Refract unit direction `u` at normal `n`.
fn refract(u: &Vec3, n: &Vec3, ratio: i64, cos: i64) -> (r: Vec3)
    requires
        u.bounded(73728),
        n.bounded(73728),
        0 <= ratio <= 0x1_0000_0000,
        0 <= cos <= 65536,
    ensures
        r == srefract(*u, *n, ratio as int, cos as int),
        r.bounded(0x3_0000_0000),
{
    proof {
        crate::fixed::lemma_fmul_bound(cos as int, n.x as int, 65536, 73728);
        crate::fixed::lemma_fmul_bound(cos as int, n.y as int, 65536, 73728);
        crate::fixed::lemma_fmul_bound(cos as int, n.z as int, 65536, 73728);
    }
    let ix = u.x + fx_mul(cos, n.x);
    let iy = u.y + fx_mul(cos, n.y);
    let iz = u.z + fx_mul(cos, n.z);
    proof {
        crate::fixed::lemma_fmul_bound(ratio as int, ix as int, 0x1_0000_0000, 147456);
        crate::fixed::lemma_fmul_bound(ratio as int, iy as int, 0x1_0000_0000, 147456);
        crate::fixed::lemma_fmul_bound(ratio as int, iz as int, 0x1_0000_0000, 147456);
    }
    let w = Vec3 { x: fx_mul(ratio, ix), y: fx_mul(ratio, iy), z: fx_mul(ratio, iz) };
    assert(w.bounded(0x2_4000_0000));
    let k = 65536 - w.len_sq();
    let s: i64 = if k > 0 {
        fx_sqrt(k)
    } else {
        0
    };
    proof {
        if k > 0 {
            assert(s <= 65536) by (nonlinear_arith)
                requires
                    0 <= s,
                    s * s <= k * 65536,
                    k <= 65536,
            ;
        }
        crate::fixed::lemma_fmul_bound(s as int, n.x as int, 65536, 73728);
        crate::fixed::lemma_fmul_bound(s as int, n.y as int, 65536, 73728);
        crate::fixed::lemma_fmul_bound(s as int, n.z as int, 65536, 73728);
    }
    let r = Vec3 { x: w.x - fx_mul(s, n.x), y: w.y - fx_mul(s, n.y), z: w.z - fx_mul(s, n.z) };
    r
}

impl Material {
    /// One scattering decision with the random draws supplied by the
    /// caller; deterministic, and exactly the value of `spec_scatter`.
    #[verifier::rlimit(100)]
    #[verifier::spinoff_prover]
    pub fn scatter_with(&self, r_in: &Ray, rec: &HitRecord, sr: ScatterRand) -> (r: Option<
        (Ray, Colour),
    >)
        requires
            r_in.wf(),
            rec.wf(),
            self.wf(),
            rand_wf(sr),
        ensures
            r == spec_scatter(*self, *r_in, *rec, sr),
            r is Some ==> (r->Some_0).0.wf() && colour_wf((r->Some_0).1),
            self is Lambertian ==> r is Some,
            (self is Dielectric && r is Some) ==> (r->Some_0).1 == (Vec3 {
                x: 65536,
                y: 65536,
                z: 65536,
            }),
    {
        match self {
            Material::Lambertian { albedo } => {
                let d = rec.normal.add(&sr.ball);
                assert(d == svadd(rec.normal, sr.ball));
                let dir = match Vec3::unit_checked(&d) {
                    Some(u) => u,
                    None => rec.normal,
                };
                Some((Ray::new(rec.p, dir), *albedo))
            },
            Material::Metal { albedo, fuzz } => {
                match Vec3::unit_checked(&r_in.dir) {
                    None => None,
                    Some(u) => {
                        let perturb = match Vec3::unit_checked(&sr.ball) {
                            Some(p) => p,
                            None => Vec3::new(0, 0, 0),
                        };
                        assert(perturb == sunit_or(sr.ball, v3(0, 0, 0)));
                        let refl = Vec3::reflect(&u, &rec.normal);
                        let scaled = perturb.scale(*fuzz);
                        proof {
                            crate::fixed::lemma_fmul_bound(
                                perturb.x as int,
                                *fuzz as int,
                                73728,
                                65536,
                            );
                            crate::fixed::lemma_fmul_bound(
                                perturb.y as int,
                                *fuzz as int,
                                73728,
                                65536,
                            );
                            crate::fixed::lemma_fmul_bound(
                                perturb.z as int,
                                *fuzz as int,
                                73728,
                                65536,
                            );
                        }
                        let fuzzed = refl.add(&scaled);
                        assert(fuzzed == svadd(
                            sreflect(u, rec.normal),
                            svscale(perturb, *fuzz as int),
                        ));
                        match Vec3::unit_checked(&fuzzed) {
                            None => None,
                            Some(u2) => {
                                let dn = Vec3::dot(&u2, &rec.normal);
                                if dn > 0 {
                                    Some((Ray::new(rec.p, u2), *albedo))
                                } else {
                                    None
                                }
                            },
                        }
                    },
                }
            },
            Material::Dielectric { ir } => {
                match Vec3::unit_checked(&r_in.dir) {
                    None => None,
                    Some(u) => {
                        let ratio: i64 = if rec.front {
                            proof {
                                crate::fixed::lemma_tdiv_bound(
                                    65536int * 65536,
                                    *ir as int,
                                    65536int * 65536,
                                );
                            }
                            fx_div(65536, *ir)
                        } else {
                            *ir
                        };
                        proof {
                            if rec.front {
                                vstd::arithmetic::div_mod::lemma_div_pos_is_pos(
                                    65536int * 65536,
                                    *ir as int,
                                );
                            }
                        }
                        let nu = u.neg();
                        let cosd = Vec3::dot(&nu, &rec.normal);
                        proof {
                            crate::fixed::lemma_fmul_neg(u.x as int, rec.normal.x as int);
                            crate::fixed::lemma_fmul_neg(u.y as int, rec.normal.y as int);
                            crate::fixed::lemma_fmul_neg(u.z as int, rec.normal.z as int);
                        }
                        let cos = fx_clamp(cosd, 0, 65536);
                        proof {
                            crate::fixed::lemma_fmul_unit(cos as int, cos as int);
                        }
                        let sin = fx_sqrt(65536 - fx_mul(cos, cos));
                        proof {
                            assert(sin <= 65536) by (nonlinear_arith)
                                requires
                                    0 <= sin,
                                    sin * sin <= (65536 - fmul(cos as int, cos as int)) * 65536,
                                    fmul(cos as int, cos as int) >= 0,
                            ;
                            crate::fixed::lemma_fmul_bound(
                                ratio as int,
                                sin as int,
                                0x1_0000_0000,
                                65536,
                            );
                        }
                        let cannot = fx_mul(ratio, sin) > 65536;
                        proof {
                            crate::fixed::lemma_tdiv_bound(
                                (65536int - ratio as int) * 65536,
                                65536int + ratio as int,
                                0x1_0000_0000int * 65536,
                            );
                            assert(in_b(
                                (65536int - ratio as int) * 65536,
                                0x1_0000_0000int * 65536,
                            )) by (nonlinear_arith)
                                requires
                                    0 <= ratio as int <= 0x1_0000_0000,
                            ;
                        }
                        let r0a = fx_clamp(fx_div(65536 - ratio, 65536 + ratio), -65536, 65536);
                        proof {
                            crate::fixed::lemma_fmul_bound(r0a as int, r0a as int, 65536, 65536);
                            crate::fixed::lemma_fmul_self_nonneg(r0a as int);
                        }
                        let r0 = fx_mul(r0a, r0a);
                        let q = 65536 - cos;
                        proof {
                            crate::fixed::lemma_fmul_unit(q as int, q as int);
                        }
                        let q2 = fx_mul(q, q);
                        proof {
                            crate::fixed::lemma_fmul_unit(q2 as int, q2 as int);
                        }
                        let q4 = fx_mul(q2, q2);
                        proof {
                            crate::fixed::lemma_fmul_unit(q4 as int, q as int);
                        }
                        let q5 = fx_mul(q4, q);
                        proof {
                            crate::fixed::lemma_fmul_unit(65536 - r0 as int, q5 as int);
                        }
                        let rp = r0 + fx_mul(65536 - r0, q5);
                        let dir0: Vec3 = if cannot || rp > sr.coin {
                            Vec3::reflect(&u, &rec.normal)
                        } else {
                            refract(&u, &rec.normal, ratio, cos)
                        };
                        match Vec3::unit_checked(&dir0) {
                            None => None,
                            Some(u2) => Some((Ray::new(rec.p, u2), Vec3::new(65536, 65536, 65536))),
                        }
                    },
                }
            },
        }
    }
}

/// Value of rejection-sampling a vector within the unit ball from the
/// generator: three symmetric draws per attempt, accepted when the squared
/// length is at most one, with the origin as the fallback after sixteen
/// misses.
pub open spec fn sball(state: u64, tries: int) -> (Vec3, u64)
    decreases 16 - tries,
{
    if tries >= 16 {
        (Vec3 { x: 0, y: 0, z: 0 }, state)
    } else {
        let x = (-65536 + crate::rng::sm_out(state) as int % 131073) as i64;
        let s1 = crate::rng::sm_step(state);
        let y = (-65536 + crate::rng::sm_out(s1) as int % 131073) as i64;
        let s2 = crate::rng::sm_step(s1);
        let z = (-65536 + crate::rng::sm_out(s2) as int % 131073) as i64;
        let s3 = crate::rng::sm_step(s2);
        let v = Vec3 { x, y, z };
        if slen_sq(v) <= 65536 {
            (v, s3)
        } else {
            sball(s3, tries + 1)
        }
    }
}

/// Value of drawing one scattering decision's randomness: a unit-ball
/// vector, then a unit-interval coin.
pub open spec fn sscatter_rand(state: u64) -> (ScatterRand, u64) {
    let b = sball(state, 0);
    (
        ScatterRand {
            ball: b.0,
            coin: (crate::rng::sm_out(b.1) as int % 65537) as i64,
        },
        crate::rng::sm_step(b.1),
    )
}

/// Draw a vector within the unit ball by rejection, falling back to the
/// origin when every attempt misses.
#[verifier::rlimit(100)]
#[verifier::spinoff_prover]
pub fn random_in_unit_ball(rng: &mut SmRng) -> (r: Vec3)
    ensures
        r.bounded(65536),
        slen_sq(r) <= 65536,
        r == sball(old(rng).state, 0).0,
        final(rng).state == sball(old(rng).state, 0).1,
{
    let ghost start: u64 = rng.state;
    let mut tries: usize = 0;
    while tries < 16
        invariant
            0 <= tries <= 16,
            start == old(rng).state,
            sball(start, 0) == sball(rng.state, tries as int),
        decreases 16 - tries,
    {
        let ghost pre: u64 = rng.state;
        let x = rng.next_range(-65536, 65536);
        let y = rng.next_range(-65536, 65536);
        let z = rng.next_range(-65536, 65536);
        let v = Vec3 { x, y, z };
        let ls = v.len_sq();
        if ls <= 65536 {
            proof {
                assert(sball(pre, tries as int) == (v, rng.state));
            }
            return v;
        }
        proof {
            assert(sball(pre, tries as int) == sball(rng.state, tries as int + 1));
        }
        tries = tries + 1;
    }
    let zero = Vec3 { x: 0, y: 0, z: 0 };
    proof {
        assert(fmul(0, 0) == 0);
        assert(sball(rng.state, 16) == (zero, rng.state));
    }
    zero
}

impl Material {
    /// One scattering decision, drawing its randomness from `rng`: the
    /// result is `spec_scatter` at exactly the draws `sscatter_rand` takes
    /// from the generator's state.
    pub fn scatter(&self, r_in: &Ray, rec: &HitRecord, rng: &mut SmRng) -> (r: Option<
        (Ray, Colour),
    >)
        requires
            r_in.wf(),
            rec.wf(),
            self.wf(),
        ensures
            r == spec_scatter(*self, *r_in, *rec, sscatter_rand(old(rng).state).0),
            final(rng).state == sscatter_rand(old(rng).state).1,
            r is Some ==> (r->Some_0).0.wf() && colour_wf((r->Some_0).1),
            self is Lambertian ==> r is Some,
    {
        let ghost start: u64 = rng.state;
        let ball = random_in_unit_ball(rng);
        let coin = rng.next_range(0, 65536);
        let sr = ScatterRand { ball, coin };
        proof {
            assert(sr == sscatter_rand(start).0);
            assert(rng.state == sscatter_rand(start).1);
        }
        self.scatter_with(r_in, rec, sr)
    }
}

} // verus!
