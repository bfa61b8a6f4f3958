//! Scene factories: a large ground sphere plus a jittered grid of small
//! spheres, built deterministically from a seed. Each factory's output is
//! pinned exactly by a mirror over the generator's draws.

use vstd::prelude::*;
use crate::fixed::{fmul, in_b};
use crate::hittable::Hittable;
use crate::hittable_list::HittableList;
use crate::material::Material;
use crate::rng::{SmRng, sm_out, sm_step};
use crate::sphere::Sphere;
use crate::vec3::{Vec3, slen_sq, v3};

verus! {

/// The large diffuse ground sphere every scene rests on: centre
/// `(0, -100.5, -1)`, radius `100`, albedo `(0.5, 0.5, 0.5)`.
pub open spec fn ground_sphere() -> Hittable {
    Hittable::Sphere(
        Sphere {
            centre: Vec3 { x: 0, y: -6586368i64, z: -65536i64 },
            radius: 6553600,
            material: Material::Lambertian { albedo: Vec3 { x: 32768, y: 32768, z: 32768 } },
        },
    )
}

fn make_ground() -> (g: Hittable)
    ensures
        g == ground_sphere(),
        g.wf(),
{
    Hittable::Sphere(
        Sphere::new(
            Vec3 { x: 0, y: -6586368, z: -65536 },
            6553600,
            Material::Lambertian { albedo: Vec3 { x: 32768, y: 32768, z: 32768 } },
        ),
    )
}

/// Whether a candidate centre clears the fixed exclusion point
/// `(4, 0.2, 0)` by more than nine tenths of a unit.
pub open spec fn sclears(centre: Vec3) -> bool {
    slen_sq(
        v3(centre.x as int - 262144, centre.y as int - 13107, centre.z as int - 0),
    ) > 53084
}

/// Jitter a grid coordinate by up to nine tenths of a unit.
fn jitter_coord(base: i64, rng: &mut SmRng) -> (c: i64)
    requires
        -0x200_0000 <= base <= 0x200_0000,
    ensures
        in_b(c as int, 0x300_0000),
        c as int == base + fmul(58982, sm_out(old(rng).state) as int % 65537),
        final(rng).state == sm_step(old(rng).state),
{
    let j = rng.next_range(0, 65536);
    proof {
        crate::fixed::lemma_fmul_bound(58982, j as int, 58982, 65536);
        vstd::arithmetic::div_mod::lemma_div_pos_is_pos(58982 * j as int, 65536);
    }
    base + crate::fixed::fx_mul(58982, j)
}

fn clears_exclusion(centre: &Vec3) -> (r: bool)
    requires
        centre.bounded(0x400_0000),
    ensures
        r == sclears(*centre),
{
    let probe = Vec3 { x: 262144, y: 13107, z: 0 };
    let diff = centre.sub(&probe);
    let ls = diff.len_sq();
    ls > 53084
}

/// The first `c` grid placements of the complexity scene: for each index,
/// two jitter draws position a candidate centre on the twenty-column
/// grid; when it clears the exclusion point, three more draws pick a
/// half-to-full metal albedo and the sphere is appended.
pub open spec fn sgrid_spheres(c: int, state: u64) -> (Seq<Hittable>, u64)
    decreases c,
{
    if c <= 0 {
        (Seq::<Hittable>::empty(), state)
    } else {
        let prev = sgrid_spheres(c - 1, state);
        let a = (c - 1) % 20;
        let b = (c - 1) / 20;
        let jx = sm_out(prev.1) as int % 65537;
        let s1 = sm_step(prev.1);
        let jz = sm_out(s1) as int % 65537;
        let s2 = sm_step(s1);
        let centre = v3(a * 65536 + fmul(58982, jx), 13107, b * 65536 + fmul(58982, jz));
        if sclears(centre) {
            let dr = sm_out(s2) as int % 32769;
            let s3 = sm_step(s2);
            let dg = sm_out(s3) as int % 32769;
            let s4 = sm_step(s3);
            let db = sm_out(s4) as int % 32769;
            let s5 = sm_step(s4);
            let albedo = v3(32768 + dr, 32768 + dg, 32768 + db);
            (
                prev.0.push(
                    Hittable::Sphere(
                        Sphere {
                            centre,
                            radius: 13107,
                            material: Material::Metal { albedo, fuzz: 0 },
                        },
                    ),
                ),
                s5,
            )
        } else {
            (prev.0, s2)
        }
    }
}

/// Build a scene of one ground sphere plus up to `complexity` small metal
/// spheres laid out on a twenty-column grid with jittered centres,
/// skipping placements near the exclusion point. Deterministic in `seed`:
/// the list is exactly the ground sphere followed by `sgrid_spheres`.
pub fn scene_of_complexity(complexity: u32, seed: u64) -> (world: HittableList)
    requires
        complexity <= 8000,
    ensures
        world.wf(),
        world.list@.len() >= 1,
        world.list@[0] == ground_sphere(),
        world.list@ == seq![ground_sphere()] + sgrid_spheres(complexity as int, seed).0,
{
    let mut rng = SmRng::new(seed);
    let mut world = HittableList::new();
    world.add(make_ground());
    proof {
        assert(world.list@ =~= seq![ground_sphere()] + sgrid_spheres(0, seed).0);
    }
    let mut c: u32 = 0;
    while c < complexity
        invariant
            0 <= c <= complexity <= 8000,
            world.wf(),
            world.list@.len() >= 1,
            world.list@[0] == ground_sphere(),
            world.list@ == seq![ground_sphere()] + sgrid_spheres(c as int, seed).0,
            rng.state == sgrid_spheres(c as int, seed).1,
        decreases complexity - c,
    {
        let a = c % 20;
        let b = c / 20;
        let cx = jitter_coord((a as i64) * 65536, &mut rng);
        let cz = jitter_coord((b as i64) * 65536, &mut rng);
        let centre = Vec3 { x: cx, y: 13107, z: cz };
        if clears_exclusion(&centre) {
            let r = rng.next_range(0, 32768);
            let g = rng.next_range(0, 32768);
            let bl = rng.next_range(0, 32768);
            let albedo = Vec3 { x: 32768 + r, y: 32768 + g, z: 32768 + bl };
            let m = Material::Metal { albedo, fuzz: 0 };
            let sph = Hittable::Sphere(Sphere::new(centre, 13107, m));
            proof {
                assert(sph == sgrid_spheres(c as int + 1, seed).0.last());
            }
            world.add(sph);
            proof {
                assert(world.list@ =~= seq![ground_sphere()] + sgrid_spheres(
                    c as int + 1,
                    seed,
                ).0);
            }
        } else {
            proof {
                assert(sgrid_spheres(c as int + 1, seed).0 == sgrid_spheres(c as int, seed).0);
            }
        }
        c = c + 1;
    }
    world
}

/// The first `n` grid placements of the showcase scene, walking a
/// twenty-two by twenty-two grid: a material coin, two jitter draws for
/// the centre, then — past the exclusion point — a diffuse sphere with a
/// squared random albedo, a polished half-to-full metal, or glass,
/// weighted eighty, fifteen and five percent.
pub open spec fn srandom_spheres(n: int, state: u64) -> (Seq<Hittable>, u64)
    decreases n,
{
    if n <= 0 {
        (Seq::<Hittable>::empty(), state)
    } else {
        let prev = srandom_spheres(n - 1, state);
        let a = (n - 1) / 22;
        let b = (n - 1) % 22;
        let choose_mat = sm_out(prev.1) as int % 65537;
        let s0 = sm_step(prev.1);
        let jx = sm_out(s0) as int % 65537;
        let s1 = sm_step(s0);
        let jz = sm_out(s1) as int % 65537;
        let s2 = sm_step(s1);
        let centre = v3(
            (a - 11) * 65536 + fmul(58982, jx),
            13107,
            (b - 11) * 65536 + fmul(58982, jz),
        );
        if sclears(centre) {
            if choose_mat < 52429 {
                let r1 = sm_out(s2) as int % 65537;
                let s3 = sm_step(s2);
                let r2 = sm_out(s3) as int % 65537;
                let s4 = sm_step(s3);
                let g1 = sm_out(s4) as int % 65537;
                let s5 = sm_step(s4);
                let g2 = sm_out(s5) as int % 65537;
                let s6 = sm_step(s5);
                let b1 = sm_out(s6) as int % 65537;
                let s7 = sm_step(s6);
                let b2 = sm_out(s7) as int % 65537;
                let s8 = sm_step(s7);
                let albedo = v3(fmul(r1, r2), fmul(g1, g2), fmul(b1, b2));
                (
                    prev.0.push(
                        Hittable::Sphere(
                            Sphere {
                                centre,
                                radius: 13107,
                                material: Material::Lambertian { albedo },
                            },
                        ),
                    ),
                    s8,
                )
            } else if choose_mat < 62259 {
                let dr = sm_out(s2) as int % 32769;
                let s3 = sm_step(s2);
                let dg = sm_out(s3) as int % 32769;
                let s4 = sm_step(s3);
                let db = sm_out(s4) as int % 32769;
                let s5 = sm_step(s4);
                let albedo = v3(32768 + dr, 32768 + dg, 32768 + db);
                (
                    prev.0.push(
                        Hittable::Sphere(
                            Sphere {
                                centre,
                                radius: 13107,
                                material: Material::Metal { albedo, fuzz: 0 },
                            },
                        ),
                    ),
                    s5,
                )
            } else {
                (
                    prev.0.push(
                        Hittable::Sphere(
                            Sphere {
                                centre,
                                radius: 13107,
                                material: Material::Dielectric { ir: 98304 },
                            },
                        ),
                    ),
                    s2,
                )
            }
        } else {
            (prev.0, s2)
        }
    }
}

/// The three large feature spheres closing the showcase scene: glass,
/// diffuse, metal.
pub open spec fn sfeature_spheres() -> Seq<Hittable> {
    seq![
        Hittable::Sphere(
            Sphere {
                centre: Vec3 { x: 0, y: 6554, z: 0 },
                radius: 65536,
                material: Material::Dielectric { ir: 98304 },
            },
        ),
        Hittable::Sphere(
            Sphere {
                centre: Vec3 { x: -262144i64, y: 65536, z: 0 },
                radius: 65536,
                material: Material::Lambertian { albedo: Vec3 { x: 26214, y: 13107, z: 6554 } },
            },
        ),
        Hittable::Sphere(
            Sphere {
                centre: Vec3 { x: 262144, y: 65536, z: 0 },
                radius: 65536,
                material: Material::Metal {
                    albedo: Vec3 { x: 45875, y: 39322, z: 32768 },
                    fuzz: 0,
                },
            },
        ),
    ]
}

/// Build the classic showcase scene: the ground sphere, the jittered grid
/// of diffuse, metal and glass spheres, and the three feature spheres.
/// With a seed the list is exactly the ground sphere, `srandom_spheres`
/// over the full grid, then the feature spheres; without one, the same
/// holds for a seed drawn from the operating system.
#[verifier::rlimit(100)]
#[verifier::spinoff_prover]
pub fn random_scene(seed: Option<u64>) -> (world: HittableList)
    ensures
        world.wf(),
        world.list@.len() >= 4,
        world.list@[0] == ground_sphere(),
        seed is Some ==> world.list@ == seq![ground_sphere()] + srandom_spheres(
            484,
            seed->Some_0,
        ).0 + sfeature_spheres(),
        exists|s: u64|
            world.list@ == seq![ground_sphere()] + (#[trigger] srandom_spheres(484, s)).0
                + sfeature_spheres(),
{
    let s: u64 = match seed {
        Some(s) => s,
        None => SmRng::fresh_seed(),
    };
    let mut rng = SmRng::new(s);
    let mut world = HittableList::new();
    world.add(make_ground());
    proof {
        assert(world.list@ =~= seq![ground_sphere()] + srandom_spheres(0, s).0);
    }
    let mut a: u32 = 0;
    while a < 22
        invariant
            0 <= a <= 22,
            world.wf(),
            world.list@.len() >= 1,
            world.list@[0] == ground_sphere(),
            world.list@ == seq![ground_sphere()] + srandom_spheres((a * 22) as int, s).0,
            rng.state == srandom_spheres((a * 22) as int, s).1,
        decreases 22 - a,
    {
        let mut b: u32 = 0;
        while b < 22
            invariant
                0 <= b <= 22,
                a < 22,
                world.wf(),
                world.list@.len() >= 1,
                world.list@[0] == ground_sphere(),
                world.list@ == seq![ground_sphere()] + srandom_spheres((a * 22 + b) as int, s).0,
                rng.state == srandom_spheres((a * 22 + b) as int, s).1,
            decreases 22 - b,
        {
            proof {
                vstd::arithmetic::div_mod::lemma_fundamental_div_mod_converse(
                    a as int * 22 + b as int,
                    22,
                    a as int,
                    b as int,
                );
            }
            let choose_mat = rng.next_range(0, 65536);
            let cx = jitter_coord((a as i64 - 11) * 65536, &mut rng);
            let cz = jitter_coord((b as i64 - 11) * 65536, &mut rng);
            let centre = Vec3 { x: cx, y: 13107, z: cz };
            if clears_exclusion(&centre) {
                let m: Material = if choose_mat < 52429 {
                    let r1 = rng.next_range(0, 65536);
                    let r2 = rng.next_range(0, 65536);
                    let g1 = rng.next_range(0, 65536);
                    let g2 = rng.next_range(0, 65536);
                    let b1 = rng.next_range(0, 65536);
                    let b2 = rng.next_range(0, 65536);
                    proof {
                        crate::fixed::lemma_fmul_unit(r1 as int, r2 as int);
                        crate::fixed::lemma_fmul_unit(g1 as int, g2 as int);
                        crate::fixed::lemma_fmul_unit(b1 as int, b2 as int);
                    }
                    let albedo = Vec3 {
                        x: crate::fixed::fx_mul(r1, r2),
                        y: crate::fixed::fx_mul(g1, g2),
                        z: crate::fixed::fx_mul(b1, b2),
                    };
                    Material::Lambertian { albedo }
                } else if choose_mat < 62259 {
                    let r = rng.next_range(0, 32768);
                    let g = rng.next_range(0, 32768);
                    let bl = rng.next_range(0, 32768);
                    Material::Metal {
                        albedo: Vec3 { x: 32768 + r, y: 32768 + g, z: 32768 + bl },
                        fuzz: 0,
                    }
                } else {
                    Material::Dielectric { ir: 98304 }
                };
                let sph = Hittable::Sphere(Sphere::new(centre, 13107, m));
                proof {
                    assert(sph == srandom_spheres((a * 22 + b) as int + 1, s).0.last());
                }
                world.add(sph);
                proof {
                    assert(world.list@ =~= seq![ground_sphere()] + srandom_spheres(
                        (a * 22 + b) as int + 1,
                        s,
                    ).0);
                }
            } else {
                proof {
                    assert(srandom_spheres((a * 22 + b) as int + 1, s).0 == srandom_spheres(
                        (a * 22 + b) as int,
                        s,
                    ).0);
                }
            }
            b = b + 1;
        }
        a = a + 1;
        proof {
            assert((a - 1) * 22 + 22 == a * 22) by (nonlinear_arith);
        }
    }
    let ghost before = world.list@;
    world.add(
        Hittable::Sphere(
            Sphere::new(
                Vec3 { x: 0, y: 6554, z: 0 },
                65536,
                Material::Dielectric { ir: 98304 },
            ),
        ),
    );
    world.add(
        Hittable::Sphere(
            Sphere::new(
                Vec3 { x: -262144, y: 65536, z: 0 },
                65536,
                Material::Lambertian { albedo: Vec3 { x: 26214, y: 13107, z: 6554 } },
            ),
        ),
    );
    world.add(
        Hittable::Sphere(
            Sphere::new(
                Vec3 { x: 262144, y: 65536, z: 0 },
                65536,
                Material::Metal { albedo: Vec3 { x: 45875, y: 39322, z: 32768 }, fuzz: 0 },
            ),
        ),
    );
    proof {
        assert(world.list@ =~= before + sfeature_spheres());
        assert(world.list@ =~= seq![ground_sphere()] + srandom_spheres(484, s).0
            + sfeature_spheres());
    }
    world
}

} // verus!
