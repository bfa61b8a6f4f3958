//! The path integrator and per-tile rendering: turning rays into colours
//! and a tile of the image into quantized pixel samples.

use vstd::prelude::*;
use crate::camera::{Camera, scam_ray};
use crate::fixed::{fmul, fsqrt, sclamp, tdiv, fx_clamp, fx_sqrt};
use crate::hittable::Hittable;
use crate::hittable_list::{HittableList, slist_hit};
use crate::imagebuf::ImageBuf;
use crate::ray::Ray;
use crate::rng::SmRng;
use crate::vec3::{Vec3, V3i, Colour, colour_wf, sunit, v3};

verus! {

/// Value of the sky gradient: blend white into sky blue by the height of
/// the (normalized) ray direction.
pub open spec fn ssky(dir: Vec3) -> Colour {
    let t = match sunit(dir) {
        Some(u) => sclamp(tdiv(u.y as int + 65536, 2), 0, 65536),
        None => 32768,
    };
    v3(
        (65536 - t) + fmul(t, 32768),
        (65536 - t) + fmul(t, 45875),
        (65536 - t) + fmul(t, 65536),
    )
}

/// The sky colour seen along `dir`.
pub fn sky_colour(dir: &Vec3) -> (c: Colour)
    requires
        dir.bounded(0x40_0000_0000),
    ensures
        c == ssky(*dir),
        colour_wf(c),
{
    let t: i64 = match Vec3::unit_checked(dir) {
        Some(u) => fx_clamp((u.y + 65536) / 2, 0, 65536),
        None => 32768,
    };
    proof {
        crate::fixed::lemma_fmul_unit(t as int, 32768);
        crate::fixed::lemma_fmul_unit(t as int, 45875);
        crate::fixed::lemma_fmul_unit(t as int, 65536);
    }
    let w = 65536 - t;
    Vec3 {
        x: w + crate::fixed::fx_mul(t, 32768),
        y: w + crate::fixed::fx_mul(t, 45875),
        z: w + crate::fixed::fx_mul(t, 65536),
    }
}

/// Value of the path integrator: black once the depth budget is spent; on
/// a miss the sky; on a hit, the scattering decision at the draws the
/// generator yields — black when absorbed, and otherwise the attenuation
/// times the recursive colour of the scattered ray at one less depth.
pub open spec fn sray_colour(r: Ray, objs: Seq<Hittable>, depth: int, state: u64) -> (Colour, u64)
    decreases depth,
{
    if depth <= 0 {
        (Vec3 { x: 0, y: 0, z: 0 }, state)
    } else {
        match slist_hit(objs, r, 66, 0x400_0000) {
            None => (ssky(r.dir), state),
            Some(hr) => {
                let sc = crate::material::sscatter_rand(state);
                match crate::material::spec_scatter(hr.material, r, hr, sc.0) {
                    None => (Vec3 { x: 0, y: 0, z: 0 }, sc.1),
                    Some(pair) => {
                        let sub = sray_colour(pair.0, objs, depth - 1, sc.1);
                        (
                            v3(
                                fmul(pair.1.x as int, sub.0.x as int),
                                fmul(pair.1.y as int, sub.0.y as int),
                                fmul(pair.1.z as int, sub.0.z as int),
                            ),
                            sub.1,
                        )
                    },
                }
            },
        }
    }
}

/// The colour a ray gathers from the scene: exactly `sray_colour` at the
/// generator's state — black once the depth budget is spent, the sky on a
/// miss, the scattered colour attenuated by the surface on a hit, black on
/// absorption.
#[verifier::rlimit(100)]
pub fn ray_colour(r: &Ray, world: &HittableList, depth: usize, rng: &mut SmRng) -> (c: Colour)
    requires
        r.wf(),
        world.wf(),
    ensures
        colour_wf(c),
        c == sray_colour(*r, world.list@, depth as int, old(rng).state).0,
        final(rng).state == sray_colour(*r, world.list@, depth as int, old(rng).state).1,
        depth == 0 ==> c == (Vec3 { x: 0, y: 0, z: 0 }),
        (depth > 0 && slist_hit(world.list@, *r, 66, 0x400_0000) is None) ==> c == ssky(r.dir),
    decreases depth,
{
    if depth == 0 {
        return Vec3 { x: 0, y: 0, z: 0 };
    }
    let ghost start: u64 = rng.state;
    match world.hit(r, crate::ray::T_MIN, crate::ray::T_MAX) {
        Some(hr) => {
            let m = hr.material;
            match m.scatter(r, &hr, rng) {
                Some((scattered, attenuation)) => {
                    let sub = ray_colour(&scattered, world, depth - 1, rng);
                    proof {
                        crate::fixed::lemma_fmul_unit(attenuation.x as int, sub.x as int);
                        crate::fixed::lemma_fmul_unit(attenuation.y as int, sub.y as int);
                        crate::fixed::lemma_fmul_unit(attenuation.z as int, sub.z as int);
                    }
                    attenuation.cmul(&sub)
                },
                None => Vec3 { x: 0, y: 0, z: 0 },
            }
        },
        None => sky_colour(&r.dir),
    }
}

/// One quantized pixel sample, carrying its absolute image coordinates so
/// tiles can be merged in any order.
#[derive(Clone, Copy, PartialEq, Eq, Structural, Debug)]
pub struct ScreenPixel {
    pub r: u8,
    pub g: u8,
    pub b: u8,
    pub x: usize,
    pub y: usize,
}

/// Value of quantizing an accumulated channel: average over the samples,
/// gamma-correct by a square root, clamp just below one and widen to a
/// byte.
pub open spec fn squant(acc: int, spp: int) -> int
    recommends
        spp > 0,
        0 <= acc,
{
    (sclamp(fsqrt(acc / spp), 0, 65470) * 256) / 65536
}

/// Quantize an accumulated colour channel to a byte.
pub fn quantize(acc: i64, spp: i64) -> (r: u8)
    requires
        0 < spp,
        0 <= acc,
        acc <= spp * 65536,
    ensures
        r as int == squant(acc as int, spp as int),
{
    let avg: i64 = ((acc as u64) / (spp as u64)) as i64;
    proof {
        vstd::arithmetic::div_mod::lemma_div_multiples_vanish(65536, spp as int);
        vstd::arithmetic::div_mod::lemma_div_is_ordered(acc as int, spp as int * 65536, spp as int);
        assert(avg as int <= 65536);
    }
    let g = fx_sqrt(avg);
    proof {
        assert(g <= 65536) by (nonlinear_arith)
            requires
                0 <= g,
                g as int * g as int <= avg as int * 65536,
                avg as int <= 65536,
        ;
    }
    let cl = fx_clamp(g, 0, 65470);
    (((cl as u64) * 256) / 65536) as u8
}

/// The clipped width of a tile starting at column `ti`.
pub open spec fn tile_cols(ti: int, tw: int, w: int) -> int {
    if tw < w - ti {
        tw
    } else {
        w - ti
    }
}

/// The clipped height of a tile starting at row `tj`.
pub open spec fn tile_rows(tj: int, th: int, h: int) -> int {
    if th < h - tj {
        th
    } else {
        h - tj
    }
}

/// The samples of a tile rooted at `(ti, tj)` come out row-major over its
/// `cols` clipped columns: the `k`-th sample belongs to image pixel
/// `(ti + k % cols, tj + k / cols)`.
pub open spec fn tile_pixels_ok(out: Seq<ScreenPixel>, ti: int, tj: int, cols: int) -> bool {
    forall|k: int|
        0 <= k < out.len() ==> (#[trigger] out[k]).x == ti + (k % cols) && out[k].y == tj + (k
            / cols)
}

/// Value of one jittered camera sample at pixel `(x, y)`: two jitter
/// draws, the normalized screen coordinates clamped into the unit
/// interval, then the integrator on the camera ray; black if the ray
/// degenerates.
pub open spec fn ssample(
    cam: Camera,
    objs: Seq<Hittable>,
    x: int,
    y: int,
    w: int,
    h: int,
    depth: int,
    state: u64,
) -> (Colour, u64) {
    let jx = crate::rng::sm_out(state) as int % 65536;
    let s1 = crate::rng::sm_step(state);
    let jy = crate::rng::sm_out(s1) as int % 65536;
    let s2 = crate::rng::sm_step(s1);
    let scq = (x * 65536 + jx) / (w - 1);
    let tcq = (y * 65536 + jy) / (h - 1);
    let sc = if scq > 65536 {
        65536int
    } else {
        scq
    };
    let tc = if tcq > 65536 {
        65536int
    } else {
        tcq
    };
    match scam_ray(cam, sc, tc) {
        Some(ray) => sray_colour(ray, objs, depth, s2),
        None => ((Vec3 { x: 0, y: 0, z: 0 }), s2),
    }
}

/// Componentwise sum of `spp` consecutive samples at pixel `(x, y)`.
pub open spec fn sacc(
    cam: Camera,
    objs: Seq<Hittable>,
    x: int,
    y: int,
    w: int,
    h: int,
    spp: int,
    depth: int,
    state: u64,
) -> (V3i, u64)
    decreases spp,
{
    if spp <= 0 {
        (V3i { x: 0, y: 0, z: 0 }, state)
    } else {
        let first = ssample(cam, objs, x, y, w, h, depth, state);
        let rest = sacc(cam, objs, x, y, w, h, spp - 1, depth, first.1);
        (
            V3i {
                x: first.0.x as int + rest.0.x,
                y: first.0.y as int + rest.0.y,
                z: first.0.z as int + rest.0.z,
            },
            rest.1,
        )
    }
}

/// Value of one finished pixel: the quantized averaged channels at its
/// absolute image coordinates.
pub open spec fn spixel(
    cam: Camera,
    objs: Seq<Hittable>,
    x: int,
    y: int,
    w: int,
    h: int,
    spp: int,
    depth: int,
    state: u64,
) -> (ScreenPixel, u64) {
    let a = sacc(cam, objs, x, y, w, h, spp, depth, state);
    (
        ScreenPixel {
            r: squant(a.0.x, spp) as u8,
            g: squant(a.0.y, spp) as u8,
            b: squant(a.0.z, spp) as u8,
            x: x as usize,
            y: y as usize,
        },
        a.1,
    )
}

/// The first `k` pixels of a tile rooted at `(ti, tj)`, row-major over its
/// `cols` clipped columns, threading the generator through every draw.
pub open spec fn stile(
    cam: Camera,
    objs: Seq<Hittable>,
    ti: int,
    tj: int,
    cols: int,
    w: int,
    h: int,
    spp: int,
    depth: int,
    k: int,
    state: u64,
) -> (Seq<ScreenPixel>, u64)
    decreases k,
{
    if k <= 0 {
        (Seq::<ScreenPixel>::empty(), state)
    } else {
        let prev = stile(cam, objs, ti, tj, cols, w, h, spp, depth, k - 1, state);
        let px = spixel(
            cam,
            objs,
            ti + (k - 1) % cols,
            tj + (k - 1) / cols,
            w,
            h,
            spp,
            depth,
            prev.1,
        );
        (prev.0.push(px.0), px.1)
    }
}

/// Render the tile with origin `(ti, tj)` and dimensions `tile_width` by
/// `tile_height`, clipped to the image, one quantized sample per pixel.
/// The samples come out row-major: the `k`-th belongs to pixel
/// `(ti + k % cols, tj + k / cols)` of the image, so the tile's pixels are
/// covered exactly once, and the whole output is exactly `stile` at the
/// generator's starting state.
#[verifier::rlimit(100)]
#[verifier::spinoff_prover]
pub fn render_tile(
    world: &HittableList,
    cam: &Camera,
    ti: usize,
    tj: usize,
    tile_width: usize,
    tile_height: usize,
    width: usize,
    height: usize,
    samples_per_pixel: usize,
    max_depth: usize,
    rng: &mut SmRng,
) -> (out: Vec<ScreenPixel>)
    requires
        world.wf(),
        cam.wf(),
        2 <= width <= 65536,
        2 <= height <= 65536,
        ti < width,
        tj < height,
        0 < tile_width,
        0 < tile_height,
        0 < samples_per_pixel <= 4096,
    ensures
        out.len() == tile_rows(tj as int, tile_height as int, height as int) * tile_cols(
            ti as int,
            tile_width as int,
            width as int,
        ),
        tile_pixels_ok(
            out@,
            ti as int,
            tj as int,
            tile_cols(ti as int, tile_width as int, width as int),
        ),
        out@ == stile(
            *cam,
            world.list@,
            ti as int,
            tj as int,
            tile_cols(ti as int, tile_width as int, width as int),
            width as int,
            height as int,
            samples_per_pixel as int,
            max_depth as int,
            tile_rows(tj as int, tile_height as int, height as int) * tile_cols(
                ti as int,
                tile_width as int,
                width as int,
            ),
            old(rng).state,
        ).0,
        final(rng).state == stile(
            *cam,
            world.list@,
            ti as int,
            tj as int,
            tile_cols(ti as int, tile_width as int, width as int),
            width as int,
            height as int,
            samples_per_pixel as int,
            max_depth as int,
            tile_rows(tj as int, tile_height as int, height as int) * tile_cols(
                ti as int,
                tile_width as int,
                width as int,
            ),
            old(rng).state,
        ).1,
{
    let ghost start: u64 = rng.state;
    let cols: usize = if tile_width < width - ti {
        tile_width
    } else {
        width - ti
    };
    let rows: usize = if tile_height < height - tj {
        tile_height
    } else {
        height - tj
    };
    let mut out: Vec<ScreenPixel> = Vec::new();
    let mut j: usize = 0;
    while j < rows
        invariant
            0 <= j <= rows,
            out.len() == j * cols,
            cols == tile_cols(ti as int, tile_width as int, width as int),
            rows == tile_rows(tj as int, tile_height as int, height as int),
            ti + cols <= width,
            tj + rows <= height,
            0 < cols,
            0 < rows,
            world.wf(),
            cam.wf(),
            2 <= width <= 65536,
            2 <= height <= 65536,
            0 < samples_per_pixel <= 4096,
            tile_pixels_ok(out@, ti as int, tj as int, cols as int),
            start == old(rng).state,
            out@ == stile(
                *cam,
                world.list@,
                ti as int,
                tj as int,
                cols as int,
                width as int,
                height as int,
                samples_per_pixel as int,
                max_depth as int,
                (j * cols) as int,
                start,
            ).0,
            rng.state == stile(
                *cam,
                world.list@,
                ti as int,
                tj as int,
                cols as int,
                width as int,
                height as int,
                samples_per_pixel as int,
                max_depth as int,
                (j * cols) as int,
                start,
            ).1,
        decreases rows - j,
    {
        let mut i: usize = 0;
        while i < cols
            invariant
                0 <= i <= cols,
                j < rows,
                out.len() == j * cols + i,
                cols == tile_cols(ti as int, tile_width as int, width as int),
                rows == tile_rows(tj as int, tile_height as int, height as int),
                ti + cols <= width,
                tj + rows <= height,
                0 < cols,
                0 < rows,
                world.wf(),
                cam.wf(),
                2 <= width <= 65536,
                2 <= height <= 65536,
                0 < samples_per_pixel <= 4096,
                tile_pixels_ok(out@, ti as int, tj as int, cols as int),
                start == old(rng).state,
                out@ == stile(
                    *cam,
                    world.list@,
                    ti as int,
                    tj as int,
                    cols as int,
                    width as int,
                    height as int,
                    samples_per_pixel as int,
                    max_depth as int,
                    (j * cols + i) as int,
                    start,
                ).0,
                rng.state == stile(
                    *cam,
                    world.list@,
                    ti as int,
                    tj as int,
                    cols as int,
                    width as int,
                    height as int,
                    samples_per_pixel as int,
                    max_depth as int,
                    (j * cols + i) as int,
                    start,
                ).1,
            decreases cols - i,
        {
            let x = ti + i;
            let y = tj + j;
            let ghost pix_start: u64 = rng.state;
            let mut acc_r: i64 = 0;
            let mut acc_g: i64 = 0;
            let mut acc_b: i64 = 0;
            let mut s: usize = 0;
            while s < samples_per_pixel
                invariant
                    0 <= s <= samples_per_pixel,
                    samples_per_pixel <= 4096,
                    0 <= acc_r <= s * 65536,
                    0 <= acc_g <= s * 65536,
                    0 <= acc_b <= s * 65536,
                    x < width,
                    y < height,
                    2 <= width <= 65536,
                    2 <= height <= 65536,
                    world.wf(),
                    cam.wf(),
                    ({
                        let total = sacc(
                            *cam,
                            world.list@,
                            x as int,
                            y as int,
                            width as int,
                            height as int,
                            samples_per_pixel as int,
                            max_depth as int,
                            pix_start,
                        );
                        let rem = sacc(
                            *cam,
                            world.list@,
                            x as int,
                            y as int,
                            width as int,
                            height as int,
                            (samples_per_pixel - s) as int,
                            max_depth as int,
                            rng.state,
                        );
                        total.0.x == acc_r + rem.0.x && total.0.y == acc_g + rem.0.y && total.0.z
                            == acc_b + rem.0.z && total.1 == rem.1
                    }),
                decreases samples_per_pixel - s,
            {
                let ghost spre: u64 = rng.state;
                let jx = rng.next_below(65536);
                let jy = rng.next_below(65536);
                let sn: u64 = (x as u64) * 65536 + jx;
                let tn: u64 = (y as u64) * 65536 + jy;
                let sc_raw: u64 = sn / ((width - 1) as u64);
                let tc_raw: u64 = tn / ((height - 1) as u64);
                let sc: i64 = if sc_raw > 65536 {
                    65536
                } else {
                    sc_raw as i64
                };
                let tc: i64 = if tc_raw > 65536 {
                    65536
                } else {
                    tc_raw as i64
                };
                let c: Colour = match cam.get_ray(sc, tc) {
                    Some(r) => ray_colour(&r, world, max_depth, rng),
                    None => Vec3 { x: 0, y: 0, z: 0 },
                };
                assert(colour_wf(c));
                proof {
                    assert(ssample(
                        *cam,
                        world.list@,
                        x as int,
                        y as int,
                        width as int,
                        height as int,
                        max_depth as int,
                        spre,
                    ) == (c, rng.state));
                    assert(sacc(
                        *cam,
                        world.list@,
                        x as int,
                        y as int,
                        width as int,
                        height as int,
                        (samples_per_pixel - s) as int,
                        max_depth as int,
                        spre,
                    ) == (
                        V3i {
                            x: c.x + sacc(
                                *cam,
                                world.list@,
                                x as int,
                                y as int,
                                width as int,
                                height as int,
                                (samples_per_pixel - s - 1) as int,
                                max_depth as int,
                                rng.state,
                            ).0.x,
                            y: c.y + sacc(
                                *cam,
                                world.list@,
                                x as int,
                                y as int,
                                width as int,
                                height as int,
                                (samples_per_pixel - s - 1) as int,
                                max_depth as int,
                                rng.state,
                            ).0.y,
                            z: c.z + sacc(
                                *cam,
                                world.list@,
                                x as int,
                                y as int,
                                width as int,
                                height as int,
                                (samples_per_pixel - s - 1) as int,
                                max_depth as int,
                                rng.state,
                            ).0.z,
                        },
                        sacc(
                            *cam,
                            world.list@,
                            x as int,
                            y as int,
                            width as int,
                            height as int,
                            (samples_per_pixel - s - 1) as int,
                            max_depth as int,
                            rng.state,
                        ).1,
                    ));
                }
                acc_r = acc_r + c.x;
                acc_g = acc_g + c.y;
                acc_b = acc_b + c.z;
                s = s + 1;
            }
            proof {
                assert(acc_r <= samples_per_pixel * 65536);
                assert(out.len() == j * cols + i < 0x1_0000_0000_0000) by (nonlinear_arith)
                    requires
                        out.len() == j * cols + i,
                        0 <= j <= 65536,
                        0 <= i <= cols,
                        0 < cols <= 65536,
                ;
            }
            let pr = quantize(acc_r, samples_per_pixel as i64);
            let pg = quantize(acc_g, samples_per_pixel as i64);
            let pb = quantize(acc_b, samples_per_pixel as i64);
            out.push(ScreenPixel { r: pr, g: pg, b: pb, x, y });
            proof {
                let kk = j as int * cols as int + i as int;
                vstd::arithmetic::div_mod::lemma_fundamental_div_mod_converse(
                    kk,
                    cols as int,
                    j as int,
                    i as int,
                );
                assert(spixel(
                    *cam,
                    world.list@,
                    x as int,
                    y as int,
                    width as int,
                    height as int,
                    samples_per_pixel as int,
                    max_depth as int,
                    pix_start,
                ) == (ScreenPixel { r: pr, g: pg, b: pb, x, y }, rng.state));
                assert(stile(
                    *cam,
                    world.list@,
                    ti as int,
                    tj as int,
                    cols as int,
                    width as int,
                    height as int,
                    samples_per_pixel as int,
                    max_depth as int,
                    kk + 1,
                    start,
                ).0 == out@);
            }
            i = i + 1;
        }
        j = j + 1;
        proof {
            assert((j - 1) * cols + cols == j * cols) by (nonlinear_arith);
        }
    }
    proof {
        assert(out.len() == rows * cols == tile_rows(tj as int, tile_height as int, height as int)
            * tile_cols(ti as int, tile_width as int, width as int)) by (nonlinear_arith)
            requires
                out.len() == rows * cols,
                rows == tile_rows(tj as int, tile_height as int, height as int),
                cols == tile_cols(ti as int, tile_width as int, width as int),
        ;
        assert(cols as int == tile_cols(ti as int, tile_width as int, width as int));
    }
    out
}

/// Number of tiles needed to span `span` pixels at tile dimension `td`.
pub open spec fn n_tiles(span: int, td: int) -> int
    recommends
        td > 0,
{
    (span + td - 1) / td
}

/// The tile origins form the row-major grid: the `k`-th job starts at
/// column `(k % ncols) * td` and row `(k / ncols) * td`.
pub open spec fn jobs_grid_ok(jobs: Seq<(usize, usize)>, ncols: int, td: int) -> bool {
    forall|k: int|
        0 <= k < jobs.len() ==> (#[trigger] jobs[k]).0 == (k % ncols) * td && jobs[k].1 == (k
            / ncols) * td
}

/// Every job origin lies inside the image.
pub open spec fn jobs_in_image(jobs: Seq<(usize, usize)>, w: int, h: int) -> bool {
    forall|k: int| 0 <= k < jobs.len() ==> #[trigger] jobs[k].0 < w && jobs[k].1 < h
}

/// Whether pixel `(x, y)` falls within the (unclipped) rectangle of the
/// tile rooted at `job`.
pub open spec fn in_tile_rect(job: (usize, usize), td: int, x: int, y: int) -> bool {
    job.0 <= x < job.0 as int + td && job.1 <= y < job.1 as int + td
}

/// Index of the unique grid tile containing pixel `(x, y)`.
pub open spec fn tile_index_of(x: int, y: int, ncols: int, td: int) -> int
    recommends
        td > 0,
        ncols > 0,
{
    (y / td) * ncols + (x / td)
}

/// The ceiling division of the grid is exact on the last covered row.
proof fn lemma_n_tiles(span: int, td: int)
    requires
        0 < td,
        0 < span,
    ensures
        n_tiles(span, td) == (span - 1) / td + 1,
        (n_tiles(span, td) - 1) * td < span,
        n_tiles(span, td) > 0,
{
    vstd::arithmetic::div_mod::lemma_fundamental_div_mod(span + td - 1, td);
    let q = (span + td - 1) / td;
    let r = (span + td - 1) % td;
    vstd::arithmetic::div_mod::lemma_mod_division_less_than_divisor(span + td - 1, td);
    assert(span + td - 1 == td * q + r);
    assert(span - 1 == (q - 1) * td + r) by (nonlinear_arith)
        requires
            span + td - 1 == td * q + r,
    ;
    vstd::arithmetic::div_mod::lemma_fundamental_div_mod_converse(span - 1, td, q - 1, r);
    assert((q - 1) * td <= span - 1 < span);
}

/// Tile partitioning is complete and exclusive: every pixel of the image
/// lies in the rectangle of exactly one grid tile.
pub proof fn lemma_tiles_cover(jobs: Seq<(usize, usize)>, w: int, h: int, td: int)
    requires
        0 < td,
        0 < w,
        0 < h,
        jobs.len() == n_tiles(h, td) * n_tiles(w, td),
        jobs_grid_ok(jobs, n_tiles(w, td), td),
    ensures
        forall|x: int, y: int|
            0 <= x < w && 0 <= y < h ==> {
                let k = #[trigger] tile_index_of(x, y, n_tiles(w, td), td);
                0 <= k < jobs.len() && in_tile_rect(jobs[k], td, x, y)
            },
        forall|k: int, x: int, y: int|
            0 <= x < w && 0 <= y < h && 0 <= k < jobs.len() && #[trigger] in_tile_rect(
                jobs[k],
                td,
                x,
                y,
            ) ==> k == tile_index_of(x, y, n_tiles(w, td), td),
{
    let ncols = n_tiles(w, td);
    let nrows = n_tiles(h, td);
    lemma_n_tiles(w, td);
    lemma_n_tiles(h, td);
    assert forall|x: int, y: int| 0 <= x < w && 0 <= y < h implies {
        let k = #[trigger] tile_index_of(x, y, ncols, td);
        0 <= k < jobs.len() && in_tile_rect(jobs[k], td, x, y)
    } by {
        let qx = x / td;
        let qy = y / td;
        vstd::arithmetic::div_mod::lemma_fundamental_div_mod(x, td);
        vstd::arithmetic::div_mod::lemma_mod_division_less_than_divisor(x, td);
        vstd::arithmetic::div_mod::lemma_fundamental_div_mod(y, td);
        vstd::arithmetic::div_mod::lemma_mod_division_less_than_divisor(y, td);
        vstd::arithmetic::div_mod::lemma_div_is_ordered(x, w - 1, td);
        vstd::arithmetic::div_mod::lemma_div_is_ordered(y, h - 1, td);
        vstd::arithmetic::div_mod::lemma_div_pos_is_pos(x, td);
        vstd::arithmetic::div_mod::lemma_div_pos_is_pos(y, td);
        assert(qx <= ncols - 1 && qy <= nrows - 1);
        let k = qy * ncols + qx;
        assert(0 <= k < nrows * ncols) by (nonlinear_arith)
            requires
                0 <= qx <= ncols - 1,
                0 <= qy <= nrows - 1,
                0 < ncols,
                0 < nrows,
                k == qy * ncols + qx,
        ;
        vstd::arithmetic::div_mod::lemma_fundamental_div_mod_converse(k, ncols, qy, qx);
        assert(jobs[k].0 == qx * td && jobs[k].1 == qy * td);
        assert(qx * td <= x < qx * td + td) by (nonlinear_arith)
            requires
                x == td * qx + x % td,
                0 <= x % td < td,
        ;
        assert(qy * td <= y < qy * td + td) by (nonlinear_arith)
            requires
                y == td * qy + y % td,
                0 <= y % td < td,
        ;
    }
    assert forall|k: int, x: int, y: int|
        0 <= x < w && 0 <= y < h && 0 <= k < jobs.len() && #[trigger] in_tile_rect(
            jobs[k],
            td,
            x,
            y,
        ) implies k == tile_index_of(x, y, ncols, td) by {
        let kc = k % ncols;
        let kr = k / ncols;
        vstd::arithmetic::div_mod::lemma_fundamental_div_mod(k, ncols);
        vstd::arithmetic::div_mod::lemma_mod_division_less_than_divisor(k, ncols);
        vstd::arithmetic::div_mod::lemma_div_pos_is_pos(k, ncols);
        assert(jobs[k].0 == kc * td && jobs[k].1 == kr * td);
        assert(x == td * kc + (x - kc * td) && 0 <= x - kc * td < td) by (nonlinear_arith)
            requires
                kc * td <= x < kc * td + td,
        ;
        vstd::arithmetic::div_mod::lemma_fundamental_div_mod_converse(x, td, kc, x - kc * td);
        assert(y == td * kr + (y - kr * td) && 0 <= y - kr * td < td) by (nonlinear_arith)
            requires
                kr * td <= y < kr * td + td,
        ;
        vstd::arithmetic::div_mod::lemma_fundamental_div_mod_converse(y, td, kr, y - kr * td);
        assert(x / td == kc && y / td == kr);
        assert(k == ncols * kr + kc);
        assert(tile_index_of(x, y, ncols, td) == kr * ncols + kc);
    }
}

/// The grid of tile origins as a value: the `k`-th job starts at column
/// `(k % ncols) * td` and row `(k / ncols) * td`.
pub open spec fn sjobs(w: int, h: int, td: int) -> Seq<(usize, usize)> {
    Seq::new(
        (n_tiles(h, td) * n_tiles(w, td)) as nat,
        |k: int|
            (
                ((k % n_tiles(w, td)) * td) as usize,
                ((k / n_tiles(w, td)) * td) as usize,
            ),
    )
}

/// The row-major list of tile origins partitioning a `width` by `height`
/// image at tile dimension `tile_dim`.
pub fn tile_origins(width: usize, height: usize, tile_dim: usize) -> (jobs: Vec<(usize, usize)>)
    requires
        0 < tile_dim <= 65536,
        1 <= width <= 65536,
        1 <= height <= 65536,
    ensures
        jobs.len() == n_tiles(height as int, tile_dim as int) * n_tiles(
            width as int,
            tile_dim as int,
        ),
        jobs_grid_ok(jobs@, n_tiles(width as int, tile_dim as int), tile_dim as int),
        jobs_in_image(jobs@, width as int, height as int),
        jobs@ == sjobs(width as int, height as int, tile_dim as int),
{
    let ncols = (width + tile_dim - 1) / tile_dim;
    let nrows = (height + tile_dim - 1) / tile_dim;
    proof {
        lemma_n_tiles(width as int, tile_dim as int);
        lemma_n_tiles(height as int, tile_dim as int);
    }
    let mut jobs: Vec<(usize, usize)> = Vec::new();
    let mut row: usize = 0;
    while row < nrows
        invariant
            0 <= row <= nrows,
            ncols == n_tiles(width as int, tile_dim as int),
            nrows == n_tiles(height as int, tile_dim as int),
            (ncols - 1) * tile_dim < width <= 65536,
            (nrows - 1) * tile_dim < height <= 65536,
            0 < ncols,
            0 < nrows,
            0 < tile_dim <= 65536,
            jobs.len() == row * ncols,
            jobs_grid_ok(jobs@, ncols as int, tile_dim as int),
            jobs_in_image(jobs@, width as int, height as int),
        decreases nrows - row,
    {
        let mut col: usize = 0;
        while col < ncols
            invariant
                0 <= col <= ncols,
                row < nrows,
                ncols == n_tiles(width as int, tile_dim as int),
                nrows == n_tiles(height as int, tile_dim as int),
                (ncols - 1) * tile_dim < width <= 65536,
                (nrows - 1) * tile_dim < height <= 65536,
                0 < ncols,
                0 < nrows,
                0 < tile_dim <= 65536,
                jobs.len() == row * ncols + col,
                jobs_grid_ok(jobs@, ncols as int, tile_dim as int),
                jobs_in_image(jobs@, width as int, height as int),
            decreases ncols - col,
        {
            proof {
                assert(col * tile_dim <= (ncols - 1) * tile_dim && row * tile_dim <= (nrows - 1)
                    * tile_dim) by (nonlinear_arith)
                    requires
                        0 <= col <= ncols - 1,
                        0 <= row <= nrows - 1,
                        0 < tile_dim,
                ;
            }
            let ti = col * tile_dim;
            let tj = row * tile_dim;
            let ghost pre = jobs@;
            jobs.push((ti, tj));
            proof {
                let kk = row as int * ncols as int + col as int;
                vstd::arithmetic::div_mod::lemma_fundamental_div_mod_converse(
                    kk,
                    ncols as int,
                    row as int,
                    col as int,
                );
                assert(jobs@ == pre.push((ti, tj)));
                assert forall|k: int| 0 <= k < jobs.len() implies #[trigger] jobs[k].0 < width
                    && jobs[k].1 < height by {
                    if k < jobs.len() - 1 {
                        assert(jobs@[k] == pre[k]);
                        assert(pre[k].0 < width && pre[k].1 < height);
                    } else {
                        assert(jobs[k] == (ti, tj));
                    }
                }
            }
            col = col + 1;
        }
        row = row + 1;
        proof {
            assert((row - 1) * ncols + ncols == row * ncols) by (nonlinear_arith);
        }
    }
    proof {
        assert(jobs.len() == nrows * ncols);
        assert(jobs@ =~= sjobs(width as int, height as int, tile_dim as int)) by {
            assert forall|k: int| 0 <= k < jobs@.len() implies jobs@[k] == sjobs(
                width as int,
                height as int,
                tile_dim as int,
            )[k] by {
                assert(jobs@[k].0 == (k % (ncols as int)) * tile_dim && jobs@[k].1 == (k / (
                ncols as int)) * tile_dim);
            }
        }
    }
    jobs
}

/// Every sample of `ps` lies in the rectangle of the tile at `job`, inside
/// the image.
pub open spec fn pixels_in_rect(
    ps: Seq<ScreenPixel>,
    job: (usize, usize),
    td: int,
    w: int,
    h: int,
) -> bool {
    forall|k: int|
        0 <= k < ps.len() ==> in_tile_rect(job, td, (#[trigger] ps[k]).x as int, ps[k].y as int)
            && ps[k].x < w && ps[k].y < h
}

/// No tile that produced a result covers pixel `(x, y)`: every covering
/// tile failed.
pub open spec fn dead_pixel(
    jobs: Seq<(usize, usize)>,
    results: Seq<Option<Vec<ScreenPixel>>>,
    td: int,
    x: int,
    y: int,
) -> bool {
    forall|n: int|
        0 <= n < jobs.len() && results[n] is Some ==> !#[trigger] in_tile_rect(jobs[n], td, x, y)
}

/// Value of merging tile results in order: each delivered tile writes its
/// samples, each missing one leaves the buffer as it was.
pub open spec fn smerge(
    data: Seq<u8>,
    results: Seq<Option<Vec<ScreenPixel>>>,
    w: int,
    h: int,
) -> Seq<u8>
    decreases results.len(),
{
    if results.len() == 0 {
        data
    } else {
        let prev = smerge(data, results.drop_last(), w, h);
        match results.last() {
            Some(ps) => crate::imagebuf::sapply(prev, ps@, w, h),
            None => prev,
        }
    }
}

/// Merging in-range tile results never changes the buffer's length.
pub proof fn lemma_smerge_len(
    data: Seq<u8>,
    results: Seq<Option<Vec<ScreenPixel>>>,
    w: int,
    h: int,
)
    requires
        0 < w,
        0 < h,
        data.len() == w * 3 * h,
        forall|m: int|
            0 <= m < results.len() && results[m] is Some ==> forall|k: int|
                0 <= k < (results[m]->Some_0)@.len() ==> (#[trigger] (results[m]->Some_0)@[k]).x
                    < w && (results[m]->Some_0)@[k].y < h,
    ensures
        smerge(data, results, w, h).len() == data.len(),
    decreases results.len(),
{
    if results.len() > 0 {
        assert(forall|m: int|
            0 <= m < results.drop_last().len() ==> results.drop_last()[m] == #[trigger] results[m]);
        lemma_smerge_len(data, results.drop_last(), w, h);
        match results.last() {
            Some(ps) => {
                assert(results[results.len() - 1] is Some);
                crate::imagebuf::lemma_sapply_len(
                    smerge(data, results.drop_last(), w, h),
                    ps@,
                    w,
                    h,
                );
            },
            None => {},
        }
    }
}

/// Merging is per-pixel independent of the other tiles' results and of
/// arrival order: at a pixel that one delivered tile's samples address and
/// that no other tile's rectangle covers, the merged image carries exactly
/// the bytes that tile alone would have written.
pub proof fn lemma_merge_pixel_from_covering_tile(
    data: Seq<u8>,
    jobs: Seq<(usize, usize)>,
    results: Seq<Option<Vec<ScreenPixel>>>,
    td: int,
    w: int,
    h: int,
    x: int,
    y: int,
    n: int,
)
    requires
        0 < td,
        0 < w,
        0 < h,
        data.len() == w * 3 * h,
        results.len() == jobs.len(),
        forall|m: int|
            0 <= m < jobs.len() && results[m] is Some ==> #[trigger] pixels_in_rect(
                (results[m]->Some_0)@,
                jobs[m],
                td,
                w,
                h,
            ),
        0 <= x < w,
        0 <= y < h,
        0 <= n < jobs.len(),
        results[n] is Some,
        crate::imagebuf::covers_px((results[n]->Some_0)@, x, y),
        forall|m: int|
            0 <= m < jobs.len() && m != n ==> !#[trigger] in_tile_rect(jobs[m], td, x, y),
    ensures
        crate::imagebuf::spixel_at(smerge(data, results, w, h), w, h, x, y)
            == crate::imagebuf::spixel_at(
            crate::imagebuf::sapply(data, (results[n]->Some_0)@, w, h),
            w,
            h,
            x,
            y,
        ),
    decreases results.len(),
{
    let last = results.len() - 1;
    assert(forall|m: int|
        0 <= m < results.drop_last().len() ==> results.drop_last()[m] == #[trigger] results[m]);
    assert(forall|m: int|
        0 <= m < jobs.drop_last().len() ==> jobs.drop_last()[m] == #[trigger] jobs[m]);
    assert(forall|m: int|
        0 <= m < results.len() && results[m] is Some ==> forall|k: int|
            0 <= k < (results[m]->Some_0)@.len() ==> (#[trigger] (results[m]->Some_0)@[k]).x < w
                && (results[m]->Some_0)@[k].y < h) by {
        assert forall|m: int| 0 <= m < results.len() && results[m] is Some implies forall|k: int|
            0 <= k < (results[m]->Some_0)@.len() ==> (#[trigger] (results[m]->Some_0)@[k]).x < w
                && (results[m]->Some_0)@[k].y < h by {
            assert(pixels_in_rect((results[m]->Some_0)@, jobs[m], td, w, h));
        }
    }
    lemma_smerge_len(data, results.drop_last(), w, h);
    if n == last {
        let ps = (results[n]->Some_0)@;
        match results.last() {
            Some(v) => {
                assert(v@ == ps);
                crate::imagebuf::lemma_sapply_covered_base_independent(
                    smerge(data, results.drop_last(), w, h),
                    data,
                    ps,
                    w,
                    h,
                    x,
                    y,
                );
            },
            None => {},
        }
    } else {
        match results.last() {
            Some(v) => {
                assert(results[last] is Some);
                assert(pixels_in_rect(v@, jobs[last], td, w, h));
                assert(!in_tile_rect(jobs[last], td, x, y));
                assert(!crate::imagebuf::covers_px(v@, x, y)) by {
                    if crate::imagebuf::covers_px(v@, x, y) {
                        let k = choose|k: int|
                            0 <= k < v@.len() && v@[k].x == x && v@[k].y == y;
                        assert(in_tile_rect(jobs[last], td, v@[k].x as int, v@[k].y as int));
                    }
                }
                crate::imagebuf::lemma_sapply_untouched(
                    smerge(data, results.drop_last(), w, h),
                    v@,
                    w,
                    h,
                    x,
                    y,
                );
            },
            None => {},
        }
        assert(results.drop_last()[n] == results[n]);
        assert(jobs.drop_last()[n] == jobs[n]);
        lemma_merge_pixel_from_covering_tile(
            data,
            jobs.drop_last(),
            results.drop_last(),
            td,
            w,
            h,
            x,
            y,
            n,
        );
    }
}

/// Merge per-tile results into the image in arrival order. A missing
/// result (a failed or undecodable tile) is skipped: the pixels that only
/// it covered keep the value the buffer started with.
pub fn merge_results(
    img: &mut ImageBuf,
    tile_dim: usize,
    jobs: &Vec<(usize, usize)>,
    results: &Vec<Option<Vec<ScreenPixel>>>,
)
    requires
        old(img).wf(),
        0 < tile_dim,
        results.len() == jobs.len(),
        forall|n: int|
            0 <= n < jobs.len() && results@[n] is Some ==> #[trigger] pixels_in_rect(
                (results@[n]->Some_0)@,
                jobs@[n],
                tile_dim as int,
                old(img).width as int,
                old(img).height as int,
            ),
    ensures
        final(img).wf(),
        final(img).width == old(img).width,
        final(img).height == old(img).height,
        final(img).data@ == smerge(
            old(img).data@,
            results@,
            old(img).width as int,
            old(img).height as int,
        ),
        forall|x: int, y: int|
            0 <= x < old(img).width && 0 <= y < old(img).height && #[trigger] dead_pixel(
                jobs@,
                results@,
                tile_dim as int,
                x,
                y,
            ) ==> crate::imagebuf::spixel_at(
                final(img).data@,
                old(img).width as int,
                old(img).height as int,
                x,
                y,
            ) == crate::imagebuf::spixel_at(
                old(img).data@,
                old(img).width as int,
                old(img).height as int,
                x,
                y,
            ),
{
    let w = img.width;
    let h = img.height;
    let m = results.len();
    let mut n: usize = 0;
    while n < m
        invariant
            0 <= n <= m,
            m == results.len(),
            m == jobs.len(),
            img.wf(),
            img.width == w == old(img).width,
            img.height == h == old(img).height,
            0 < tile_dim,
            forall|q: int|
                0 <= q < jobs.len() && results@[q] is Some ==> #[trigger] pixels_in_rect(
                    (results@[q]->Some_0)@,
                    jobs@[q],
                    tile_dim as int,
                    w as int,
                    h as int,
                ),
            img.data@ == smerge(old(img).data@, results@.take(n as int), w as int, h as int),
            forall|x: int, y: int|
                0 <= x < w && 0 <= y < h && #[trigger] dead_pixel(
                    jobs@.take(n as int),
                    results@.take(n as int),
                    tile_dim as int,
                    x,
                    y,
                ) ==> crate::imagebuf::spixel_at(img.data@, w as int, h as int, x, y)
                    == crate::imagebuf::spixel_at(old(img).data@, w as int, h as int, x, y),
        decreases m - n,
    {
        let ghost pre = img.data@;
        proof {
            assert(results@.take(n as int + 1).drop_last() == results@.take(n as int));
            assert(results@.take(n as int + 1).last() == results@[n as int]);
        }
        match &results[n] {
            Some(pixels) => {
                proof {
                    assert(pixels_in_rect(pixels@, jobs@[n as int], tile_dim as int, w as int, h as int));
                }
                img.apply_tile(pixels);
                proof {
                    assert forall|x: int, y: int|
                        0 <= x < w && 0 <= y < h && #[trigger] dead_pixel(
                            jobs@.take(n as int + 1),
                            results@.take(n as int + 1),
                            tile_dim as int,
                            x,
                            y,
                        ) implies crate::imagebuf::spixel_at(img.data@, w as int, h as int, x, y)
                        == crate::imagebuf::spixel_at(old(img).data@, w as int, h as int, x, y) by {
                        assert(dead_pixel(
                            jobs@.take(n as int),
                            results@.take(n as int),
                            tile_dim as int,
                            x,
                            y,
                        )) by {
                            assert(forall|q: int|
                                0 <= q < n ==> jobs@.take(n as int)[q] == #[trigger] jobs@.take(
                                    n as int + 1,
                                )[q] && results@.take(n as int)[q] == results@.take(
                                    n as int + 1,
                                )[q]);
                        }
                        assert(jobs@.take(n as int + 1)[n as int] == jobs@[n as int]);
                        assert(results@.take(n as int + 1)[n as int] == results@[n as int]);
                        assert(!in_tile_rect(
                            jobs@.take(n as int + 1)[n as int],
                            tile_dim as int,
                            x,
                            y,
                        ));
                        assert(!in_tile_rect(jobs@[n as int], tile_dim as int, x, y));
                        assert(!crate::imagebuf::covers_px(pixels@, x, y)) by {
                            if crate::imagebuf::covers_px(pixels@, x, y) {
                                let k = choose|k: int|
                                    0 <= k < pixels@.len() && pixels@[k].x == x && pixels@[k].y
                                        == y;
                                assert(in_tile_rect(
                                    jobs@[n as int],
                                    tile_dim as int,
                                    pixels@[k].x as int,
                                    pixels@[k].y as int,
                                ));
                            }
                        }
                        crate::imagebuf::lemma_sapply_untouched(
                            pre,
                            pixels@,
                            w as int,
                            h as int,
                            x,
                            y,
                        );
                    }
                }
            },
            None => {
                proof {
                    assert forall|x: int, y: int|
                        0 <= x < w && 0 <= y < h && #[trigger] dead_pixel(
                            jobs@.take(n as int + 1),
                            results@.take(n as int + 1),
                            tile_dim as int,
                            x,
                            y,
                        ) implies crate::imagebuf::spixel_at(img.data@, w as int, h as int, x, y)
                        == crate::imagebuf::spixel_at(old(img).data@, w as int, h as int, x, y) by {
                        assert(dead_pixel(
                            jobs@.take(n as int),
                            results@.take(n as int),
                            tile_dim as int,
                            x,
                            y,
                        )) by {
                            assert(forall|q: int|
                                0 <= q < n ==> jobs@.take(n as int)[q] == #[trigger] jobs@.take(
                                    n as int + 1,
                                )[q] && results@.take(n as int)[q] == results@.take(
                                    n as int + 1,
                                )[q]);
                        }
                    }
                }
            },
        }
        n = n + 1;
    }
    proof {
        assert(jobs@.take(m as int) == jobs@);
        assert(results@.take(m as int) == results@);
    }
}

/// Value of rendering the first `n` grid tiles onto a buffer in order:
/// each tile's samples come from a generator seeded by the render seed and
/// the tile origin, so tiles are independent of one another.
pub open spec fn srender_grid(
    data: Seq<u8>,
    cam: Camera,
    objs: Seq<Hittable>,
    jobs: Seq<(usize, usize)>,
    n: int,
    td: int,
    w: int,
    h: int,
    spp: int,
    depth: int,
    seed: u64,
) -> Seq<u8>
    decreases n,
{
    if n <= 0 {
        data
    } else {
        let prev = srender_grid(data, cam, objs, jobs, n - 1, td, w, h, spp, depth, seed);
        let job = jobs[n - 1];
        let cols = tile_cols(job.0 as int, td, w);
        let rows = tile_rows(job.1 as int, td, h);
        let tseed = seed ^ (((job.0 as int) * 0x1_0000_0000 + (job.1 as int)) as u64);
        crate::imagebuf::sapply(
            prev,
            stile(
                cam,
                objs,
                job.0 as int,
                job.1 as int,
                cols,
                w,
                h,
                spp,
                depth,
                rows * cols,
                tseed,
            ).0,
            w,
            h,
        )
    }
}

/// Render a whole image: partition it into tiles, render each with a
/// generator seeded from the render seed and the tile origin, and merge
/// every tile. When one tile covers the whole image, render it alone: the
/// result is then one `stile` pass over the black buffer, and otherwise
/// the grid fold `srender_grid` over every tile of the partition.
pub fn render_image(
    world: &HittableList,
    cam: &Camera,
    width: usize,
    height: usize,
    tile_dim: usize,
    samples_per_pixel: usize,
    max_depth: usize,
    seed: u64,
) -> (img: ImageBuf)
    requires
        world.wf(),
        cam.wf(),
        2 <= width <= 4096,
        2 <= height <= 4096,
        0 < tile_dim <= 65536,
        0 < samples_per_pixel <= 4096,
    ensures
        img.wf(),
        img.width == width,
        img.height == height,
        (tile_dim >= width || tile_dim >= height) ==> img.data@ == crate::imagebuf::sapply(
            crate::imagebuf::szeros(width as int, height as int),
            stile(
                *cam,
                world.list@,
                0,
                0,
                tile_cols(0, width as int, width as int),
                width as int,
                height as int,
                samples_per_pixel as int,
                max_depth as int,
                tile_rows(0, height as int, height as int) * tile_cols(
                    0,
                    width as int,
                    width as int,
                ),
                seed,
            ).0,
            width as int,
            height as int,
        ),
        !(tile_dim >= width || tile_dim >= height) ==> img.data@ == srender_grid(
            crate::imagebuf::szeros(width as int, height as int),
            *cam,
            world.list@,
            sjobs(width as int, height as int, tile_dim as int),
            n_tiles(height as int, tile_dim as int) * n_tiles(width as int, tile_dim as int),
            tile_dim as int,
            width as int,
            height as int,
            samples_per_pixel as int,
            max_depth as int,
            seed,
        ),
{
    let mut img = ImageBuf::new(width, height);
    if tile_dim >= width || tile_dim >= height {
        let mut rng = SmRng::new(seed);
        let pixels = render_tile(
            world,
            cam,
            0,
            0,
            width,
            height,
            width,
            height,
            samples_per_pixel,
            max_depth,
            &mut rng,
        );
        proof {
            assert forall|k: int| 0 <= k < pixels.len() implies #[trigger] pixels[k].x < width
                && pixels[k].y < height by {
                let cols = tile_cols(0, width as int, width as int);
                let rows = tile_rows(0, height as int, height as int);
                assert(pixels[k].x == 0 + (k % cols) && pixels[k].y == 0 + (k / cols));
                assert(0 <= k % cols < cols);
                vstd::arithmetic::div_mod::lemma_div_pos_is_pos(k, cols);
                assert(pixels.len() == rows * cols);
                assert(rows * cols == cols * rows) by (nonlinear_arith);
                vstd::arithmetic::div_mod::lemma_multiply_divide_lt(k, cols, rows);
            }
        }
        img.apply_tile(&pixels);
        return img;
    }
    let jobs = tile_origins(width, height, tile_dim);
    let m = jobs.len();
    let mut n: usize = 0;
    while n < m
        invariant
            0 <= n <= m,
            m == jobs.len(),
            img.wf(),
            img.width == width,
            img.height == height,
            world.wf(),
            cam.wf(),
            2 <= width <= 4096,
            2 <= height <= 4096,
            0 < tile_dim <= 65536,
            0 < samples_per_pixel <= 4096,
            jobs_in_image(jobs@, width as int, height as int),
            jobs@ == sjobs(width as int, height as int, tile_dim as int),
            img.data@ == srender_grid(
                crate::imagebuf::szeros(width as int, height as int),
                *cam,
                world.list@,
                jobs@,
                n as int,
                tile_dim as int,
                width as int,
                height as int,
                samples_per_pixel as int,
                max_depth as int,
                seed,
            ),
        decreases m - n,
    {
        let (ti, tj) = jobs[n];
        let ghost tseed: u64 = seed ^ (((ti as int) * 0x1_0000_0000 + (tj as int)) as u64);
        let mut rng = SmRng::new(seed ^ ((ti as u64) * 0x1_0000_0000 + (tj as u64)));
        proof {
            assert(rng.state == tseed);
        }
        let pixels = render_tile(
            world,
            cam,
            ti,
            tj,
            tile_dim,
            tile_dim,
            width,
            height,
            samples_per_pixel,
            max_depth,
            &mut rng,
        );
        proof {
            assert forall|k: int| 0 <= k < pixels.len() implies #[trigger] pixels[k].x < width
                && pixels[k].y < height by {
                let cols = tile_cols(ti as int, tile_dim as int, width as int);
                let rows = tile_rows(tj as int, tile_dim as int, height as int);
                assert(pixels[k].x == ti + (k % cols) && pixels[k].y == tj + (k / cols));
                assert(0 <= k % cols < cols);
                vstd::arithmetic::div_mod::lemma_div_pos_is_pos(k, cols);
                assert(pixels.len() == rows * cols);
                assert(rows * cols == cols * rows) by (nonlinear_arith);
                vstd::arithmetic::div_mod::lemma_multiply_divide_lt(k, cols, rows);
            }
        }
        let ghost pre = img.data@;
        img.apply_tile(&pixels);
        proof {
            assert(img.data@ == srender_grid(
                crate::imagebuf::szeros(width as int, height as int),
                *cam,
                world.list@,
                jobs@,
                n as int + 1,
                tile_dim as int,
                width as int,
                height as int,
                samples_per_pixel as int,
                max_depth as int,
                seed,
            ));
        }
        n = n + 1;
    }
    img
}

} // verus!
