use pathtracer::camera::Camera;
use pathtracer::fixed::SCALE;
use pathtracer::hittable_list::HittableList;
use pathtracer::imagebuf::ImageBuf;
use pathtracer::ray::{T_MAX, T_MIN};
use pathtracer::render::{merge_results, quantize, ray_colour, render_image, render_tile, sky_colour, tile_origins, ScreenPixel};
use pathtracer::rng::SmRng;
use pathtracer::scenes::scene_of_complexity;
use pathtracer::vec3::Vec3;

fn test_camera() -> Camera {
    // Looking down the negative z-axis from the origin, a 4 x 2 screen one
    // unit away.
    Camera::new(
        Vec3 { x: 0, y: 0, z: 0 },
        Vec3 { x: -2 * SCALE, y: -SCALE, z: -SCALE },
        Vec3 { x: 4 * SCALE, y: 0, z: 0 },
        Vec3 { x: 0, y: 2 * SCALE, z: 0 },
    )
}

#[test]
fn tile_grid_for_non_divisor_dimension() {
    let jobs = tile_origins(10, 7, 4);
    assert_eq!(
        jobs,
        vec![(0, 0), (4, 0), (8, 0), (0, 4), (4, 4), (8, 4)]
    );
}

#[test]
fn tiles_cover_every_pixel_exactly_once() {
    // For several width/height/tile combinations, including non-divisors,
    // the union of the tile rectangles covers each pixel exactly once.
    for (w, h, td) in [(10usize, 7usize, 4usize), (8, 8, 8), (5, 9, 2), (16, 4, 5), (3, 3, 7)] {
        let jobs = tile_origins(w, h, td);
        for x in 0..w {
            for y in 0..h {
                let covering = jobs
                    .iter()
                    .filter(|(ti, tj)| *ti <= x && x < ti + td && *tj <= y && y < tj + td)
                    .count();
                assert_eq!(covering, 1, "pixel ({x},{y}) with w={w} h={h} td={td}");
            }
        }
    }
}

#[test]
fn tile_samples_cover_clipped_tile_exactly_once() {
    let world = HittableList::new();
    let cam = test_camera();
    let mut rng = SmRng::new(5);
    // Tile rooted at (4, 3) of nominal size 4 in a 6 x 5 image: clipped to
    // 2 columns and 2 rows.
    let pixels = render_tile(&world, &cam, 4, 3, 4, 4, 6, 5, 1, 3, &mut rng);
    assert_eq!(pixels.len(), 4);
    let mut seen = std::collections::HashSet::new();
    for p in &pixels {
        assert!((4..6).contains(&p.x) && (3..5).contains(&p.y));
        assert!(seen.insert((p.x, p.y)));
    }
}

#[test]
fn render_image_dimensions_and_determinism() {
    let world = scene_of_complexity(4, 17);
    let cam = test_camera();
    let a = render_image(&world, &cam, 8, 6, 4, 1, 4, 99);
    let b = render_image(&world, &cam, 8, 6, 4, 1, 4, 99);
    assert_eq!(a.width, 8);
    assert_eq!(a.height, 6);
    assert_eq!(a.data.len(), 8 * 6 * 3);
    assert_eq!(a.data, b.data, "same seed, same image");
}

#[test]
fn end_to_end_ground_scene_top_row_is_sky() {
    // A single ground sphere, camera looking down -z: the top row of the
    // output must be exactly the sky gradient for its sampled directions.
    let world = scene_of_complexity(0, 1);
    let cam = test_camera();
    let width = 8usize;
    let height = 6usize;
    let seed = 12345u64;
    let img = render_image(&world, &cam, width, height, 100, 1, 5, seed);
    assert_eq!(img.width, width);
    assert_eq!(img.height, height);

    // Replay the single whole-image tile with the same seed, pixel by
    // pixel, against the integrator called directly.
    let mut rng = SmRng::new(seed);
    for y in 0..height {
        for x in 0..width {
            let jx = rng.next_below(65536);
            let jy = rng.next_below(65536);
            let sn = (x as u64) * 65536 + jx;
            let tn = (y as u64) * 65536 + jy;
            let sc = (sn / ((width - 1) as u64)).min(65536) as i64;
            let tc = (tn / ((height - 1) as u64)).min(65536) as i64;
            let ray = cam.get_ray(sc, tc).expect("camera ray");
            let c = ray_colour(&ray, &world, 5, &mut rng);
            let base = (((height - 1 - y) * width) + x) * 3;
            assert_eq!(img.data[base], quantize(c.x, 1), "r at ({x},{y})");
            assert_eq!(img.data[base + 1], quantize(c.y, 1), "g at ({x},{y})");
            assert_eq!(img.data[base + 2], quantize(c.z, 1), "b at ({x},{y})");
            if y == height - 1 {
                // Top sample row: the ray must miss everything and show
                // exactly the closed-form sky.
                assert!(world.hit(&ray, T_MIN, T_MAX).is_none());
                assert_eq!(c, sky_colour(&ray.dir));
            }
        }
    }
}

#[test]
fn merge_drops_failed_tile_and_keeps_the_rest() {
    // Render four tiles; deliver one as failed. The image must still
    // arrive, differing from the fully-successful reference only inside
    // the failed tile's block, which stays at the initial black.
    let world = scene_of_complexity(3, 23);
    let cam = test_camera();
    let (w, h, td) = (8usize, 8usize, 4usize);
    let jobs = tile_origins(w, h, td);
    assert_eq!(jobs.len(), 4);

    let mut all: Vec<Option<Vec<ScreenPixel>>> = Vec::new();
    for (ti, tj) in jobs.iter().copied() {
        let mut rng = SmRng::new(7 ^ ((ti as u64) * 0x1_0000_0000 + tj as u64));
        all.push(Some(render_tile(&world, &cam, ti, tj, td, td, w, h, 1, 4, &mut rng)));
    }
    let mut partial = all.clone();
    let dropped = 2usize;
    partial[dropped] = None;

    let mut full = ImageBuf::new(w, h);
    merge_results(&mut full, td, &jobs, &all);
    let mut degraded = ImageBuf::new(w, h);
    merge_results(&mut degraded, td, &jobs, &partial);

    let (dti, dtj) = jobs[dropped];
    for x in 0..w {
        for y in 0..h {
            let base = (((h - 1 - y) * w) + x) * 3;
            let in_dropped = dti <= x && x < dti + td && dtj <= y && y < dtj + td;
            if in_dropped {
                assert_eq!(degraded.data[base], 0);
                assert_eq!(degraded.data[base + 1], 0);
                assert_eq!(degraded.data[base + 2], 0);
            } else {
                assert_eq!(degraded.data[base], full.data[base]);
                assert_eq!(degraded.data[base + 1], full.data[base + 1]);
                assert_eq!(degraded.data[base + 2], full.data[base + 2]);
            }
        }
    }
}

#[test]
fn sample_row_flip_lands_in_top_buffer_row() {
    // A sample at the highest y lands in buffer row zero.
    let mut img = ImageBuf::new(4, 3);
    let px = ScreenPixel { r: 9, g: 8, b: 7, x: 1, y: 2 };
    img.put_sample(&px);
    assert_eq!(&img.data[3..6], &[9, 8, 7]);
}
