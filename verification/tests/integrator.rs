use pathtracer::fixed::SCALE;
use pathtracer::hittable::Hittable;
use pathtracer::hittable_list::HittableList;
use pathtracer::material::Material;
use pathtracer::ray::Ray;
use pathtracer::render::{quantize, ray_colour, sky_colour};
use pathtracer::rng::SmRng;
use pathtracer::scenes::scene_of_complexity;
use pathtracer::sphere::Sphere;
use pathtracer::vec3::Vec3;

fn ray_with_dir(dir: Vec3) -> Ray {
    Ray::new(Vec3 { x: 0, y: 0, z: 0 }, dir)
}

#[test]
fn depth_zero_is_black() {
    // Even with a sphere dead ahead, an exhausted depth budget yields
    // exactly black.
    let mut w = HittableList::new();
    w.add(Hittable::Sphere(Sphere::new(
        Vec3 { x: 0, y: 0, z: -5 * SCALE },
        SCALE,
        Material::Lambertian { albedo: Vec3 { x: 65536, y: 65536, z: 65536 } },
    )));
    let mut rng = SmRng::new(1);
    let c = ray_colour(&ray_with_dir(Vec3 { x: 0, y: 0, z: -SCALE }), &w, 0, &mut rng);
    assert_eq!(c, Vec3 { x: 0, y: 0, z: 0 });
}

#[test]
fn miss_yields_sky_gradient() {
    // The sky is a pure function of the normalized y-direction; check the
    // closed-form blend at the poles and the horizon.
    let w = HittableList::new();
    let mut rng = SmRng::new(2);

    // Straight up: t = 1, pure sky blue (0.5, 0.7, 1.0).
    let up = ray_colour(&ray_with_dir(Vec3 { x: 0, y: SCALE, z: 0 }), &w, 5, &mut rng);
    assert_eq!(up, Vec3 { x: 32768, y: 45875, z: 65536 });

    // Straight down: t = 0, pure white.
    let down = ray_colour(&ray_with_dir(Vec3 { x: 0, y: -SCALE, z: 0 }), &w, 5, &mut rng);
    assert_eq!(down, Vec3 { x: 65536, y: 65536, z: 65536 });

    // Horizontal: t = 1/2, the midpoint blend.
    let level = ray_colour(&ray_with_dir(Vec3 { x: SCALE, y: 0, z: 0 }), &w, 5, &mut rng);
    assert_eq!(level, Vec3 { x: 49152, y: 55705, z: 65536 });
}

#[test]
fn miss_matches_sky_closed_form_for_sampled_directions() {
    let w = HittableList::new();
    let mut rng = SmRng::new(3);
    let dirs = [
        Vec3 { x: 30000, y: 20000, z: -50000 },
        Vec3 { x: -9000, y: -64000, z: 12000 },
        Vec3 { x: 65536, y: 65536, z: 65536 },
        Vec3 { x: 0, y: 700, z: -65536 },
    ];
    for d in dirs {
        let u = Vec3::unit_checked(&d).unwrap();
        let c = ray_colour(&ray_with_dir(u), &w, 7, &mut rng);
        assert_eq!(c, sky_colour(&u));
    }
}

#[test]
fn scattered_colour_is_attenuated() {
    // One bounce off a grey floor then sky: every channel is at most the
    // sky's, scaled by at most the albedo.
    let mut w = HittableList::new();
    w.add(Hittable::Sphere(Sphere::new(
        Vec3 { x: 0, y: -6586368, z: -65536 },
        6553600,
        Material::Lambertian { albedo: Vec3 { x: 32768, y: 32768, z: 32768 } },
    )));
    let mut rng = SmRng::new(4);
    let down = Vec3 { x: 0, y: -SCALE, z: 0 };
    let c = ray_colour(&ray_with_dir(down), &w, 8, &mut rng);
    // Half-grey albedo: nothing brighter than one half can come back.
    assert!(c.x <= 32768 && c.y <= 32768 && c.z <= 32768);
}

#[test]
fn quantize_formula() {
    // Full intensity: clamped just below one, then widened to 255.
    assert_eq!(quantize(65536, 1), 255);
    assert_eq!(quantize(0, 1), 0);
    // 0.25 averages then gamma-corrects to 0.5, the 128th step.
    assert_eq!(quantize(16384, 1), 128);
    // Averaging over four samples of full intensity.
    assert_eq!(quantize(4 * 65536, 4), 255);
    // Averaging white and black over two samples: 0.5 -> sqrt -> 0.7071.
    assert_eq!(quantize(65536, 2) as u64, (46340u64 * 256) / 65536);
}

#[test]
fn scene_factory_places_ground_first() {
    let w = scene_of_complexity(0, 9);
    assert_eq!(w.list.len(), 1);
    match &w.list[0] {
        Hittable::Sphere(s) => {
            assert_eq!(s.centre, Vec3 { x: 0, y: -6586368, z: -65536 });
            assert_eq!(s.radius, 6553600);
            assert_eq!(
                s.material,
                Material::Lambertian { albedo: Vec3 { x: 32768, y: 32768, z: 32768 } }
            );
        }
    }
}

#[test]
fn scene_factory_complexity_adds_spheres() {
    let w = scene_of_complexity(40, 9);
    // Some grid cells fall within the exclusion zone, so the count is
    // between 1 and 41; a fixed seed keeps it stable.
    assert!(w.list.len() > 1);
    assert!(w.list.len() <= 41);
    let w2 = scene_of_complexity(40, 9);
    assert_eq!(w.list.len(), w2.list.len());
}

#[test]
fn random_scene_without_seed_draws_one() {
    // The unseeded path pulls entropy from the operating system; the
    // scene must still be complete and well-formed.
    let w = pathtracer::scenes::random_scene(None);
    assert!(w.list.len() >= 4);
    match &w.list[0] {
        Hittable::Sphere(s) => assert_eq!(s.radius, 6553600),
    }
}

#[test]
fn random_scene_has_feature_spheres() {
    let w = pathtracer::scenes::random_scene(Some(31));
    assert!(w.list.len() >= 4);
    let n = w.list.len();
    // The three feature spheres close the list: glass, diffuse, metal.
    match &w.list[n - 3] {
        Hittable::Sphere(s) => assert_eq!(s.material, Material::Dielectric { ir: 98304 }),
    }
    match &w.list[n - 1] {
        Hittable::Sphere(s) => assert!(matches!(s.material, Material::Metal { .. })),
    }
}
