use pathtracer::fixed::SCALE;
use pathtracer::hitrecord::HitRecord;
use pathtracer::material::{Material, ScatterRand};
use pathtracer::ray::Ray;
use pathtracer::rng::SmRng;
use pathtracer::vec3::Vec3;

fn surface_rec(m: Material) -> HitRecord {
    // A hit on a horizontal surface at the origin, normal straight up.
    HitRecord {
        p: Vec3 { x: 0, y: 0, z: 0 },
        normal: Vec3 { x: 0, y: SCALE, z: 0 },
        material: m,
        t: SCALE,
        front: true,
    }
}

fn down_ray() -> Ray {
    Ray::new(Vec3 { x: 0, y: SCALE, z: 0 }, Vec3 { x: 0, y: -SCALE, z: 0 })
}

#[test]
fn lambertian_always_scatters_with_albedo() {
    let albedo = Vec3 { x: 45875, y: 13107, z: 32768 };
    let m = Material::Lambertian { albedo };
    let rec = surface_rec(m);
    let r = down_ray();
    let mut rng = SmRng::new(11);
    for _ in 0..8 {
        let (scattered, att) = m.scatter(&r, &rec, &mut rng).expect("diffuse never absorbs");
        assert_eq!(att, albedo);
        assert_eq!(scattered.origin, rec.p);
    }
}

#[test]
fn lambertian_degenerate_draw_falls_back_to_normal() {
    // A random perturbation exactly cancelling the normal must yield the
    // normal itself, not a zero-length direction.
    let albedo = Vec3 { x: 32768, y: 32768, z: 32768 };
    let m = Material::Lambertian { albedo };
    let rec = surface_rec(m);
    let sr = ScatterRand { ball: Vec3 { x: 0, y: -SCALE, z: 0 }, coin: 0 };
    let (scattered, att) = m.scatter_with(&down_ray(), &rec, sr).unwrap();
    assert_eq!(att, albedo);
    assert_eq!(scattered.dir, rec.normal);
}

#[test]
fn metal_reflects_up() {
    let albedo = Vec3 { x: 45875, y: 39322, z: 32768 };
    let m = Material::Metal { albedo, fuzz: 0 };
    let rec = surface_rec(m);
    let sr = ScatterRand { ball: Vec3 { x: 0, y: 0, z: 0 }, coin: 0 };
    let (scattered, att) = m.scatter_with(&down_ray(), &rec, sr).unwrap();
    assert_eq!(att, albedo);
    assert_eq!(scattered.dir, Vec3 { x: 0, y: SCALE, z: 0 });
}

#[test]
fn metal_rejects_grazing_fuzzed_reflection() {
    // Grazing geometry: the reflection barely clears the surface, and a
    // full-strength fuzz draw pointing into the surface drags it below.
    // Scatter must answer absence, never a ray into the surface.
    let albedo = Vec3 { x: 45875, y: 39322, z: 32768 };
    let m = Material::Metal { albedo, fuzz: SCALE };
    let rec = surface_rec(m);
    let grazing = Ray::new(
        Vec3 { x: -SCALE, y: 655, z: 0 },
        Vec3 { x: SCALE, y: -655, z: 0 },
    );
    let sr = ScatterRand { ball: Vec3 { x: 0, y: -SCALE, z: 0 }, coin: 0 };
    assert!(m.scatter_with(&grazing, &rec, sr).is_none());

    // The same geometry without fuzz still clears the surface.
    let m0 = Material::Metal { albedo, fuzz: 0 };
    let rec0 = surface_rec(m0);
    let (scattered, _) = m0.scatter_with(&grazing, &rec0, sr).expect("clean reflection");
    assert!(scattered.dir.y > 0);
}

#[test]
fn dielectric_attenuation_is_white() {
    let m = Material::Dielectric { ir: 98304 };
    let rec = surface_rec(m);
    let mut rng = SmRng::new(5);
    for _ in 0..8 {
        if let Some((_, att)) = m.scatter(&down_ray(), &rec, &mut rng) {
            assert_eq!(att, Vec3 { x: SCALE, y: SCALE, z: SCALE });
        } else {
            panic!("head-on refraction must scatter");
        }
    }
}

#[test]
fn dielectric_total_internal_reflection() {
    // Exiting glass at a grazing angle: ratio * sin exceeds one, so the
    // ray must reflect, staying on the incoming side of the surface.
    let m = Material::Dielectric { ir: 98304 };
    let mut rec = surface_rec(m);
    rec.front = false;
    let grazing = Ray::new(
        Vec3 { x: -SCALE, y: 6554, z: 0 },
        Vec3 { x: 64881, y: -9215, z: 0 },
    );
    let sr = ScatterRand { ball: Vec3 { x: 0, y: 0, z: 0 }, coin: SCALE };
    let (scattered, att) = m.scatter_with(&grazing, &rec, sr).expect("reflection");
    assert_eq!(att, Vec3 { x: SCALE, y: SCALE, z: SCALE });
    // Reflected, not refracted: the vertical component flipped sign.
    assert!(scattered.dir.y > 0);
}
