use pathtracer::fixed::SCALE;
use pathtracer::hitrecord::HitRecord;
use pathtracer::hittable::Hittable;
use pathtracer::hittable_list::HittableList;
use pathtracer::material::Material;
use pathtracer::ray::{Ray, T_MAX, T_MIN};
use pathtracer::sphere::Sphere;
use pathtracer::vec3::Vec3;

fn grey() -> Material {
    Material::Lambertian { albedo: Vec3 { x: 32768, y: 32768, z: 32768 } }
}

fn red() -> Material {
    Material::Lambertian { albedo: Vec3 { x: 65536, y: 0, z: 0 } }
}

fn z_ray() -> Ray {
    Ray::new(Vec3 { x: 0, y: 0, z: 0 }, Vec3 { x: 0, y: 0, z: -SCALE })
}

#[test]
fn sphere_entry_distance() {
    // Sphere of radius 1 centred 5 units along the ray: the entry hit is at
    // t = 5 - 1 = 4, up to fixed-point rounding.
    let s = Sphere::new(Vec3 { x: 0, y: 0, z: -5 * SCALE }, SCALE, grey());
    let rec = s.hit(&z_ray(), T_MIN, T_MAX).unwrap();
    assert!((rec.t - 4 * SCALE).abs() <= 8, "t = {}", rec.t);
}

#[test]
fn sphere_entry_distance_other_radius() {
    // Radius 2, centre 9 along the ray: entry at t = 7.
    let s = Sphere::new(Vec3 { x: 0, y: 0, z: -9 * SCALE }, 2 * SCALE, grey());
    let rec = s.hit(&z_ray(), T_MIN, T_MAX).unwrap();
    assert!((rec.t - 7 * SCALE).abs() <= 8, "t = {}", rec.t);
}

#[test]
fn sphere_miss_is_none() {
    let s = Sphere::new(Vec3 { x: 10 * SCALE, y: 0, z: -5 * SCALE }, SCALE, grey());
    assert!(s.hit(&z_ray(), T_MIN, T_MAX).is_none());
}

#[test]
fn sphere_hit_beyond_tmax_is_none() {
    let s = Sphere::new(Vec3 { x: 0, y: 0, z: -5 * SCALE }, SCALE, grey());
    assert!(s.hit(&z_ray(), T_MIN, 3 * SCALE).is_none());
}

#[test]
fn front_face_hit_from_outside() {
    // Striking the sphere from outside: front is set and the normal points
    // back along the ray, away from the centre.
    let s = Sphere::new(Vec3 { x: 0, y: 0, z: -5 * SCALE }, SCALE, grey());
    let rec = s.hit(&z_ray(), T_MIN, T_MAX).unwrap();
    assert!(rec.front);
    assert!(rec.normal.z > 0);
    assert!((rec.normal.z - SCALE).abs() <= 256);
    assert!(rec.normal.x.abs() <= 256 && rec.normal.y.abs() <= 256);
}

#[test]
fn front_face_flag_flips_inward_normal() {
    // The record constructor orients the normal against the ray: when the
    // outward normal points along the ray (a hit from inside), the flag
    // clears and the stored normal is the flipped one.
    let r = z_ray();
    let outward_along_ray = Vec3 { x: 0, y: 0, z: -SCALE };
    let rec = HitRecord::new(&r, 2 * SCALE, &outward_along_ray, grey());
    assert!(!rec.front);
    assert_eq!(rec.normal, Vec3 { x: 0, y: 0, z: SCALE });

    let outward_against_ray = Vec3 { x: 0, y: 0, z: SCALE };
    let rec2 = HitRecord::new(&r, 2 * SCALE, &outward_against_ray, grey());
    assert!(rec2.front);
    assert_eq!(rec2.normal, outward_against_ray);
}

#[test]
fn nearest_of_two_overlapping_spheres() {
    // Two overlapping spheres along one ray: the nearer one wins, and
    // swapping insertion order changes nothing.
    let near = Hittable::Sphere(Sphere::new(Vec3 { x: 0, y: 0, z: -5 * SCALE }, SCALE, red()));
    let far = Hittable::Sphere(Sphere::new(Vec3 { x: 0, y: 0, z: -6 * SCALE }, SCALE, grey()));

    let mut a = HittableList::new();
    a.add(near);
    a.add(far);
    let ra = a.hit(&z_ray(), T_MIN, T_MAX).unwrap();

    let mut b = HittableList::new();
    b.add(far);
    b.add(near);
    let rb = b.hit(&z_ray(), T_MIN, T_MAX).unwrap();

    assert_eq!(ra, rb);
    assert_eq!(ra.material, red());
    assert!((ra.t - 4 * SCALE).abs() <= 8);
}

#[test]
fn equal_t_tie_first_inserted_wins() {
    // Two coincident spheres reach the exact same entry parameter; the
    // first-seen object keeps the hit, whichever that is.
    let red_s = Hittable::Sphere(Sphere::new(Vec3 { x: 0, y: 0, z: -5 * SCALE }, SCALE, red()));
    let grey_s = Hittable::Sphere(Sphere::new(Vec3 { x: 0, y: 0, z: -5 * SCALE }, SCALE, grey()));

    let mut a = HittableList::new();
    a.add(red_s);
    a.add(grey_s);
    let ra = a.hit(&z_ray(), T_MIN, T_MAX).unwrap();
    assert_eq!(ra.material, red());

    let mut b = HittableList::new();
    b.add(grey_s);
    b.add(red_s);
    let rb = b.hit(&z_ray(), T_MIN, T_MAX).unwrap();
    assert_eq!(rb.material, grey());
    assert_eq!(ra.t, rb.t);
}

#[test]
fn empty_scene_misses() {
    let w = HittableList::new();
    assert!(w.hit(&z_ray(), T_MIN, T_MAX).is_none());
}
