use rand::SeedableRng;
use rand::rngs::StdRng;
use raytracer::camera::Camera;
use raytracer::fixed::Fx;
use raytracer::hittable::Hittable;
use raytracer::hittable_list::HittableList;
use raytracer::ray::Ray;
use raytracer::sphere::Sphere;
use raytracer::vec3::Vec3;

const ONE: i128 = 65536;
const ASPECT_16_9: i128 = 116508;

fn fx(raw: i128) -> Fx {
    Fx::from_raw(raw)
}

fn v3(x: i128, y: i128, z: i128) -> Vec3 {
    Vec3::new(fx(x), fx(y), fx(z))
}

fn two_sphere_world() -> HittableList {
    let mut world = HittableList::new();
    world.add(Hittable::Sphere(Sphere::new(v3(0, 0, -ONE), fx(32768))));
    world.add(Hittable::Sphere(Sphere::new(v3(0, -6586368, -ONE), Fx::from_int(100))));
    world
}

#[test]
fn camera_derives_expected_geometry() {
    let cam = Camera::new(fx(ASPECT_16_9), Fx::from_int(400));
    assert_eq!(cam.image_width, 400);
    assert_eq!(cam.image_height, 225);
    assert_eq!(cam.samples_per_pixel, 100);
    assert_eq!(cam.max_depth, 10);
    assert_eq!(cam.pixel_samples_scale.raw, 655);
    assert_eq!(cam.pixel_delta_u.x.raw, 582);
    assert_eq!(cam.pixel_delta_u.y.raw, 0);
    assert_eq!(cam.pixel_delta_v.y.raw, -582);
    assert_eq!(
        (cam.pixel00_loc.x.raw, cam.pixel00_loc.y.raw, cam.pixel00_loc.z.raw),
        (-116217, 65245, -ONE),
    );
    assert_eq!((cam.center.x.raw, cam.center.y.raw, cam.center.z.raw), (0, 0, 0));
    assert!(cam.is_well_formed());
}

#[test]
fn camera_height_is_at_least_one() {
    let cam = Camera::new(Fx::from_int(1000), Fx::from_int(4));
    assert_eq!(cam.image_height, 1);
}

#[test]
fn ray_color_honors_depth_cap() {
    let world = two_sphere_world();
    let mut rng = StdRng::seed_from_u64(5);
    let r = Ray::new(v3(0, 0, 0), v3(0, 0, -ONE));
    let c = Camera::ray_color(&r, -1, &world, &mut rng);
    assert_eq!((c.x.raw, c.y.raw, c.z.raw), (0, 0, 0));
}

#[test]
fn ray_color_miss_is_background_gradient() {
    let world = two_sphere_world();
    let mut rng = StdRng::seed_from_u64(5);
    let up = Ray::new(v3(0, 0, 0), v3(0, ONE, 0));
    let c = Camera::ray_color(&up, 10, &world, &mut rng);
    assert_eq!((c.x.raw, c.y.raw, c.z.raw), (32768, 45875, ONE));
    let level = Ray::new(v3(0, 10 * ONE, 0), v3(0, 0, ONE));
    let c2 = Camera::ray_color(&level, 10, &world, &mut rng);
    assert_eq!((c2.x.raw, c2.y.raw, c2.z.raw), (49152, 55705, ONE));
}

#[test]
fn ray_color_hit_attenuates_to_a_tenth() {
    let world = two_sphere_world();
    let mut rng = StdRng::seed_from_u64(5);
    let r = Ray::new(v3(0, 0, 0), v3(0, 0, -ONE));
    let c = Camera::ray_color(&r, 10, &world, &mut rng);
    assert!(c.x.raw <= 6553 && c.y.raw <= 6553 && c.z.raw <= 6553);
    assert!(c.x.raw >= 0 && c.y.raw >= 0 && c.z.raw >= 0);
}

#[test]
fn random_vectors_respect_their_ranges() {
    let mut rng = StdRng::seed_from_u64(11);
    for _ in 0..200 {
        let v = Vec3::random(&mut rng);
        assert!(0 <= v.x.raw && v.x.raw < ONE);
        assert!(0 <= v.y.raw && v.y.raw < ONE);
        assert!(0 <= v.z.raw && v.z.raw < ONE);
        let w = Vec3::random_in_range(Fx::from_int(-1), Fx::from_int(1), &mut rng);
        assert!(-ONE <= w.x.raw && w.x.raw < ONE);
        assert!(-ONE <= w.y.raw && w.y.raw < ONE);
        assert!(-ONE <= w.z.raw && w.z.raw < ONE);
        let s = Vec3::random_in_unit_sphere(&mut rng);
        assert!(s.length_squared().raw < ONE);
        let u = Vec3::random_unit_vector(&mut rng);
        assert!((u.length().raw - ONE).abs() <= 64);
        let n = v3(0, ONE, 0);
        let h = Vec3::random_on_hemisphere(&n, &mut rng);
        assert!(h.dot(&n).raw >= 0);
    }
}

#[test]
fn render_two_sphere_scene_end_to_end() {
    let world = two_sphere_world();
    let cam = Camera::with_samples(fx(ASPECT_16_9), Fx::from_int(400), 1, 4);
    assert!(cam.is_well_formed());
    let mut rng = StdRng::seed_from_u64(42);
    let pixels = cam.render(&world, &mut rng);
    assert_eq!(pixels.len(), 400 * 225);
    for i in 0..400 {
        let (r, g, b) = pixels[i];
        assert_eq!(b, 255, "top row stays sky at column {i}");
        assert!(r <= g && g <= b, "sky blend is ordered at column {i}");
    }
    let (cr, cg, cb) = pixels[112 * 400 + 200];
    assert!(
        cr < 150 && cg < 150 && cb < 150,
        "center pixel lies in the small sphere's silhouette: {cr} {cg} {cb}",
    );
}

#[test]
fn render_is_reproducible_under_a_fixed_seed() {
    let world = two_sphere_world();
    let cam = Camera::with_samples(fx(ASPECT_16_9), Fx::from_int(64), 1, 4);
    let mut rng_a = StdRng::seed_from_u64(7);
    let a = cam.render(&world, &mut rng_a);
    let mut rng_b = StdRng::seed_from_u64(7);
    let b = cam.render(&world, &mut rng_b);
    assert_eq!(a, b);
}

#[test]
fn more_samples_reduce_run_to_run_variance() {
    let world = two_sphere_world();
    let lo = Camera::with_samples(fx(ASPECT_16_9), Fx::from_int(16), 1, 4);
    let hi = Camera::with_samples(fx(ASPECT_16_9), Fx::from_int(16), 16, 4);
    let diff = |cam: &Camera, s1: u64, s2: u64| -> i64 {
        let mut r1 = StdRng::seed_from_u64(s1);
        let a = cam.render(&world, &mut r1);
        let mut r2 = StdRng::seed_from_u64(s2);
        let b = cam.render(&world, &mut r2);
        let mut acc: i64 = 0;
        for (pa, pb) in a.iter().zip(b.iter()) {
            let d0 = pa.0 as i64 - pb.0 as i64;
            let d1 = pa.1 as i64 - pb.1 as i64;
            let d2 = pa.2 as i64 - pb.2 as i64;
            acc += d0 * d0 + d1 * d1 + d2 * d2;
        }
        acc
    };
    let noisy = diff(&lo, 101, 202);
    let smooth = diff(&hi, 303, 404);
    assert!(smooth < noisy, "smooth {smooth} vs noisy {noisy}");
}
