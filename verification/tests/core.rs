use raytracer::color::{linear_to_gamma, write_color};
use raytracer::fixed::Fx;
use raytracer::hittable::{HitRecord, Hittable};
use raytracer::hittable_list::HittableList;
use raytracer::interval::Interval;
use raytracer::ray::Ray;
use raytracer::sphere::Sphere;
use raytracer::vec3::Vec3;

const ONE: i128 = 65536;

fn fx(raw: i128) -> Fx {
    Fx::from_raw(raw)
}

fn v3(x: i128, y: i128, z: i128) -> Vec3 {
    Vec3::new(fx(x), fx(y), fx(z))
}

#[test]
fn fixed_arithmetic_truncates_toward_zero() {
    assert_eq!(Fx::from_int(3).mul(Fx::from_int(2)).raw, 6 * ONE);
    assert_eq!(fx(-98304).mul(fx(32768)).raw, -49152);
    assert_eq!(fx(98304).mul(fx(32768)).raw, 49152);
    assert_eq!(fx(ONE).div(fx(3 * ONE)).raw, 21845);
    assert_eq!(fx(-ONE).div(fx(3 * ONE)).raw, -21845);
    assert_eq!(Fx::from_int(7).add(Fx::from_int(-9)).raw, -2 * ONE);
    assert_eq!(Fx::from_int(5).sub(Fx::from_int(2)).raw, 3 * ONE);
    assert_eq!(Fx::from_int(5).neg().raw, -5 * ONE);
}

#[test]
fn fixed_division_accepts_either_sign() {
    assert_eq!(Fx::from_int(6).div(Fx::from_int(-2)).raw, -3 * ONE);
    assert_eq!(Fx::from_int(-6).div(Fx::from_int(-2)).raw, 3 * ONE);
    assert_eq!(Fx::from_int(1).div(Fx::from_int(-3)).raw, -21845);
    let v = Vec3::new(Fx::from_int(2), Fx::from_int(-3), fx(32768));
    let d = v.div_scalar(Fx::from_int(-2));
    assert_eq!((d.x.raw, d.y.raw, d.z.raw), (-ONE, 98304, -16384));
}

#[test]
fn fixed_sqrt_rounds_down() {
    assert_eq!(Fx::from_int(4).sqrt().raw, 2 * ONE);
    assert_eq!(fx(32768).sqrt().raw, 46340);
    assert_eq!(fx(16384).sqrt().raw, 32768);
    assert_eq!(Fx::zero().sqrt().raw, 0);
    assert_eq!(Fx::from_int(2).sqrt().raw, 92681);
}

#[test]
fn dot_is_commutative() {
    let a = v3(3 * ONE + 17, -2 * ONE + 5, 7 * ONE - 1);
    let b = v3(-ONE + 3, 4 * ONE + 9, 2 * ONE + 11);
    assert_eq!(a.dot(&b).raw, b.dot(&a).raw);
}

#[test]
fn cross_is_antisymmetric() {
    let a = v3(3 * ONE + 17, -2 * ONE + 5, 7 * ONE - 1);
    let b = v3(-ONE + 3, 4 * ONE + 9, 2 * ONE + 11);
    let ab = a.cross(&b);
    let ba_neg = b.cross(&a).neg();
    assert_eq!(ab.x.raw, ba_neg.x.raw);
    assert_eq!(ab.y.raw, ba_neg.y.raw);
    assert_eq!(ab.z.raw, ba_neg.z.raw);
}

#[test]
fn length_squared_is_self_dot() {
    let a = v3(3 * ONE + 17, -2 * ONE + 5, 7 * ONE - 1);
    assert_eq!(a.length_squared().raw, a.dot(&a).raw);
    assert_eq!(v3(3 * ONE, 4 * ONE, 0).length_squared().raw, 25 * ONE);
}

#[test]
fn unit_vector_has_length_near_one() {
    let u = v3(3 * ONE, 4 * ONE, 0).to_unit_vector();
    assert_eq!((u.x.raw, u.y.raw, u.z.raw), (39321, 52428, 0));
    let l = u.length().raw;
    assert!((l - ONE).abs() <= 8, "length {l}");
    let w = v3(ONE, 2 * ONE, 2 * ONE).to_unit_vector();
    let lw = w.length().raw;
    assert!((lw - ONE).abs() <= 8, "length {lw}");
}

#[test]
fn vector_products_and_scaling() {
    let a = v3(2 * ONE, -3 * ONE, 32768);
    let b = v3(32768, 2 * ONE, 4 * ONE);
    let m = a.mul(b);
    assert_eq!((m.x.raw, m.y.raw, m.z.raw), (ONE, -6 * ONE, 2 * ONE));
    let s = a.scale(Fx::from_int(3));
    assert_eq!((s.x.raw, s.y.raw, s.z.raw), (6 * ONE, -9 * ONE, 98304));
    let d = a.div_scalar(Fx::from_int(2));
    assert_eq!((d.x.raw, d.y.raw, d.z.raw), (ONE, -98304, 16384));
    let sum = a.add(b);
    assert_eq!((sum.x.raw, sum.y.raw, sum.z.raw), (2 * ONE + 32768, -ONE, 294912));
    let diff = a.sub(b);
    assert_eq!((diff.x.raw, diff.y.raw, diff.z.raw), (98304, -5 * ONE, -229376));
    assert_eq!(a.x().raw, 2 * ONE);
    assert_eq!(a.y().raw, -3 * ONE);
    assert_eq!(a.z().raw, 32768);
}

#[test]
fn ray_evaluates_at_parameter() {
    let r = Ray::new(v3(ONE, 0, -ONE), v3(0, 0, -ONE));
    let p = r.at(Fx::from_int(3));
    assert_eq!((p.x.raw, p.y.raw, p.z.raw), (ONE, 0, -4 * ONE));
}

#[test]
fn interval_membership_and_clamp() {
    let i = Interval::new(Fx::from_int(1), Fx::from_int(3));
    assert!(i.contains(Fx::from_int(1)));
    assert!(i.contains(Fx::from_int(3)));
    assert!(!i.contains(fx(3 * ONE + 1)));
    assert!(!i.surrounds(Fx::from_int(1)));
    assert!(!i.surrounds(Fx::from_int(3)));
    assert!(i.surrounds(Fx::from_int(2)));
    assert_eq!(i.clamp(Fx::from_int(0)).raw, ONE);
    assert_eq!(i.clamp(Fx::from_int(5)).raw, 3 * ONE);
    assert_eq!(i.clamp(Fx::from_int(2)).raw, 2 * ONE);
    assert_eq!(i.size().raw, -2 * ONE);
}

#[test]
fn gamma_is_square_root() {
    assert_eq!(linear_to_gamma(fx(16384)).raw, 32768);
    assert_eq!(linear_to_gamma(fx(ONE)).raw, ONE);
    assert_eq!(linear_to_gamma(Fx::zero()).raw, 0);
}

#[test]
fn write_color_maps_extremes() {
    assert_eq!(write_color(v3(ONE, ONE, ONE)), (255, 255, 255));
    assert_eq!(write_color(v3(0, 0, 0)), (0, 0, 0));
}

#[test]
fn write_color_maps_half_gray() {
    assert_eq!(write_color(v3(32768, 32768, 32768)), (181, 181, 181));
}

#[test]
fn sphere_hit_head_on_from_outside() {
    let s = Sphere::new(v3(0, 0, -3 * ONE), fx(ONE));
    let r = Ray::new(v3(0, 0, 0), v3(0, 0, -ONE));
    let rec = s.hit(&r, Interval::new(fx(65), fx(0x400000000000))).unwrap();
    assert_eq!(rec.t.raw, 2 * ONE);
    assert!(rec.front_face);
    assert_eq!((rec.p.x.raw, rec.p.y.raw, rec.p.z.raw), (0, 0, -2 * ONE));
    assert_eq!((rec.normal.x.raw, rec.normal.y.raw, rec.normal.z.raw), (0, 0, ONE));
}

#[test]
fn sphere_behind_origin_is_missed() {
    let s = Sphere::new(v3(0, 0, 3 * ONE), fx(ONE));
    let r = Ray::new(v3(0, 0, 0), v3(0, 0, -ONE));
    assert!(s.hit(&r, Interval::new(fx(65), fx(0x400000000000))).is_none());
}

#[test]
fn sphere_hit_from_inside_flips_normal() {
    let s = Sphere::new(v3(0, 0, -ONE), Fx::from_int(2));
    let r = Ray::new(v3(0, 0, 0), v3(0, 0, -ONE));
    let rec = s.hit(&r, Interval::new(fx(65), fx(0x400000000000))).unwrap();
    assert_eq!(rec.t.raw, 3 * ONE);
    assert!(!rec.front_face);
    assert_eq!((rec.normal.x.raw, rec.normal.y.raw, rec.normal.z.raw), (0, 0, ONE));
}

#[test]
fn zero_radius_sphere_never_hits() {
    let s = Sphere::new(v3(0, 0, -3 * ONE), Fx::zero());
    let r = Ray::new(v3(0, 0, 0), v3(0, 0, -ONE));
    assert!(s.hit(&r, Interval::new(fx(65), fx(0x400000000000))).is_none());
}

#[test]
fn set_face_normal_orients_against_ray() {
    let r = Ray::new(v3(0, 0, 0), v3(0, 0, ONE));
    let outward = v3(0, 0, ONE);
    let mut rec = HitRecord::new(v3(0, 0, 0), outward, Fx::zero(), false);
    rec.set_face_normal(&r, outward);
    assert!(!rec.front_face);
    assert_eq!(rec.normal.z.raw, -ONE);
    let r2 = Ray::new(v3(0, 0, 0), v3(0, 0, -ONE));
    rec.set_face_normal(&r2, outward);
    assert!(rec.front_face);
    assert_eq!(rec.normal.z.raw, ONE);
}

#[test]
fn scene_returns_globally_closest_hit() {
    let mut world = HittableList::new();
    world.add(Hittable::Sphere(Sphere::new(v3(0, 0, -6 * ONE), fx(ONE))));
    world.add(Hittable::Sphere(Sphere::new(v3(0, 0, -3 * ONE), fx(ONE))));
    let r = Ray::new(v3(0, 0, 0), v3(0, 0, -ONE));
    let rec = world.hit(&r, Interval::new(fx(65), fx(0x400000000000))).unwrap();
    assert_eq!(rec.t.raw, 2 * ONE);

    let mut swapped = HittableList::new();
    swapped.add(Hittable::Sphere(Sphere::new(v3(0, 0, -3 * ONE), fx(ONE))));
    swapped.add(Hittable::Sphere(Sphere::new(v3(0, 0, -6 * ONE), fx(ONE))));
    let rec2 = swapped.hit(&r, Interval::new(fx(65), fx(0x400000000000))).unwrap();
    assert_eq!(rec2.t.raw, 2 * ONE);
}

#[test]
fn empty_scene_never_hits() {
    let world = HittableList::new();
    let r = Ray::new(v3(0, 0, 0), v3(0, 0, -ONE));
    assert!(world.hit(&r, Interval::new(fx(65), fx(0x400000000000))).is_none());
}

#[test]
fn cleared_scene_never_hits() {
    let mut world = HittableList::new();
    world.add(Hittable::Sphere(Sphere::new(v3(0, 0, -3 * ONE), fx(ONE))));
    world.clear();
    let r = Ray::new(v3(0, 0, 0), v3(0, 0, -ONE));
    assert!(world.hit(&r, Interval::new(fx(65), fx(0x400000000000))).is_none());
}
