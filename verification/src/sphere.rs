//! The one concrete primitive: analytic ray-sphere intersection by the
//! half-coefficient quadratic formula.

use vstd::prelude::*;
use crate::fixed::{Fx, fmul, fdiv, fsqrt, tdiv, lemma_fmul_in, lemma_fdiv_in};
use crate::hittable::{HitRecord, HitG, hitg_of};
use crate::interval::Interval;
use crate::ray::{Ray, ray_wf, at_x_spec, at_y_spec, at_z_spec};
use crate::vec3::{Point3, bounded};

verus! {

#[derive(Clone, Copy, PartialEq, Eq, Structural, Debug)]
pub struct Sphere {
    pub center: Point3,
    pub radius: Fx,
}

/// The magnitudes under which the intersection arithmetic stays within
/// the fixed-point range: the center inside the world box, the radius
/// nonnegative and modest.
pub open spec fn sphere_wf(s: Sphere) -> bool {
    &&& bounded(s.center, 0x400000000000)
    &&& 0 <= s.radius.v() <= 0x10000000
}

/// The record produced for a hit at parameter `root`: the point on the
/// ray, the outward normal scaled by the radius, and the face
/// orientation rule applied.
pub open spec fn sphere_record_spec(s: Sphere, r: Ray, root: int) -> HitG {
    let px = at_x_spec(r, root);
    let py = at_y_spec(r, root);
    let pz = at_z_spec(r, root);
    let nx = fdiv(px - s.center.x.v(), s.radius.v());
    let ny = fdiv(py - s.center.y.v(), s.radius.v());
    let nz = fdiv(pz - s.center.z.v(), s.radius.v());
    let dn = fmul(r.direction.x.v(), nx) + fmul(r.direction.y.v(), ny) + fmul(
        r.direction.z.v(),
        nz,
    );
    let front = dn < 0;
    HitG {
        px,
        py,
        pz,
        nx: if front {
            nx
        } else {
            -nx
        },
        ny: if front {
            ny
        } else {
            -ny
        },
        nz: if front {
            nz
        } else {
            -nz
        },
        t: root,
        front,
    }
}

/// The whole intersection test.  With `oc = center - origin`,
/// `a = d.d`, `h = d.oc` and `c = oc.oc - radius^2`, a hit exists where
/// the discriminant `h^2 - a c` is nonnegative and one of the two roots
/// `(h -+ sqrt(disc)) / a` lies strictly inside `(tmin, tmax)`; the
/// nearer root is preferred.  A zero radius or a degenerate direction
/// whose squared length truncates to zero yields no hit.
pub open spec fn sphere_hit_spec(s: Sphere, r: Ray, tmin: int, tmax: int) -> Option<HitG> {
    let ocx = s.center.x.v() - r.origin.x.v();
    let ocy = s.center.y.v() - r.origin.y.v();
    let ocz = s.center.z.v() - r.origin.z.v();
    let dx = r.direction.x.v();
    let dy = r.direction.y.v();
    let dz = r.direction.z.v();
    let a = fmul(dx, dx) + fmul(dy, dy) + fmul(dz, dz);
    let h = fmul(dx, ocx) + fmul(dy, ocy) + fmul(dz, ocz);
    let c = fmul(ocx, ocx) + fmul(ocy, ocy) + fmul(ocz, ocz) - fmul(s.radius.v(), s.radius.v());
    if s.radius.v() == 0 {
        Option::None
    } else if a == 0 {
        Option::None
    } else {
        let disc = fmul(h, h) - fmul(a, c);
        if disc < 0 {
            Option::None
        } else {
            let sq = fsqrt(disc);
            let r1 = fdiv(h - sq, a);
            let r2 = fdiv(h + sq, a);
            if tmin < r1 && r1 < tmax {
                Option::Some(sphere_record_spec(s, r, r1))
            } else if tmin < r2 && r2 < tmax {
                Option::Some(sphere_record_spec(s, r, r2))
            } else {
                Option::None
            }
        }
    }
}

/// The law of the backward sphere: where the center lies no further
/// along the ray's direction than the origin (`d . oc <= 0`) and the
/// origin is not inside the sphere (`oc . oc >= radius^2`), both roots
/// of the quadratic are nonpositive, so no forward interval sees a hit.
pub proof fn lemma_sphere_miss_behind(s: Sphere, r: Ray, tmin: int, tmax: int)
    requires
        0 <= tmin,
        ({
            let ocx = s.center.x.v() - r.origin.x.v();
            let ocy = s.center.y.v() - r.origin.y.v();
            let ocz = s.center.z.v() - r.origin.z.v();
            fmul(r.direction.x.v(), ocx) + fmul(r.direction.y.v(), ocy) + fmul(
                r.direction.z.v(),
                ocz,
            ) <= 0
        }),
        ({
            let ocx = s.center.x.v() - r.origin.x.v();
            let ocy = s.center.y.v() - r.origin.y.v();
            let ocz = s.center.z.v() - r.origin.z.v();
            fmul(ocx, ocx) + fmul(ocy, ocy) + fmul(ocz, ocz) - fmul(s.radius.v(), s.radius.v())
                >= 0
        }),
    ensures
        sphere_hit_spec(s, r, tmin, tmax) is None,
{
    let ocx = s.center.x.v() - r.origin.x.v();
    let ocy = s.center.y.v() - r.origin.y.v();
    let ocz = s.center.z.v() - r.origin.z.v();
    let dx = r.direction.x.v();
    let dy = r.direction.y.v();
    let dz = r.direction.z.v();
    let a = fmul(dx, dx) + fmul(dy, dy) + fmul(dz, dz);
    let h = fmul(dx, ocx) + fmul(dy, ocy) + fmul(dz, ocz);
    let c = fmul(ocx, ocx) + fmul(ocy, ocy) + fmul(ocz, ocz) - fmul(s.radius.v(), s.radius.v());
    crate::vec3::lemma_fmul_sq_nonneg(dx);
    crate::vec3::lemma_fmul_sq_nonneg(dy);
    crate::vec3::lemma_fmul_sq_nonneg(dz);
    if s.radius.v() != 0 && a != 0 {
        let disc = fmul(h, h) - fmul(a, c);
        if disc >= 0 {
            crate::fixed::lemma_fmul_nonneg(a, c);
            let sq = fsqrt(disc);
            crate::fixed::lemma_sqrt_exists(disc * 65536);
            assert(h * h >= 0) by (nonlinear_arith);
            assert(tdiv(h * h, 65536) * 65536 <= h * h) by (nonlinear_arith)
                requires
                    h * h >= 0,
            ;
            assert(sq <= -h) by (nonlinear_arith)
                requires
                    0 <= sq,
                    sq * sq <= disc * 65536,
                    disc * 65536 <= h * h,
                    h <= 0,
            ;
            lemma_root_nonpos(h - sq, a);
            lemma_root_nonpos(h + sq, a);
        }
    }
}

/// A quotient of a nonpositive numerator by a positive denominator
/// never lands past zero.
proof fn lemma_root_nonpos(n: int, a: int)
    requires
        n <= 0,
        a > 0,
    ensures
        fdiv(n, a) <= 0,
{
    if n * 65536 < 0 {
        assert(0 <= (-(n * 65536)) / a) by (nonlinear_arith)
            requires
                0 <= -(n * 65536),
                a > 0,
        ;
    }
}

impl Sphere {
    pub fn new(center: Point3, radius: Fx) -> (s: Sphere)
        ensures
            s.center == center,
            s.radius == radius,
    {
        Sphere { center, radius }
    }

    pub fn hit(&self, r: &Ray, ray_t: Interval) -> (res: Option<HitRecord>)
        requires
            sphere_wf(*self),
            ray_wf(*r),
            -0x400000000000 <= ray_t.min.v(),
            ray_t.max.v() <= 0x400000000000,
        ensures
            ({
                let g = sphere_hit_spec(*self, *r, ray_t.min.v(), ray_t.max.v());
                match res {
                    Option::Some(rec) => g == Option::Some(hitg_of(rec)) && ray_t.min.v()
                        < rec.t.v() < ray_t.max.v(),
                    Option::None => g is None,
                }
            }),
    {
        if self.radius.raw == 0 {
            return Option::None;
        }
        let oc = self.center.sub(r.origin);
        proof {
            lemma_fmul_in(r.direction.x.v(), r.direction.x.v(), 0x10000000, 0x10000000);
            lemma_fmul_in(r.direction.y.v(), r.direction.y.v(), 0x10000000, 0x10000000);
            lemma_fmul_in(r.direction.z.v(), r.direction.z.v(), 0x10000000, 0x10000000);
        }
        let a = r.direction.length_squared();
        if a.raw == 0 {
            return Option::None;
        }
        proof {
            lemma_fmul_in(r.direction.x.v(), oc.x.v(), 0x10000000, 0x800000000000);
            lemma_fmul_in(r.direction.y.v(), oc.y.v(), 0x10000000, 0x800000000000);
            lemma_fmul_in(r.direction.z.v(), oc.z.v(), 0x10000000, 0x800000000000);
        }
        let h = r.direction.dot(&oc);
        proof {
            lemma_fmul_in(oc.x.v(), oc.x.v(), 0x800000000000, 0x800000000000);
            lemma_fmul_in(oc.y.v(), oc.y.v(), 0x800000000000, 0x800000000000);
            lemma_fmul_in(oc.z.v(), oc.z.v(), 0x800000000000, 0x800000000000);
            lemma_fmul_in(self.radius.v(), self.radius.v(), 0x10000000, 0x10000000);
        }
        let c = oc.length_squared().sub(self.radius.mul(self.radius));
        proof {
            lemma_fmul_in(h.v(), h.v(), 0x2000000000000000, 0x2000000000000000);
            lemma_fmul_in(a.v(), c.v(), 0x40000000000, 0x100000000000000000000);
        }
        let disc = h.mul(h).sub(a.mul(c));
        if disc.raw < 0 {
            return Option::None;
        }
        let sqrtd = disc.sqrt();
        proof {
            assert(sqrtd.v() <= 0x8000000000000000) by (nonlinear_arith)
                requires
                    0 <= sqrtd.v(),
                    sqrtd.v() * sqrtd.v() <= disc.v() * 65536,
                    disc.v() <= 0x800000000000000000000000000,
            ;
        }
        let root1 = h.sub(sqrtd).div(a);
        let root = if ray_t.surrounds(root1) {
            root1
        } else {
            let root2 = h.add(sqrtd).div(a);
            if ray_t.surrounds(root2) {
                root2
            } else {
                return Option::None;
            }
        };
        proof {
            lemma_fmul_in(r.direction.x.v(), root.v(), 0x10000000, 0x400000000000);
            lemma_fmul_in(r.direction.y.v(), root.v(), 0x10000000, 0x400000000000);
            lemma_fmul_in(r.direction.z.v(), root.v(), 0x10000000, 0x400000000000);
        }
        let p = r.at(root);
        proof {
            lemma_fdiv_in(p.x.v() - self.center.x.v(), self.radius.v(), 0x2000000000000000);
            lemma_fdiv_in(p.y.v() - self.center.y.v(), self.radius.v(), 0x2000000000000000);
            lemma_fdiv_in(p.z.v() - self.center.z.v(), self.radius.v(), 0x2000000000000000);
        }
        let outward_normal = p.sub(self.center).div_scalar(self.radius);
        proof {
            lemma_fmul_in(
                r.direction.x.v(),
                outward_normal.x.v(),
                0x10000000,
                0x20000000000000000000,
            );
            lemma_fmul_in(
                r.direction.y.v(),
                outward_normal.y.v(),
                0x10000000,
                0x20000000000000000000,
            );
            lemma_fmul_in(
                r.direction.z.v(),
                outward_normal.z.v(),
                0x10000000,
                0x20000000000000000000,
            );
        }
        let mut rec = HitRecord::new(p, outward_normal, root, false);
        rec.set_face_normal(r, outward_normal);
        proof {
            assert(hitg_of(rec) == sphere_record_spec(*self, *r, root.v()));
        }
        Option::Some(rec)
    }
}

} // verus!
