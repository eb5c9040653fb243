//! The outcome of an intersection test, and the capability every
//! traceable primitive offers: answering closest-hit queries over a
//! parameter interval.

use vstd::prelude::*;
use crate::fixed::Fx;
use crate::interval::Interval;
use crate::ray::{Ray, ray_wf};
use crate::sphere::{Sphere, sphere_wf, sphere_hit_spec};
use crate::vec3::{Vec3, Point3, bounded, dot_spec};

verus! {

/// The mathematical content of a hit record: every coordinate as a plain
/// integer numerator, for use in contracts.
pub ghost struct HitG {
    pub px: int,
    pub py: int,
    pub pz: int,
    pub nx: int,
    pub ny: int,
    pub nz: int,
    pub t: int,
    pub front: bool,
}

#[derive(Clone, Copy, PartialEq, Eq, Structural, Debug)]
pub struct HitRecord {
    pub p: Point3,
    pub normal: Vec3,
    pub t: Fx,
    pub front_face: bool,
}

/// The record's coordinates, gathered as a ghost value.
pub open spec fn hitg_of(rec: HitRecord) -> HitG {
    HitG {
        px: rec.p.x.v(),
        py: rec.p.y.v(),
        pz: rec.p.z.v(),
        nx: rec.normal.x.v(),
        ny: rec.normal.y.v(),
        nz: rec.normal.z.v(),
        t: rec.t.v(),
        front: rec.front_face,
    }
}

impl HitRecord {
    pub fn new(p: Point3, normal: Vec3, t: Fx, front_face: bool) -> (r: HitRecord)
        ensures
            r.p == p,
            r.normal == normal,
            r.t == t,
            r.front_face == front_face,
    {
        HitRecord { p, normal, t, front_face }
    }

    /// Orients the stored normal against the incoming ray: keeps the
    /// outward normal on a front-face hit, negates it otherwise.
    pub fn set_face_normal(&mut self, r: &Ray, outward_normal: Vec3)
        requires
            -0x40000000000000000000000000000000 <= r.direction.x.v() * outward_normal.x.v()
                <= 0x40000000000000000000000000000000,
            -0x40000000000000000000000000000000 <= r.direction.y.v() * outward_normal.y.v()
                <= 0x40000000000000000000000000000000,
            -0x40000000000000000000000000000000 <= r.direction.z.v() * outward_normal.z.v()
                <= 0x40000000000000000000000000000000,
            bounded(outward_normal, 0x20000000000000000000000000000000),
        ensures
            final(self).front_face == (dot_spec(r.direction, outward_normal) < 0),
            final(self).front_face ==> final(self).normal == outward_normal,
            !final(self).front_face ==> {
                &&& final(self).normal.x.v() == -outward_normal.x.v()
                &&& final(self).normal.y.v() == -outward_normal.y.v()
                &&& final(self).normal.z.v() == -outward_normal.z.v()
            },
            final(self).p == old(self).p,
            final(self).t == old(self).t,
    {
        let d = r.direction.dot(&outward_normal);
        self.front_face = d.raw < 0;
        self.normal = if self.front_face {
            outward_normal
        } else {
            outward_normal.neg()
        };
    }
}

/// A traceable primitive.  One variant so far; the scene aggregate and
/// the shading function see only this interface.
#[derive(Clone, Copy, PartialEq, Eq, Structural, Debug)]
pub enum Hittable {
    Sphere(Sphere),
}

/// The magnitudes under which a primitive's intersection arithmetic
/// stays within the fixed-point range.
pub open spec fn hittable_wf(h: Hittable) -> bool {
    match h {
        Hittable::Sphere(s) => sphere_wf(s),
    }
}

/// What `hit` answers, primitive by primitive.
pub open spec fn hittable_hit_spec(h: Hittable, r: Ray, tmin: int, tmax: int) -> Option<HitG> {
    match h {
        Hittable::Sphere(s) => sphere_hit_spec(s, r, tmin, tmax),
    }
}

impl Hittable {
    pub fn hit(&self, r: &Ray, ray_t: Interval) -> (res: Option<HitRecord>)
        requires
            hittable_wf(*self),
            ray_wf(*r),
            -0x400000000000 <= ray_t.min.v(),
            ray_t.max.v() <= 0x400000000000,
        ensures
            ({
                let g = hittable_hit_spec(*self, *r, ray_t.min.v(), ray_t.max.v());
                match res {
                    Option::Some(rec) => g == Option::Some(hitg_of(rec)) && ray_t.min.v()
                        < rec.t.v() < ray_t.max.v(),
                    Option::None => g is None,
                }
            }),
    {
        match self {
            Hittable::Sphere(s) => s.hit(r, ray_t),
        }
    }
}

} // verus!
