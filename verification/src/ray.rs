//! A ray: an origin point and a direction, evaluated at a parameter `t`
//! as `origin + t * direction`.

use vstd::prelude::*;
use crate::fixed::{Fx, fmul, lemma_fmul_in};
use crate::vec3::{Vec3, Point3, bounded};

verus! {

#[derive(Clone, Copy, PartialEq, Eq, Structural, Debug)]
pub struct Ray {
    pub origin: Point3,
    pub direction: Vec3,
}

/// The magnitudes under which every intersection computation on a ray
/// stays within the fixed-point range: origins within the world box,
/// directions within the viewport scale.
pub open spec fn ray_wf(r: Ray) -> bool {
    &&& bounded(r.origin, 0x400000000000)
    &&& bounded(r.direction, 0x10000000)
}

/// One component of `origin + t * direction`.
pub open spec fn at_x_spec(r: Ray, t: int) -> int {
    r.origin.x.v() + fmul(r.direction.x.v(), t)
}

pub open spec fn at_y_spec(r: Ray, t: int) -> int {
    r.origin.y.v() + fmul(r.direction.y.v(), t)
}

pub open spec fn at_z_spec(r: Ray, t: int) -> int {
    r.origin.z.v() + fmul(r.direction.z.v(), t)
}

impl Ray {
    pub fn new(origin: Point3, direction: Vec3) -> (r: Ray)
        ensures
            r.origin == origin,
            r.direction == direction,
    {
        Ray { origin, direction }
    }

    /// The point the ray reaches at parameter `t`.
    pub fn at(&self, t: Fx) -> (p: Point3)
        requires
            ray_wf(*self),
            -0x40000000000000 <= t.v() <= 0x40000000000000,
        ensures
            p.x.v() == at_x_spec(*self, t.v()),
            p.y.v() == at_y_spec(*self, t.v()),
            p.z.v() == at_z_spec(*self, t.v()),
    {
        proof {
            lemma_fmul_in(self.direction.x.v(), t.v(), 0x10000000, 0x40000000000000);
            lemma_fmul_in(self.direction.y.v(), t.v(), 0x10000000, 0x40000000000000);
            lemma_fmul_in(self.direction.z.v(), t.v(), 0x10000000, 0x40000000000000);
        }
        self.origin.add(self.direction.scale(t))
    }
}

} // verus!
