//! A numeric range for intersection parameter bounds and color clamping.

use vstd::prelude::*;
use crate::fixed::Fx;

verus! {

#[derive(Clone, Copy, PartialEq, Eq, Structural, Debug)]
pub struct Interval {
    pub min: Fx,
    pub max: Fx,
}

/// `x` pushed inside `[lo, hi]`.
pub open spec fn clamp_spec(x: int, lo: int, hi: int) -> int {
    if x < lo {
        lo
    } else if x > hi {
        hi
    } else {
        x
    }
}

impl Interval {
    pub fn new(min: Fx, max: Fx) -> (r: Interval)
        ensures
            r.min == min,
            r.max == max,
    {
        Interval { min, max }
    }

    pub fn size(&self) -> (r: Fx)
        requires
            -0x40000000000000000000000000000000 <= self.min.v() - self.max.v()
                <= 0x40000000000000000000000000000000,
        ensures
            r.v() == self.min.v() - self.max.v(),
    {
        self.min.sub(self.max)
    }

    /// Inclusive membership at both ends.
    pub fn contains(&self, x: Fx) -> (r: bool)
        ensures
            r == (self.min.v() <= x.v() <= self.max.v()),
    {
        self.min.le(x) && x.le(self.max)
    }

    /// Strict membership at both ends.
    pub fn surrounds(&self, x: Fx) -> (r: bool)
        ensures
            r == (self.min.v() < x.v() < self.max.v()),
    {
        self.min.lt(x) && x.lt(self.max)
    }

    /// `x` pushed inside the interval; the interval must be ordered.
    pub fn clamp(&self, x: Fx) -> (r: Fx)
        requires
            self.min.v() <= self.max.v(),
        ensures
            r.v() == clamp_spec(x.v(), self.min.v(), self.max.v()),
    {
        if x.lt(self.min) {
            self.min
        } else if self.max.lt(x) {
            self.max
        } else {
            x
        }
    }
}

} // verus!
