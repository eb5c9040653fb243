//! 3D vectors over fixed-point scalars: arithmetic, dot and cross
//! products, lengths, normalization, and the random constructors used by
//! the diffuse bounce.

use vstd::prelude::*;
use crate::fixed::{
    Fx, fmul, fdiv, fsqrt, is_sqrt, lemma_sqrt_is, lemma_fmul_in, lemma_fdiv_in, lemma_tdiv_in,
    lemma_div_ordered,
};
use crate::rng;

verus! {

#[derive(Clone, Copy, PartialEq, Eq, Structural, Debug)]
pub struct Vec3 {
    pub x: Fx,
    pub y: Fx,
    pub z: Fx,
}

/// Every component's numerator lies within `[-m, m]`.
pub open spec fn bounded(v: Vec3, m: int) -> bool {
    &&& -m <= v.x.v() <= m
    &&& -m <= v.y.v() <= m
    &&& -m <= v.z.v() <= m
}

/// The fixed-point dot product: componentwise truncating products, summed.
pub open spec fn dot_spec(a: Vec3, b: Vec3) -> int {
    fmul(a.x.v(), b.x.v()) + fmul(a.y.v(), b.y.v()) + fmul(a.z.v(), b.z.v())
}

pub open spec fn lsq_spec(v: Vec3) -> int {
    dot_spec(v, v)
}

pub open spec fn len_spec(v: Vec3) -> int {
    fsqrt(lsq_spec(v))
}

pub open spec fn cross_x_spec(a: Vec3, b: Vec3) -> int {
    fmul(a.y.v(), b.z.v()) - fmul(a.z.v(), b.y.v())
}

pub open spec fn cross_y_spec(a: Vec3, b: Vec3) -> int {
    fmul(a.z.v(), b.x.v()) - fmul(a.x.v(), b.z.v())
}

pub open spec fn cross_z_spec(a: Vec3, b: Vec3) -> int {
    fmul(a.x.v(), b.y.v()) - fmul(a.y.v(), b.x.v())
}

/// A truncating product of a square is never negative.
pub proof fn lemma_fmul_sq_nonneg(a: int)
    ensures
        fmul(a, a) >= 0,
{
    assert(a * a >= 0) by (nonlinear_arith);
}

/// Negating one factor negates the truncating product.
pub proof fn lemma_fmul_neg(a: int, b: int)
    ensures
        fmul(-a, b) == -fmul(a, b),
{
    assert((-a) * b == -(a * b)) by (nonlinear_arith);
}

/// Reversing both arguments of the dot product changes nothing.
pub proof fn lemma_dot_comm(a: Vec3, b: Vec3)
    ensures
        dot_spec(a, b) == dot_spec(b, a),
{
    assert(a.x.v() * b.x.v() == b.x.v() * a.x.v()) by (nonlinear_arith);
    assert(a.y.v() * b.y.v() == b.y.v() * a.y.v()) by (nonlinear_arith);
    assert(a.z.v() * b.z.v() == b.z.v() * a.z.v()) by (nonlinear_arith);
}

/// The cross product is antisymmetric, component by component.
pub proof fn lemma_cross_antisym(a: Vec3, b: Vec3)
    ensures
        cross_x_spec(a, b) == -cross_x_spec(b, a),
        cross_y_spec(a, b) == -cross_y_spec(b, a),
        cross_z_spec(a, b) == -cross_z_spec(b, a),
{
    assert(a.y.v() * b.z.v() == b.z.v() * a.y.v()) by (nonlinear_arith);
    assert(a.z.v() * b.y.v() == b.y.v() * a.z.v()) by (nonlinear_arith);
    assert(a.z.v() * b.x.v() == b.x.v() * a.z.v()) by (nonlinear_arith);
    assert(a.x.v() * b.z.v() == b.z.v() * a.x.v()) by (nonlinear_arith);
    assert(a.x.v() * b.y.v() == b.y.v() * a.x.v()) by (nonlinear_arith);
    assert(a.y.v() * b.x.v() == b.x.v() * a.y.v()) by (nonlinear_arith);
}

/// The squared length is the dot product of a vector with itself.
pub proof fn lemma_length_squared_is_dot(v: Vec3)
    ensures
        lsq_spec(v) == dot_spec(v, v),
{
}

/// `v` is the draw `d` from the unit cube, scaled to unit length.
pub open spec fn is_unitized(d: (int, int, int), v: Vec3) -> bool {
    let s = fmul(d.0, d.0) + fmul(d.1, d.1) + fmul(d.2, d.2);
    let l = fsqrt(s);
    &&& 0 <= d.0 < 65536
    &&& 0 <= d.1 < 65536
    &&& 0 <= d.2 < 65536
    &&& l > 0
    &&& v.x.v() == fdiv(d.0, l)
    &&& v.y.v() == fdiv(d.1, l)
    &&& v.z.v() == fdiv(d.2, l)
}

/// `v` is the draw `d` from the signed unit cube, scaled to unit length.
pub open spec fn is_unitized_signed(d: (int, int, int), v: Vec3) -> bool {
    let s = fmul(d.0, d.0) + fmul(d.1, d.1) + fmul(d.2, d.2);
    let l = fsqrt(s);
    &&& -65536 <= d.0 < 65536
    &&& -65536 <= d.1 < 65536
    &&& -65536 <= d.2 < 65536
    &&& l > 0
    &&& v.x.v() == fdiv(d.0, l)
    &&& v.y.v() == fdiv(d.1, l)
    &&& v.z.v() == fdiv(d.2, l)
}

/// `v` is the unit candidate of draw `d`, negated where its dot product
/// with `n` is negative, so that it lies in the hemisphere of `n`.
pub open spec fn hemisphere_of(d: (int, int, int), n: Vec3, v: Vec3) -> bool {
    let s = fmul(d.0, d.0) + fmul(d.1, d.1) + fmul(d.2, d.2);
    let l = fsqrt(s);
    let ux = fdiv(d.0, l);
    let uy = fdiv(d.1, l);
    let uz = fdiv(d.2, l);
    let dn = fmul(ux, n.x.v()) + fmul(uy, n.y.v()) + fmul(uz, n.z.v());
    &&& -65536 <= d.0 < 65536
    &&& -65536 <= d.1 < 65536
    &&& -65536 <= d.2 < 65536
    &&& l > 0
    &&& if dn < 0 {
        v.x.v() == -ux && v.y.v() == -uy && v.z.v() == -uz
    } else {
        v.x.v() == ux && v.y.v() == uy && v.z.v() == uz
    }
}

/// Scaling a nonnegative span by a fraction below one stays below the span.
proof fn lemma_unit_scale(s: int, u: int)
    requires
        0 <= s <= 0x40000000000,
        0 <= u < 65536,
    ensures
        0 <= fmul(s, u) <= s,
        s > 0 ==> fmul(s, u) < s,
{
    assert(0 <= s * u && s * u <= s * 65535) by (nonlinear_arith)
        requires
            0 <= s,
            0 <= u < 65536,
    ;
    lemma_div_ordered(s * u, s * 65535, 65536);
    if s > 0 {
        assert((s * 65535) / 65536 <= s - 1) by (nonlinear_arith)
            requires
                s >= 1,
        ;
    }
}

/// One uniform fixed-point draw from `[min, max)`; the range must not
/// be empty.
fn rand_between(min: Fx, max: Fx, rng: &mut rand::rngs::StdRng) -> (r: Fx)
    requires
        min.v() < max.v(),
        -0x10000000000 <= min.v(),
        max.v() <= 0x10000000000,
    ensures
        min.v() <= r.v() < max.v(),
{
    let span = max.sub(min);
    let u = rng::next_u16(rng);
    proof {
        lemma_unit_scale(span.v(), u as int);
    }
    let off = span.mul(Fx::from_raw(u as i128));
    min.add(off)
}

/// A unit-length scatter candidate: a vector of the cube `[-1, 1)^3`
/// normalized, redrawn while its truncated length vanishes or its
/// normalization leaves the two-unit box.  If the retry budget ever ran
/// out, a fixed cube corner would be normalized instead.
fn hemisphere_candidate(rng: &mut rand::rngs::StdRng) -> (w: Vec3)
    ensures
        bounded(w, 0x20000),
        exists|d: (int, int, int)| is_unitized_signed(d, w),
{
    let mut tries: u32 = 0;
    while tries < 1000000
        decreases 1000000 - tries,
    {
        let c = Vec3::random_in_range(Fx::from_int(-1), Fx::from_int(1), rng);
        let l = c.length();
        if l.raw > 0 {
            let w = c.to_unit_vector();
            if in_box(&w, 0x20000) {
                proof {
                    let d = (c.x.v(), c.y.v(), c.z.v());
                    assert(is_unitized_signed(d, w));
                }
                return w;
            }
        }
        tries = tries + 1;
    }
    let p = Vec3::new(Fx::from_raw(65535), Fx::zero(), Fx::zero());
    proof {
        assert(lsq_spec(p) == 65534);
        assert(is_sqrt(65534int * 65536, 65534));
        lemma_sqrt_is(65534int * 65536, 65534);
    }
    let u = p.to_unit_vector();
    proof {
        assert(is_unitized_signed((65535int, 0int, 0int), u));
    }
    u
}

/// Runtime test of the componentwise magnitude bound.
pub fn in_box(v: &Vec3, m: i128) -> (r: bool)
    requires
        m >= 0,
    ensures
        r == bounded(*v, m as int),
{
    -m <= v.x.raw && v.x.raw <= m && -m <= v.y.raw && v.y.raw <= m && -m <= v.z.raw
        && v.z.raw <= m
}

impl Vec3 {
    pub fn new(x: Fx, y: Fx, z: Fx) -> (r: Vec3)
        ensures
            r.x == x,
            r.y == y,
            r.z == z,
    {
        Vec3 { x, y, z }
    }

    pub fn x(&self) -> (r: Fx)
        ensures
            r == self.x,
    {
        self.x
    }

    pub fn y(&self) -> (r: Fx)
        ensures
            r == self.y,
    {
        self.y
    }

    pub fn z(&self) -> (r: Fx)
        ensures
            r == self.z,
    {
        self.z
    }

    pub fn add(self, v: Vec3) -> (r: Vec3)
        requires
            bounded(self, 0x20000000000000000000000000000000),
            bounded(v, 0x20000000000000000000000000000000),
        ensures
            r.x.v() == self.x.v() + v.x.v(),
            r.y.v() == self.y.v() + v.y.v(),
            r.z.v() == self.z.v() + v.z.v(),
    {
        Vec3 { x: self.x.add(v.x), y: self.y.add(v.y), z: self.z.add(v.z) }
    }

    pub fn sub(self, v: Vec3) -> (r: Vec3)
        requires
            bounded(self, 0x20000000000000000000000000000000),
            bounded(v, 0x20000000000000000000000000000000),
        ensures
            r.x.v() == self.x.v() - v.x.v(),
            r.y.v() == self.y.v() - v.y.v(),
            r.z.v() == self.z.v() - v.z.v(),
    {
        Vec3 { x: self.x.sub(v.x), y: self.y.sub(v.y), z: self.z.sub(v.z) }
    }

    pub fn neg(self) -> (r: Vec3)
        requires
            bounded(self, 0x20000000000000000000000000000000),
        ensures
            r.x.v() == -self.x.v(),
            r.y.v() == -self.y.v(),
            r.z.v() == -self.z.v(),
    {
        Vec3 { x: self.x.neg(), y: self.y.neg(), z: self.z.neg() }
    }

    /// Componentwise product.
    pub fn mul(self, v: Vec3) -> (r: Vec3)
        requires
            bounded(self, 0x40000000000000),
            bounded(v, 0x40000000000000),
        ensures
            r.x.v() == fmul(self.x.v(), v.x.v()),
            r.y.v() == fmul(self.y.v(), v.y.v()),
            r.z.v() == fmul(self.z.v(), v.z.v()),
    {
        proof {
            lemma_fmul_in(self.x.v(), v.x.v(), 0x40000000000000, 0x40000000000000);
            lemma_fmul_in(self.y.v(), v.y.v(), 0x40000000000000, 0x40000000000000);
            lemma_fmul_in(self.z.v(), v.z.v(), 0x40000000000000, 0x40000000000000);
        }
        Vec3 { x: self.x.mul(v.x), y: self.y.mul(v.y), z: self.z.mul(v.z) }
    }

    /// Scalar product.
    pub fn scale(self, t: Fx) -> (r: Vec3)
        requires
            bounded(self, 0x40000000000000),
            -0x40000000000000 <= t.v() <= 0x40000000000000,
        ensures
            r.x.v() == fmul(self.x.v(), t.v()),
            r.y.v() == fmul(self.y.v(), t.v()),
            r.z.v() == fmul(self.z.v(), t.v()),
    {
        proof {
            lemma_fmul_in(self.x.v(), t.v(), 0x40000000000000, 0x40000000000000);
            lemma_fmul_in(self.y.v(), t.v(), 0x40000000000000, 0x40000000000000);
            lemma_fmul_in(self.z.v(), t.v(), 0x40000000000000, 0x40000000000000);
        }
        Vec3 { x: self.x.mul(t), y: self.y.mul(t), z: self.z.mul(t) }
    }

    /// Scalar quotient, for a nonzero divisor.
    pub fn div_scalar(self, t: Fx) -> (r: Vec3)
        requires
            t.v() != 0,
            -0x40000000000000000000000000000000 <= t.v() <= 0x40000000000000000000000000000000,
            bounded(self, 0x4000000000000000000000000000),
        ensures
            t.v() > 0 ==> {
                &&& r.x.v() == fdiv(self.x.v(), t.v())
                &&& r.y.v() == fdiv(self.y.v(), t.v())
                &&& r.z.v() == fdiv(self.z.v(), t.v())
            },
            t.v() < 0 ==> {
                &&& r.x.v() == fdiv(-self.x.v(), -t.v())
                &&& r.y.v() == fdiv(-self.y.v(), -t.v())
                &&& r.z.v() == fdiv(-self.z.v(), -t.v())
            },
    {
        Vec3 { x: self.x.div(t), y: self.y.div(t), z: self.z.div(t) }
    }

    pub fn dot(&self, v: &Vec3) -> (r: Fx)
        requires
            -0x40000000000000000000000000000000 <= self.x.v() * v.x.v()
                <= 0x40000000000000000000000000000000,
            -0x40000000000000000000000000000000 <= self.y.v() * v.y.v()
                <= 0x40000000000000000000000000000000,
            -0x40000000000000000000000000000000 <= self.z.v() * v.z.v()
                <= 0x40000000000000000000000000000000,
        ensures
            r.v() == dot_spec(*self, *v),
    {
        let a = self.x.mul(v.x);
        let b = self.y.mul(v.y);
        let c = self.z.mul(v.z);
        proof {
            lemma_tdiv_in(self.x.v() * v.x.v(), 0x40000000000000000000000000000000);
            lemma_tdiv_in(self.y.v() * v.y.v(), 0x40000000000000000000000000000000);
            lemma_tdiv_in(self.z.v() * v.z.v(), 0x40000000000000000000000000000000);
        }
        a.add(b).add(c)
    }

    pub fn cross(&self, v: &Vec3) -> (r: Vec3)
        requires
            bounded(*self, 0x40000000000000),
            bounded(*v, 0x40000000000000),
        ensures
            r.x.v() == cross_x_spec(*self, *v),
            r.y.v() == cross_y_spec(*self, *v),
            r.z.v() == cross_z_spec(*self, *v),
    {
        proof {
            lemma_fmul_in(self.y.v(), v.z.v(), 0x40000000000000, 0x40000000000000);
            lemma_fmul_in(self.z.v(), v.y.v(), 0x40000000000000, 0x40000000000000);
            lemma_fmul_in(self.z.v(), v.x.v(), 0x40000000000000, 0x40000000000000);
            lemma_fmul_in(self.x.v(), v.z.v(), 0x40000000000000, 0x40000000000000);
            lemma_fmul_in(self.x.v(), v.y.v(), 0x40000000000000, 0x40000000000000);
            lemma_fmul_in(self.y.v(), v.x.v(), 0x40000000000000, 0x40000000000000);
        }
        Vec3::new(
            self.y.mul(v.z).sub(self.z.mul(v.y)),
            self.z.mul(v.x).sub(self.x.mul(v.z)),
            self.x.mul(v.y).sub(self.y.mul(v.x)),
        )
    }

    pub fn length_squared(&self) -> (r: Fx)
        requires
            bounded(*self, 0x8000000000000000),
        ensures
            r.v() == lsq_spec(*self),
            r.v() >= 0,
    {
        proof {
            lemma_fmul_in(self.x.v(), self.x.v(), 0x8000000000000000, 0x8000000000000000);
            lemma_fmul_in(self.y.v(), self.y.v(), 0x8000000000000000, 0x8000000000000000);
            lemma_fmul_in(self.z.v(), self.z.v(), 0x8000000000000000, 0x8000000000000000);
            lemma_fmul_sq_nonneg(self.x.v());
            lemma_fmul_sq_nonneg(self.y.v());
            lemma_fmul_sq_nonneg(self.z.v());
        }
        self.dot(self)
    }

    pub fn length(&self) -> (r: Fx)
        requires
            bounded(*self, 0x40000000000000),
        ensures
            r.v() == len_spec(*self),
            0 <= r.v() <= 0x100000000000000,
    {
        proof {
            lemma_fmul_in(self.x.v(), self.x.v(), 0x40000000000000, 0x40000000000000);
            lemma_fmul_in(self.y.v(), self.y.v(), 0x40000000000000, 0x40000000000000);
            lemma_fmul_in(self.z.v(), self.z.v(), 0x40000000000000, 0x40000000000000);
        }
        let r = self.length_squared().sqrt();
        assert(r.v() <= 0x100000000000000) by (nonlinear_arith)
            requires
                0 <= r.v(),
                r.v() * r.v() <= lsq_spec(*self) * 65536,
                lsq_spec(*self) <= 0x1000000000000000000000000,
        ;
        r
    }

    /// A vector with each component drawn uniformly from `[0, 1)`.
    pub fn random(rng: &mut rand::rngs::StdRng) -> (r: Vec3)
        ensures
            0 <= r.x.v() < 65536,
            0 <= r.y.v() < 65536,
            0 <= r.z.v() < 65536,
    {
        let a = rng::next_u16(rng);
        let b = rng::next_u16(rng);
        let c = rng::next_u16(rng);
        Vec3 {
            x: Fx::from_raw(a as i128),
            y: Fx::from_raw(b as i128),
            z: Fx::from_raw(c as i128),
        }
    }

    /// A vector with each component drawn uniformly from `[min, max)`.
    /// The range must not be empty: the underlying uniform sampler has
    /// nothing to draw from one.
    pub fn random_in_range(min: Fx, max: Fx, rng: &mut rand::rngs::StdRng) -> (r: Vec3)
        requires
            min.v() < max.v(),
            -0x10000000000 <= min.v(),
            max.v() <= 0x10000000000,
        ensures
            min.v() <= r.x.v() < max.v(),
            min.v() <= r.y.v() < max.v(),
            min.v() <= r.z.v() < max.v(),
    {
        let a = rand_between(min, max, rng);
        let b = rand_between(min, max, rng);
        let c = rand_between(min, max, rng);
        Vec3 { x: a, y: b, z: c }
    }

    /// Rejection sampling: random points of the unit cube until one falls
    /// inside the unit sphere.  The retry budget is far beyond what the
    /// acceptance rate can exhaust; if it ever ran out the origin, which
    /// lies inside every unit sphere, would be returned.
    pub fn random_in_unit_sphere(rng: &mut rand::rngs::StdRng) -> (r: Vec3)
        ensures
            0 <= r.x.v() < 65536,
            0 <= r.y.v() < 65536,
            0 <= r.z.v() < 65536,
            lsq_spec(r) < 65536,
    {
        let mut tries: u32 = 0;
        while tries < 1000000
            decreases 1000000 - tries,
        {
            let p = Vec3::random(rng);
            let s = p.length_squared();
            if s.raw < 65536 {
                return p;
            }
            tries = tries + 1;
        }
        let o = Vec3::new(Fx::zero(), Fx::zero(), Fx::zero());
        o
    }

    /// A random vector of the unit cube, scaled to unit length.  A draw
    /// whose squared length truncates to zero cannot be normalized and is
    /// redrawn; if the retry budget ever ran out, a fixed cube corner
    /// would be normalized instead.
    pub fn random_unit_vector(rng: &mut rand::rngs::StdRng) -> (r: Vec3)
        ensures
            exists|d: (int, int, int)| is_unitized(d, r),
            bounded(r, 0x100000000),
    {
        let mut tries: u32 = 0;
        while tries < 1000000
            decreases 1000000 - tries,
        {
            let p = Vec3::random(rng);
            let l = p.length();
            if l.raw > 0 {
                let u = p.to_unit_vector();
                proof {
                    let d = (p.x.v(), p.y.v(), p.z.v());
                    assert(is_unitized(d, u));
                    lemma_fdiv_in(p.x.v(), l.v(), 65536);
                    lemma_fdiv_in(p.y.v(), l.v(), 65536);
                    lemma_fdiv_in(p.z.v(), l.v(), 65536);
                }
                return u;
            }
            tries = tries + 1;
        }
        let p = Vec3::new(Fx::from_raw(65535), Fx::zero(), Fx::zero());
        proof {
            assert(lsq_spec(p) == 65534);
            assert(is_sqrt(65534int * 65536, 65534));
            lemma_sqrt_is(65534int * 65536, 65534);
        }
        let u = p.to_unit_vector();
        proof {
            assert(is_unitized((65535int, 0int, 0int), u));
            lemma_fdiv_in(p.x.v(), 65534, 65536);
            lemma_fdiv_in(p.y.v(), 65534, 65536);
            lemma_fdiv_in(p.z.v(), 65534, 65536);
        }
        u
    }

    /// A unit vector on the same side as `normal`: a random unit vector,
    /// negated when its dot product with `normal` is negative.
    pub fn random_on_hemisphere(normal: &Vec3, rng: &mut rand::rngs::StdRng) -> (r: Vec3)
        requires
            bounded(*normal, 0x10000000000000000000000000),
        ensures
            bounded(r, 0x20000),
            dot_spec(r, *normal) >= 0,
            exists|d: (int, int, int)| hemisphere_of(d, *normal, r),
    {
        let w = hemisphere_candidate(rng);
        let ghost dw = choose|d: (int, int, int)| is_unitized_signed(d, w);
        proof {
            lemma_fmul_in(w.x.v(), normal.x.v(), 0x20000, 0x10000000000000000000000000);
            lemma_fmul_in(w.y.v(), normal.y.v(), 0x20000, 0x10000000000000000000000000);
            lemma_fmul_in(w.z.v(), normal.z.v(), 0x20000, 0x10000000000000000000000000);
        }
        let d = w.dot(normal);
        if d.raw < 0 {
            let flipped = w.neg();
            proof {
                lemma_fmul_neg(w.x.v(), normal.x.v());
                lemma_fmul_neg(w.y.v(), normal.y.v());
                lemma_fmul_neg(w.z.v(), normal.z.v());
                assert(hemisphere_of(dw, *normal, flipped));
            }
            flipped
        } else {
            proof {
                assert(hemisphere_of(dw, *normal, w));
            }
            w
        }
    }

    /// The vector scaled to unit length (the length must not vanish).
    pub fn to_unit_vector(&self) -> (r: Vec3)
        requires
            bounded(*self, 0x40000000000000),
            len_spec(*self) > 0,
        ensures
            r.x.v() == fdiv(self.x.v(), len_spec(*self)),
            r.y.v() == fdiv(self.y.v(), len_spec(*self)),
            r.z.v() == fdiv(self.z.v(), len_spec(*self)),
    {
        let l = self.length();
        self.div_scalar(l)
    }
}

} // verus!

pub use Vec3 as Point3;
