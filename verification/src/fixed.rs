//! Q16.16 fixed-point scalars.
//!
//! Every geometric and color quantity in this crate is a real number
//! represented as `raw / 65536` for an `i128` numerator `raw`.  All
//! operations round toward zero, and every contract states the exact
//! numerator the operation produces.

use vstd::prelude::*;

verus! {

/// Quotient of `a / b` rounded toward zero, for a positive divisor `b`.
pub open spec fn tdiv(a: int, b: int) -> int {
    if a >= 0 {
        a / b
    } else {
        -((-a) / b)
    }
}

/// The numerator of the fixed-point product of two fixed-point numbers.
pub open spec fn fmul(a: int, b: int) -> int {
    tdiv(a * b, 65536)
}

/// The numerator of the fixed-point quotient `a / b` (positive divisor).
pub open spec fn fdiv(a: int, b: int) -> int {
    tdiv(a * 65536, b)
}

/// `r` is the integer square root of `x`: the greatest integer whose
/// square does not exceed `x`.
pub open spec fn is_sqrt(x: int, r: int) -> bool {
    0 <= r && r * r <= x && x < (r + 1) * (r + 1)
}

/// The integer square root of `x` (for `x >= 0`).
pub open spec fn sqrt_floor(x: int) -> int {
    choose|r: int| is_sqrt(x, r)
}

/// The numerator of the fixed-point square root of a fixed-point number.
pub open spec fn fsqrt(a: int) -> int {
    sqrt_floor(a * 65536)
}

pub proof fn lemma_sqrt_unique(x: int, r1: int, r2: int)
    by (nonlinear_arith)
    requires
        is_sqrt(x, r1),
        is_sqrt(x, r2),
    ensures
        r1 == r2,
{
}

/// Pins `sqrt_floor(x)` down once any witness is at hand.
pub proof fn lemma_sqrt_is(x: int, r: int)
    requires
        is_sqrt(x, r),
    ensures
        sqrt_floor(x) == r,
{
    assert(is_sqrt(x, sqrt_floor(x))) by {
        assert(exists|q: int| is_sqrt(x, q));
    }
    lemma_sqrt_unique(x, sqrt_floor(x), r);
}

/// Every nonnegative integer has an integer square root, so
/// `sqrt_floor` is characterized on all of them.
pub proof fn lemma_sqrt_exists(x: int)
    requires
        x >= 0,
    ensures
        is_sqrt(x, sqrt_floor(x)),
    decreases x,
{
    if x == 0 {
        assert(is_sqrt(0, 0));
        lemma_sqrt_is(0, 0);
    } else {
        lemma_sqrt_exists(x - 1);
        let r = sqrt_floor(x - 1);
        if (r + 1) * (r + 1) <= x {
            assert(is_sqrt(x, r + 1)) by (nonlinear_arith)
                requires
                    is_sqrt(x - 1, r),
                    (r + 1) * (r + 1) <= x,
            ;
            lemma_sqrt_is(x, r + 1);
        } else {
            assert(is_sqrt(x, r));
            lemma_sqrt_is(x, r);
        }
    }
}

/// A fixed-point number: the real value `raw / 65536`.
#[derive(Clone, Copy, PartialEq, Eq, Structural, Debug)]
pub struct Fx {
    pub raw: i128,
}

impl Fx {
    /// The numerator, as a mathematical integer.
    pub open spec fn v(self) -> int {
        self.raw as int
    }

    pub fn from_raw(raw: i128) -> (r: Fx)
        ensures
            r.v() == raw,
    {
        Fx { raw }
    }

    /// The fixed-point image of a whole number.
    pub fn from_int(units: i64) -> (r: Fx)
        ensures
            r.v() == units * 65536,
    {
        Fx { raw: (units as i128) * 65536 }
    }

    pub fn zero() -> (r: Fx)
        ensures
            r.v() == 0,
    {
        Fx { raw: 0 }
    }

    pub fn add(self, o: Fx) -> (r: Fx)
        requires
            -0x40000000000000000000000000000000 <= self.v() + o.v()
                <= 0x40000000000000000000000000000000,
        ensures
            r.v() == self.v() + o.v(),
    {
        Fx { raw: self.raw + o.raw }
    }

    pub fn sub(self, o: Fx) -> (r: Fx)
        requires
            -0x40000000000000000000000000000000 <= self.v() - o.v()
                <= 0x40000000000000000000000000000000,
        ensures
            r.v() == self.v() - o.v(),
    {
        Fx { raw: self.raw - o.raw }
    }

    pub fn neg(self) -> (r: Fx)
        requires
            -0x40000000000000000000000000000000 <= self.v()
                <= 0x40000000000000000000000000000000,
        ensures
            r.v() == -self.v(),
    {
        Fx { raw: -self.raw }
    }

    /// Fixed-point multiplication, rounding toward zero.
    pub fn mul(self, o: Fx) -> (r: Fx)
        requires
            -0x40000000000000000000000000000000 <= self.v() * o.v()
                <= 0x40000000000000000000000000000000,
        ensures
            r.v() == fmul(self.v(), o.v()),
    {
        let p: i128 = self.raw * o.raw;
        if p >= 0 {
            let q: u128 = (p as u128) / 65536;
            Fx { raw: q as i128 }
        } else {
            let q: u128 = ((-p) as u128) / 65536;
            Fx { raw: -(q as i128) }
        }
    }

    /// Fixed-point division by a nonzero divisor, rounding toward zero.
    /// A negative divisor divides as the negated magnitudes.
    pub fn div(self, o: Fx) -> (r: Fx)
        requires
            o.v() != 0,
            -0x40000000000000000000000000000000 <= o.v() <= 0x40000000000000000000000000000000,
            -0x4000000000000000000000000000 <= self.v() <= 0x4000000000000000000000000000,
        ensures
            o.v() > 0 ==> r.v() == fdiv(self.v(), o.v()),
            o.v() < 0 ==> r.v() == fdiv(-self.v(), -o.v()),
    {
        let n: i128 = self.raw * 65536;
        if o.raw > 0 {
            let d: u128 = o.raw as u128;
            if n >= 0 {
                let q: u128 = (n as u128) / d;
                Fx { raw: q as i128 }
            } else {
                let q: u128 = ((-n) as u128) / d;
                Fx { raw: -(q as i128) }
            }
        } else {
            let d: u128 = (-o.raw) as u128;
            if n >= 0 {
                let q: u128 = (n as u128) / d;
                Fx { raw: -(q as i128) }
            } else {
                let q: u128 = ((-n) as u128) / d;
                Fx { raw: q as i128 }
            }
        }
    }

    /// Fixed-point square root of a nonnegative number, rounded down.
    pub fn sqrt(self) -> (r: Fx)
        requires
            0 <= self.v() <= 0x3fffffffffffffffffffffffffff,
        ensures
            r.v() == fsqrt(self.v()),
            is_sqrt(self.v() * 65536, r.v()),
            r.v() >= 0,
    {
        let x: u128 = (self.raw as u128) * 65536;
        assert(x == self.v() * 65536);
        let q: u128 = isqrt_u128(x);
        assert(q < 0x10000000000000000) by (nonlinear_arith)
            requires
                is_sqrt(x as int, q as int),
                x < 0x40000000000000000000000000000000,
        ;
        proof {
            lemma_sqrt_is(self.v() * 65536, q as int);
        }
        Fx { raw: q as i128 }
    }

    pub fn lt(self, o: Fx) -> (r: bool)
        ensures
            r == (self.v() < o.v()),
    {
        self.raw < o.raw
    }

    pub fn le(self, o: Fx) -> (r: bool)
        ensures
            r == (self.v() <= o.v()),
    {
        self.raw <= o.raw
    }
}

/// Integer square root by bisection.
pub fn isqrt_u128(x: u128) -> (r: u128)
    requires
        x < 0x40000000000000000000000000000000,
    ensures
        is_sqrt(x as int, r as int),
{
    let mut lo: u128 = 0;
    let mut hi: u128 = 0x8000000000000000;
    assert((0x8000000000000000 as int) * (0x8000000000000000 as int)
        == 0x40000000000000000000000000000000) by (nonlinear_arith);
    while lo + 1 < hi
        invariant
            lo < hi,
            hi <= 0x8000000000000000,
            lo * lo <= x,
            (x as int) < (hi as int) * (hi as int),
        decreases hi - lo,
    {
        let mid: u128 = lo + (hi - lo) / 2;
        assert((mid as int) * (mid as int) < 0x80000000000000000000000000000000)
            by (nonlinear_arith)
            requires
                mid < 0x8000000000000001,
        ;
        if mid * mid <= x {
            lo = mid;
        } else {
            hi = mid;
        }
    }
    assert(hi == lo + 1);
    lo
}

/// The magnitude of a truncating product: `|fmul(a, b)| <= ma * mb / 65536`.
pub proof fn lemma_fmul_in(a: int, b: int, ma: int, mb: int)
    requires
        0 <= ma,
        0 <= mb,
        -ma <= a <= ma,
        -mb <= b <= mb,
    ensures
        -(ma * mb) <= a * b <= ma * mb,
        -((ma * mb) / 65536) <= fmul(a, b) <= (ma * mb) / 65536,
{
    assert(-(ma * mb) <= a * b <= ma * mb) by (nonlinear_arith)
        requires
            0 <= ma,
            0 <= mb,
            -ma <= a <= ma,
            -mb <= b <= mb,
    ;
    lemma_tdiv_in(a * b, ma * mb);
}

/// Truncating division by the scale keeps magnitudes: `|p| <= m` gives
/// `|tdiv(p, 65536)| <= m / 65536`.
pub proof fn lemma_tdiv_in(p: int, m: int)
    requires
        0 <= m,
        -m <= p <= m,
    ensures
        -(m / 65536) <= tdiv(p, 65536) <= m / 65536,
{
    if p >= 0 {
        lemma_div_ordered(p, m, 65536);
    } else {
        lemma_div_ordered(-p, m, 65536);
    }
}

/// A truncating product of nonnegative factors is nonnegative.
pub proof fn lemma_fmul_nonneg(a: int, b: int)
    requires
        0 <= a,
        0 <= b,
    ensures
        0 <= fmul(a, b),
{
    assert(0 <= a * b) by (nonlinear_arith)
        requires
            0 <= a,
            0 <= b,
    ;
}

/// Multiplying by the fixed-point one is exact.
pub proof fn lemma_fmul_one(k: int)
    ensures
        fmul(65536, k) == k,
{
    assert(65536 * k == k * 65536) by (nonlinear_arith);
    if k >= 0 {
        vstd::arithmetic::div_mod::lemma_div_multiples_vanish(k, 65536);
    } else {
        vstd::arithmetic::div_mod::lemma_div_multiples_vanish(-k, 65536);
        assert(-(65536 * k) == 65536 * (-k)) by (nonlinear_arith);
    }
}

/// The magnitude of a fixed-point quotient: dividing by at least one
/// never grows the scaled numerator.
pub proof fn lemma_fdiv_in(a: int, b: int, m: int)
    requires
        b >= 1,
        0 <= m,
        -m <= a <= m,
    ensures
        -(m * 65536) <= fdiv(a, b) <= m * 65536,
{
    let n = a * 65536;
    if n >= 0 {
        assert(0 <= n / b <= n) by (nonlinear_arith)
            requires
                n >= 0,
                b >= 1,
        ;
    } else {
        assert(0 <= (-n) / b <= -n) by (nonlinear_arith)
            requires
                -n >= 0,
                b >= 1,
        ;
    }
}

/// A fixed-point quotient of nonnegative by positive is nonnegative.
pub proof fn lemma_fdiv_nonneg(a: int, b: int)
    requires
        0 <= a,
        1 <= b,
    ensures
        0 <= fdiv(a, b),
{
    assert(0 <= (a * 65536) / b) by (nonlinear_arith)
        requires
            0 <= a * 65536,
            1 <= b,
    ;
}

/// Dividing by at least one whole unit keeps the magnitude: the
/// fixed-point quotient is no larger than the dividend.
pub proof fn lemma_fdiv_unit(a: int, b: int, m: int)
    requires
        b >= 65536,
        0 <= m,
        -m <= a <= m,
    ensures
        -m <= fdiv(a, b) <= m,
{
    let n = if a >= 0 {
        a * 65536
    } else {
        (-a) * 65536
    };
    assert(0 <= n <= m * 65536);
    vstd::arithmetic::div_mod::lemma_div_is_ordered_by_denominator(n, 65536, b);
    lemma_div_ordered(n, m * 65536, 65536);
    assert(m * 65536 == 65536 * m);
    vstd::arithmetic::div_mod::lemma_div_multiples_vanish(m, 65536);
}

/// Euclidean division by a positive constant is monotone.
pub proof fn lemma_div_ordered(a: int, b: int, d: int)
    by (nonlinear_arith)
    requires
        0 <= a <= b,
        d > 0,
    ensures
        0 <= a / d <= b / d,
{
}

} // verus!
