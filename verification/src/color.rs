//! Linear-to-display color mapping: gamma correction by square root,
//! clamping, and quantization to 8-bit channels.

use vstd::prelude::*;
use crate::fixed::{
    Fx, fmul, fsqrt, tdiv, lemma_fmul_in, lemma_fmul_nonneg, lemma_tdiv_in, lemma_div_ordered,
};
use crate::interval::{Interval, clamp_spec};

verus! {

/// The quantization factor: the fixed-point image of `255.999`, chosen
/// so that a channel clamped below one never reaches 256.
pub const QUANT: i128 = 16777150;

/// One channel through the whole display mapping: gamma, clamp to
/// `[0, 0.999]`, scale by `255.999`, truncate to a whole number.
pub open spec fn quantize_spec(c: int) -> int {
    tdiv(fmul(clamp_spec(fsqrt(c), 0, 65470), 16777150), 65536)
}

/// The gamma-2 display transform: the square root of the linear value.
pub fn linear_to_gamma(linear_component: Fx) -> (r: Fx)
    requires
        0 <= linear_component.v() <= 0x10000000000,
    ensures
        r.v() == fsqrt(linear_component.v()),
        r.v() >= 0,
    {
    linear_component.sqrt()
}

/// A pixel's linear color to three 8-bit display channels.
pub fn write_color(pixel_colour: crate::vec3::Vec3) -> (rgb: (u8, u8, u8))
    requires
        0 <= pixel_colour.x.v() <= 0x10000000000,
        0 <= pixel_colour.y.v() <= 0x10000000000,
        0 <= pixel_colour.z.v() <= 0x10000000000,
    ensures
        rgb.0 == quantize_spec(pixel_colour.x.v()),
        rgb.1 == quantize_spec(pixel_colour.y.v()),
        rgb.2 == quantize_spec(pixel_colour.z.v()),
{
    let r = linear_to_gamma(pixel_colour.x);
    let g = linear_to_gamma(pixel_colour.y);
    let b = linear_to_gamma(pixel_colour.z);
    let intensity = Interval::new(Fx::zero(), Fx::from_raw(65470));
    let rbyte = quantize_channel(intensity.clamp(r));
    let gbyte = quantize_channel(intensity.clamp(g));
    let bbyte = quantize_channel(intensity.clamp(b));
    (rbyte, gbyte, bbyte)
}

/// A clamped gamma channel scaled by `255.999` and truncated; the clamp
/// keeps the result within one byte.
fn quantize_channel(c: Fx) -> (byte: u8)
    requires
        0 <= c.v() <= 65470,
    ensures
        byte == tdiv(fmul(c.v(), 16777150), 65536),
{
    proof {
        lemma_fmul_in(c.v(), 16777150, 65470, 16777150);
        lemma_fmul_nonneg(c.v(), 16777150);
    }
    let scaled = c.mul(Fx::from_raw(QUANT));
    proof {
        lemma_tdiv_in(scaled.v(), (65470int * 16777150) / 65536);
        lemma_div_ordered(scaled.v(), (65470int * 16777150) / 65536, 65536);
    }
    ((scaled.raw as u128) / 65536) as u8
}

} // verus!

pub use crate::vec3::Vec3 as Color;
