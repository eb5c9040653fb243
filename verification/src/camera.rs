//! The camera: viewport geometry derived once from the configuration,
//! jittered per-pixel ray generation, the recursive shading estimator,
//! and the render loop that hands each pixel through the color mapping.

use vstd::prelude::*;
use vstd::assert_seqs_equal;
use crate::color::{Color, write_color, quantize_spec};
use crate::fixed::{
    Fx, fmul, fdiv, tdiv, lemma_fmul_in, lemma_fdiv_in, lemma_fdiv_unit, lemma_fdiv_nonneg,
    lemma_fmul_nonneg, lemma_fmul_one, lemma_tdiv_in, lemma_div_ordered,
};
use crate::hittable::Hittable;
use crate::hittable_list::{HittableList, list_wf, list_hit_spec};
use crate::interval::{Interval, clamp_spec};
use crate::ray::{Ray, ray_wf};
use crate::sphere::Sphere;
use crate::vec3::{Vec3, Point3, bounded, in_box, len_spec};

verus! {

pub struct Camera {
    pub aspect_ratio: Fx,
    pub image_width: u64,
    pub samples_per_pixel: i32,
    pub pixel_samples_scale: Fx,
    pub max_depth: i32,
    pub center: Point3,
    pub image_height: u64,
    pub pixel00_loc: Point3,
    pub pixel_delta_u: Vec3,
    pub pixel_delta_v: Vec3,
}

/// The image height in pixels: the width over the aspect ratio, rounded
/// down, and at least one.
pub open spec fn height_px_spec(a: int, w: int) -> int {
    let h = tdiv(fdiv(w, a), 65536);
    if h < 1 {
        1
    } else {
        h
    }
}

/// The viewport width: the fixed viewport height of two units, scaled
/// by the real width-to-height pixel ratio.
pub open spec fn vw_spec(a: int, w: int) -> int {
    fmul(131072, fdiv(w, 65536 * height_px_spec(a, w)))
}

/// The horizontal pixel step across the viewport.
pub open spec fn du_x_spec(a: int, w: int) -> int {
    fdiv(vw_spec(a, w), w)
}

/// The vertical pixel step down the viewport (negative: row zero is the
/// top).
pub open spec fn dv_y_spec(a: int, w: int) -> int {
    fdiv(-131072, 65536 * height_px_spec(a, w))
}

/// The first pixel's anchor: the viewport's upper-left corner plus half
/// a pixel step on each axis.
pub open spec fn p00_x_spec(a: int, w: int) -> int {
    -fdiv(vw_spec(a, w), 131072) + fmul(du_x_spec(a, w), 32768)
}

pub open spec fn p00_y_spec(a: int, w: int) -> int {
    65536 + fmul(dv_y_spec(a, w), 32768)
}

/// The magnitudes under which ray generation and accumulation stay
/// within the fixed-point range, for any pixel of the image.
pub open spec fn camera_wf(c: Camera) -> bool {
    &&& 1 <= c.image_width <= 4096
    &&& 1 <= c.image_height <= 4096
    &&& 1 <= c.samples_per_pixel <= 1048576
    &&& 0 <= c.pixel_samples_scale.v() <= 65536
    &&& bounded(c.center, 0x2000000)
    &&& bounded(c.pixel00_loc, 0x4000000)
    &&& bounded(c.pixel_delta_u, 0x40000000000000)
    &&& bounded(c.pixel_delta_v, 0x40000000000000)
    &&& -0x4000000 <= c.pixel_delta_u.x.v() * (c.image_width as int) <= 0x4000000
    &&& -0x4000000 <= c.pixel_delta_u.y.v() * (c.image_width as int) <= 0x4000000
    &&& -0x4000000 <= c.pixel_delta_u.z.v() * (c.image_width as int) <= 0x4000000
    &&& -0x4000000 <= c.pixel_delta_v.x.v() * (c.image_height as int) <= 0x4000000
    &&& -0x4000000 <= c.pixel_delta_v.y.v() * (c.image_height as int) <= 0x4000000
    &&& -0x4000000 <= c.pixel_delta_v.z.v() * (c.image_height as int) <= 0x4000000
}

/// Runtime test that a pixel step times the pixel count stays inside
/// the per-axis budget.
fn delta_budget_ok(d: Fx, n: u64) -> (r: bool)
    requires
        -0x40000000000000 <= d.v() <= 0x40000000000000,
        n <= 4096,
    ensures
        r == (-0x4000000 <= d.v() * (n as int) <= 0x4000000),
{
    proof {
        assert(-0x40000000000000000 <= d.v() * (n as int) <= 0x40000000000000000)
            by (nonlinear_arith)
            requires
                -0x40000000000000 <= d.v() <= 0x40000000000000,
                0 <= (n as int) <= 4096,
        ;
    }
    let p: i128 = d.raw * (n as i128);
    -0x4000000 <= p && p <= 0x4000000
}

/// A pixel step scaled by any in-image pixel coordinate stays inside
/// the per-axis budget `bb`.
proof fn lemma_scaled_delta(d: int, t: int, w: int, bb: int)
    requires
        w >= 1,
        0 <= t <= w * 65536,
        0 <= bb,
        -bb <= d * w <= bb,
    ensures
        -bb <= fmul(d, t) <= bb,
{
    assert(-(bb * 65536) <= d * t <= bb * 65536) by (nonlinear_arith)
        requires
            w >= 1,
            0 <= t <= w * 65536,
            -bb <= d * w <= bb,
    ;
    lemma_tdiv_in(d * t, bb * 65536);
    assert(bb * 65536 == 65536 * bb);
    vstd::arithmetic::div_mod::lemma_div_multiples_vanish(bb, 65536);
}

/// `r` is the jittered ray of pixel `(i, j)` for the offsets
/// `(ox, oy)` inside the pixel's square: from the camera center through
/// `pixel00 + (i + ox) du + (j + oy) dv`.
pub open spec fn jittered_ray(c: Camera, i: int, j: int, ox: int, oy: int, r: Ray) -> bool {
    &&& 0 <= ox < 65536
    &&& 0 <= oy < 65536
    &&& r.origin == c.center
    &&& r.direction.x.v() == c.pixel00_loc.x.v() + fmul(c.pixel_delta_u.x.v(), i * 65536 + ox)
        + fmul(c.pixel_delta_v.x.v(), j * 65536 + oy) - c.center.x.v()
    &&& r.direction.y.v() == c.pixel00_loc.y.v() + fmul(c.pixel_delta_u.y.v(), i * 65536 + ox)
        + fmul(c.pixel_delta_v.y.v(), j * 65536 + oy) - c.center.y.v()
    &&& r.direction.z.v() == c.pixel00_loc.z.v() + fmul(c.pixel_delta_u.z.v(), i * 65536 + ox)
        + fmul(c.pixel_delta_v.z.v(), j * 65536 + oy) - c.center.z.v()
}

/// The blend parameter of the background gradient: half of one plus the
/// vertical component of the unit direction, held inside `[0, 1]`.  A
/// direction whose truncated length vanishes blends as if it pointed
/// level.
pub open spec fn bg_a_spec(r: Ray) -> int {
    let l = len_spec(r.direction);
    let uy = if l > 0 {
        fdiv(r.direction.y.v(), l)
    } else {
        0
    };
    clamp_spec(fmul(32768, uy + 65536), 0, 65536)
}

/// The background gradient, white to sky blue, channel by channel.
pub open spec fn bg_x_spec(r: Ray) -> int {
    let a = bg_a_spec(r);
    fmul(65536, 65536 - a) + fmul(32768, a)
}

pub open spec fn bg_y_spec(r: Ray) -> int {
    let a = bg_a_spec(r);
    fmul(65536, 65536 - a) + fmul(45875, a)
}

pub open spec fn bg_z_spec(r: Ray) -> int {
    let a = bg_a_spec(r);
    fmul(65536, 65536 - a) + fmul(65536, a)
}

/// A shaded hit is a tenth (truncated) of some bounced estimate `e`,
/// and an estimate taken with no bounce budget left is black.
pub open spec fn tenth_of_estimate(depth: int, e: (int, int, int), c: (int, int, int)) -> bool {
    &&& 0 <= e.0 <= 65536
    &&& 0 <= e.1 <= 65536
    &&& 0 <= e.2 <= 65536
    &&& depth == 0 ==> e.0 == 0 && e.1 == 0 && e.2 == 0
    &&& c.0 == fmul(e.0, 6553)
    &&& c.1 == fmul(e.1, 6553)
    &&& c.2 == fmul(e.2, 6553)
}

/// What the shading contract fixes of one sample, whatever the draws:
/// exhausted depth is black, a miss is the exact background, a hit is a
/// tenth of a bounced estimate.
pub open spec fn sample_outcome(objs: Seq<Hittable>, r: Ray, depth: int, e: (int, int, int)) -> bool {
    &&& 0 <= e.0 <= 65536
    &&& 0 <= e.1 <= 65536
    &&& 0 <= e.2 <= 65536
    &&& depth < 0 ==> e.0 == 0 && e.1 == 0 && e.2 == 0
    &&& depth >= 0 && list_hit_spec(objs, r, 65, 0x400000000000) is None ==> e.0 == bg_x_spec(r)
        && e.1 == bg_y_spec(r) && e.2 == bg_z_spec(r)
    &&& depth >= 0 && list_hit_spec(objs, r, 65, 0x400000000000) is Some ==> exists|b: (int, int, int)|
        tenth_of_estimate(depth, b, e)
}

/// One sample of pixel `(i, j)`: a shading outcome for some jittered
/// ray of that pixel, at the camera's bounce budget.
pub open spec fn pixel_sample_outcome(
    c: Camera,
    objs: Seq<Hittable>,
    i: int,
    j: int,
    e: (int, int, int),
) -> bool {
    exists|ox: int, oy: int, r: Ray|
        jittered_ray(c, i, j, ox, oy, r) && sample_outcome(objs, r, c.max_depth as int, e)
}

/// Componentwise sums of a sequence of sample colors.
pub open spec fn sum_x(s: Seq<(int, int, int)>) -> int
    decreases s.len(),
{
    if s.len() == 0 {
        0
    } else {
        sum_x(s.drop_last()) + s.last().0
    }
}

pub open spec fn sum_y(s: Seq<(int, int, int)>) -> int
    decreases s.len(),
{
    if s.len() == 0 {
        0
    } else {
        sum_y(s.drop_last()) + s.last().1
    }
}

pub open spec fn sum_z(s: Seq<(int, int, int)>) -> int
    decreases s.len(),
{
    if s.len() == 0 {
        0
    } else {
        sum_z(s.drop_last()) + s.last().2
    }
}

/// The account of pixel `k` for a particular sample sequence: one
/// shading outcome per configured sample, each for a jittered ray of
/// pixel `(k % width, k / width)`, and the stored bytes equal to the
/// display mapping of the scaled channel sums.
pub open spec fn pixel_account(
    c: Camera,
    objs: Seq<Hittable>,
    k: int,
    px: (u8, u8, u8),
    samples: Seq<(int, int, int)>,
) -> bool {
    let i = k % (c.image_width as int);
    let j = k / (c.image_width as int);
    &&& samples.len() == c.samples_per_pixel
    &&& (forall|t: int| 0 <= t < samples.len() ==> pixel_sample_outcome(
        c,
        objs,
        i,
        j,
        #[trigger] samples[t],
    ))
    &&& px.0 == quantize_spec(fmul(sum_x(samples), c.pixel_samples_scale.v()))
    &&& px.1 == quantize_spec(fmul(sum_y(samples), c.pixel_samples_scale.v()))
    &&& px.2 == quantize_spec(fmul(sum_z(samples), c.pixel_samples_scale.v()))
}

/// What the render loop owes pixel `k`: some sample sequence accounts
/// for its stored bytes.
pub open spec fn pixel_outcome(c: Camera, objs: Seq<Hittable>, k: int, px: (u8, u8, u8)) -> bool {
    exists|samples: Seq<(int, int, int)>| pixel_account(c, objs, k, px, samples)
}

impl Camera {
    /// The camera for an aspect ratio and an image width, with the
    /// sampling rate and bounce budget stated explicitly.
    pub fn with_samples(
        aspect_ratio: Fx,
        image_width: Fx,
        samples_per_pixel: i32,
        max_depth: i32,
    ) -> (c: Camera)
        requires
            0 < aspect_ratio.v() <= 0x1000000000000,
            65536 <= image_width.v() <= 0x10000000,
            1 <= samples_per_pixel <= 1048576,
        ensures
            c.aspect_ratio == aspect_ratio,
            c.samples_per_pixel == samples_per_pixel,
            c.max_depth == max_depth,
            c.image_width as int == tdiv(image_width.v(), 65536),
            c.image_height as int == height_px_spec(aspect_ratio.v(), image_width.v()),
            c.pixel_samples_scale.v() == fdiv(65536, 65536 * samples_per_pixel),
            c.center.x.v() == 0 && c.center.y.v() == 0 && c.center.z.v() == 0,
            c.pixel_delta_u.x.v() == du_x_spec(aspect_ratio.v(), image_width.v()),
            c.pixel_delta_u.y.v() == 0 && c.pixel_delta_u.z.v() == 0,
            c.pixel_delta_v.y.v() == dv_y_spec(aspect_ratio.v(), image_width.v()),
            c.pixel_delta_v.x.v() == 0 && c.pixel_delta_v.z.v() == 0,
            c.pixel00_loc.x.v() == p00_x_spec(aspect_ratio.v(), image_width.v()),
            c.pixel00_loc.y.v() == p00_y_spec(aspect_ratio.v(), image_width.v()),
            c.pixel00_loc.z.v() == -65536,
    {
        proof {
            lemma_fdiv_in(image_width.v(), aspect_ratio.v(), 0x10000000);
            lemma_fdiv_nonneg(image_width.v(), aspect_ratio.v());
        }
        let hq = image_width.div(aspect_ratio);
        let h_units: u64 = ((hq.raw as u128) / 65536) as u64;
        let image_height: u64 = if h_units < 1 {
            1
        } else {
            h_units
        };
        let w_px: u64 = ((image_width.raw as u128) / 65536) as u64;
        let pixel_samples_scale = Fx::from_int(1).div(Fx::from_int(samples_per_pixel as i64));
        let viewport_height = Fx::from_int(2);
        let h_fx = Fx::from_int(image_height as i64);
        proof {
            lemma_fdiv_in(image_width.v(), h_fx.v(), 0x10000000);
        }
        let ratio = image_width.div(h_fx);
        proof {
            lemma_fmul_in(131072, ratio.v(), 131072, 0x100000000000);
        }
        let viewport_width = viewport_height.mul(ratio);
        let center = Vec3::new(Fx::zero(), Fx::zero(), Fx::zero());
        let viewport_u = Vec3::new(viewport_width, Fx::zero(), Fx::zero());
        let viewport_v = Vec3::new(Fx::zero(), Fx::from_raw(-131072), Fx::zero());
        proof {
            lemma_fdiv_unit(viewport_width.v(), image_width.v(), 0x200000000000);
            lemma_fdiv_unit(0, image_width.v(), 0);
            lemma_fdiv_unit(0, h_fx.v(), 0);
            lemma_fdiv_unit(-131072, h_fx.v(), 131072);
        }
        let pixel_delta_u = viewport_u.div_scalar(image_width);
        let pixel_delta_v = viewport_v.div_scalar(h_fx);
        proof {
            lemma_fdiv_unit(viewport_width.v(), 131072, 0x200000000000);
            lemma_fdiv_unit(0, 131072, 0);
            lemma_fdiv_unit(-131072, 131072, 131072);
        }
        let half_u = viewport_u.div_scalar(Fx::from_int(2));
        let half_v = viewport_v.div_scalar(Fx::from_int(2));
        let viewport_upper_left = center.sub(Vec3::new(Fx::zero(), Fx::zero(), Fx::from_int(1)))
            .sub(half_u).sub(half_v);
        proof {
            lemma_fmul_in(
                pixel_delta_u.x.v() + pixel_delta_v.x.v(),
                32768,
                0x400000000000,
                32768,
            );
            lemma_fmul_in(
                pixel_delta_u.y.v() + pixel_delta_v.y.v(),
                32768,
                0x400000000000,
                32768,
            );
            lemma_fmul_in(
                pixel_delta_u.z.v() + pixel_delta_v.z.v(),
                32768,
                0x400000000000,
                32768,
            );
        }
        let pixel00_loc = viewport_upper_left.add(
            pixel_delta_u.add(pixel_delta_v).scale(Fx::from_raw(32768)),
        );
        Camera {
            aspect_ratio,
            image_width: w_px,
            samples_per_pixel,
            pixel_samples_scale,
            max_depth,
            center,
            image_height,
            pixel00_loc,
            pixel_delta_u,
            pixel_delta_v,
        }
    }

    /// The camera with the default sampling rate and bounce budget.
    pub fn new(aspect_ratio: Fx, image_width: Fx) -> (c: Camera)
        requires
            0 < aspect_ratio.v() <= 0x1000000000000,
            65536 <= image_width.v() <= 0x10000000,
        ensures
            c.aspect_ratio == aspect_ratio,
            c.samples_per_pixel == 100,
            c.max_depth == 10,
            c.image_width as int == tdiv(image_width.v(), 65536),
            c.image_height as int == height_px_spec(aspect_ratio.v(), image_width.v()),
            c.pixel_samples_scale.v() == fdiv(65536, 65536int * 100),
            c.center.x.v() == 0 && c.center.y.v() == 0 && c.center.z.v() == 0,
            c.pixel_delta_u.x.v() == du_x_spec(aspect_ratio.v(), image_width.v()),
            c.pixel_delta_u.y.v() == 0 && c.pixel_delta_u.z.v() == 0,
            c.pixel_delta_v.y.v() == dv_y_spec(aspect_ratio.v(), image_width.v()),
            c.pixel_delta_v.x.v() == 0 && c.pixel_delta_v.z.v() == 0,
            c.pixel00_loc.x.v() == p00_x_spec(aspect_ratio.v(), image_width.v()),
            c.pixel00_loc.y.v() == p00_y_spec(aspect_ratio.v(), image_width.v()),
            c.pixel00_loc.z.v() == -65536,
    {
        Self::with_samples(aspect_ratio, image_width, 100, 10)
    }

    /// Runtime test of the render preconditions on a built camera.
    pub fn is_well_formed(&self) -> (r: bool)
        ensures
            r == camera_wf(*self),
    {
        if !(1 <= self.image_width && self.image_width <= 4096) {
            return false;
        }
        if !(1 <= self.image_height && self.image_height <= 4096) {
            return false;
        }
        if !(1 <= self.samples_per_pixel && self.samples_per_pixel <= 1048576) {
            return false;
        }
        if !(0 <= self.pixel_samples_scale.raw && self.pixel_samples_scale.raw <= 65536) {
            return false;
        }
        if !in_box(&self.center, 0x2000000) {
            return false;
        }
        if !in_box(&self.pixel00_loc, 0x4000000) {
            return false;
        }
        if !in_box(&self.pixel_delta_u, 0x40000000000000) {
            return false;
        }
        if !in_box(&self.pixel_delta_v, 0x40000000000000) {
            return false;
        }
        delta_budget_ok(self.pixel_delta_u.x, self.image_width) && delta_budget_ok(
            self.pixel_delta_u.y,
            self.image_width,
        ) && delta_budget_ok(self.pixel_delta_u.z, self.image_width) && delta_budget_ok(
            self.pixel_delta_v.x,
            self.image_height,
        ) && delta_budget_ok(self.pixel_delta_v.y, self.image_height) && delta_budget_ok(
            self.pixel_delta_v.z,
            self.image_height,
        )
    }

    /// A uniform offset inside a pixel's square footprint.
    fn sample_square(rng: &mut rand::rngs::StdRng) -> (v: Vec3)
        ensures
            0 <= v.x.v() < 65536,
            0 <= v.y.v() < 65536,
            v.z.v() == 0,
    {
        let a = crate::rng::next_u16(rng);
        let b = crate::rng::next_u16(rng);
        Vec3::new(Fx::from_raw(a as i128), Fx::from_raw(b as i128), Fx::zero())
    }

    /// A jittered ray from the camera center through pixel `(i, j)`.
    fn get_ray(&self, i: u64, j: u64, rng: &mut rand::rngs::StdRng) -> (r: Ray)
        requires
            camera_wf(*self),
            i < self.image_width,
            j < self.image_height,
        ensures
            ray_wf(r),
            r.origin == self.center,
            exists|ox: int, oy: int| jittered_ray(*self, i as int, j as int, ox, oy, r),
    {
        let offset = Self::sample_square(rng);
        let ti = Fx::from_raw((i as i128) * 65536).add(offset.x);
        let tj = Fx::from_raw((j as i128) * 65536).add(offset.y);
        proof {
            lemma_scaled_delta(
                self.pixel_delta_u.x.v(),
                ti.v(),
                self.image_width as int,
                0x4000000,
            );
            lemma_scaled_delta(
                self.pixel_delta_u.y.v(),
                ti.v(),
                self.image_width as int,
                0x4000000,
            );
            lemma_scaled_delta(
                self.pixel_delta_u.z.v(),
                ti.v(),
                self.image_width as int,
                0x4000000,
            );
            lemma_scaled_delta(
                self.pixel_delta_v.x.v(),
                tj.v(),
                self.image_height as int,
                0x4000000,
            );
            lemma_scaled_delta(
                self.pixel_delta_v.y.v(),
                tj.v(),
                self.image_height as int,
                0x4000000,
            );
            lemma_scaled_delta(
                self.pixel_delta_v.z.v(),
                tj.v(),
                self.image_height as int,
                0x4000000,
            );
        }
        let su = self.pixel_delta_u.scale(ti);
        let sv = self.pixel_delta_v.scale(tj);
        let pixel_sample = self.pixel00_loc.add(su).add(sv);
        let ray_origin = self.center;
        let ray_direction = pixel_sample.sub(ray_origin);
        let r = Ray::new(ray_origin, ray_direction);
        proof {
            assert(jittered_ray(*self, i as int, j as int, offset.x.v(), offset.y.v(), r));
        }
        r
    }

    /// The recursive radiance estimator.  An exhausted depth budget is
    /// exactly black; a miss is exactly the background gradient; a hit
    /// scatters a new ray and keeps a tenth of what it brings back.
    /// Every channel stays inside `[0, 1]`.
    pub fn ray_color(
        r: &Ray,
        depth: i32,
        world: &HittableList,
        rng: &mut rand::rngs::StdRng,
    ) -> (c: Color)
        requires
            ray_wf(*r),
            list_wf(world.objects@),
        ensures
            0 <= c.x.v() <= 65536,
            0 <= c.y.v() <= 65536,
            0 <= c.z.v() <= 65536,
            depth < 0 ==> c.x.v() == 0 && c.y.v() == 0 && c.z.v() == 0,
            depth >= 0 && list_hit_spec(world.objects@, *r, 65, 0x400000000000) is None ==> {
                &&& c.x.v() == bg_x_spec(*r)
                &&& c.y.v() == bg_y_spec(*r)
                &&& c.z.v() == bg_z_spec(*r)
            },
            depth >= 0 && list_hit_spec(world.objects@, *r, 65, 0x400000000000) is Some ==> {
                &&& c.x.v() <= 6553
                &&& c.y.v() <= 6553
                &&& c.z.v() <= 6553
            },
            depth >= 0 && list_hit_spec(world.objects@, *r, 65, 0x400000000000) is Some
                ==> exists|e: (int, int, int)| tenth_of_estimate(
                depth as int,
                e,
                (c.x.v(), c.y.v(), c.z.v()),
            ),
        decreases depth + 1,
    {
        if depth < 0 {
            return Vec3::new(Fx::zero(), Fx::zero(), Fx::zero());
        }
        let probe = world.hit(r, Interval::new(Fx::from_raw(65), Fx::from_raw(0x400000000000)));
        match probe {
            Option::Some(rec) => {
                // Any scene the contracts admit keeps the record inside
                // these boxes; the checks keep the estimator total.
                if in_box(&rec.normal, 0x10000000000000000000000000) && in_box(
                    &rec.p,
                    0x400000000000,
                ) {
                    let direction = Vec3::random_on_hemisphere(&rec.normal, rng).add(
                        Vec3::random_unit_vector(rng),
                    );
                    if in_box(&direction, 0x10000000) {
                        let scattered = Ray::new(rec.p, direction);
                        let inner = Self::ray_color(&scattered, depth - 1, world, rng);
                        proof {
                            lemma_fmul_in(inner.x.v(), 6553, 65536, 6553);
                            lemma_fmul_in(inner.y.v(), 6553, 65536, 6553);
                            lemma_fmul_in(inner.z.v(), 6553, 65536, 6553);
                            lemma_fmul_nonneg(inner.x.v(), 6553);
                            lemma_fmul_nonneg(inner.y.v(), 6553);
                            lemma_fmul_nonneg(inner.z.v(), 6553);
                        }
                        let shaded = inner.scale(Fx::from_raw(6553));
                        proof {
                            assert(tenth_of_estimate(
                                depth as int,
                                (inner.x.v(), inner.y.v(), inner.z.v()),
                                (shaded.x.v(), shaded.y.v(), shaded.z.v()),
                            ));
                        }
                        shaded
                    } else {
                        let dark = Vec3::new(Fx::zero(), Fx::zero(), Fx::zero());
                        proof {
                            assert(tenth_of_estimate(
                                depth as int,
                                (0int, 0int, 0int),
                                (dark.x.v(), dark.y.v(), dark.z.v()),
                            ));
                        }
                        dark
                    }
                } else {
                    let dark = Vec3::new(Fx::zero(), Fx::zero(), Fx::zero());
                    proof {
                        assert(tenth_of_estimate(
                            depth as int,
                            (0int, 0int, 0int),
                            (dark.x.v(), dark.y.v(), dark.z.v()),
                        ));
                    }
                    dark
                }
            },
            Option::None => {
                let l = r.direction.length();
                let unit_direction = if l.raw > 0 {
                    proof {
                        lemma_fdiv_in(r.direction.x.v(), len_spec(r.direction), 0x10000000);
                        lemma_fdiv_in(r.direction.y.v(), len_spec(r.direction), 0x10000000);
                        lemma_fdiv_in(r.direction.z.v(), len_spec(r.direction), 0x10000000);
                    }
                    r.direction.to_unit_vector()
                } else {
                    Vec3::new(Fx::zero(), Fx::zero(), Fx::zero())
                };
                proof {
                    lemma_fmul_in(32768, unit_direction.y.v() + 65536, 32768, 0x200000000000);
                }
                let a0 = Fx::from_raw(32768).mul(unit_direction.y.add(Fx::from_raw(65536)));
                let a = Interval::new(Fx::zero(), Fx::from_raw(65536)).clamp(a0);
                let one_minus = Fx::from_raw(65536).sub(a);
                let white = Vec3::new(Fx::from_raw(65536), Fx::from_raw(65536), Fx::from_raw(65536));
                let blue = Vec3::new(Fx::from_raw(32768), Fx::from_raw(45875), Fx::from_raw(65536));
                proof {
                    lemma_fmul_one(one_minus.v());
                    lemma_fmul_one(a.v());
                    lemma_blend_term(32768, a.v());
                    lemma_blend_term(45875, a.v());
                    lemma_blend_term(65536, a.v());
                }
                white.scale(one_minus).add(blue.scale(a))
            },
        }
    }

    /// Renders the scene: row-major pixels, top to bottom, left to
    /// right, each the average of the configured number of jittered
    /// samples, mapped to display channels.
    pub fn render(
        &self,
        world: &HittableList,
        rng: &mut rand::rngs::StdRng,
    ) -> (pixels: Vec<(u8, u8, u8)>)
        requires
            camera_wf(*self),
            list_wf(world.objects@),
        ensures
            pixels@.len() == (self.image_height as int) * (self.image_width as int),
            forall|k: int| 0 <= k < pixels@.len() ==> pixel_outcome(
                *self,
                world.objects@,
                k,
                #[trigger] pixels@[k],
            ),
    {
        let mut pixels: Vec<(u8, u8, u8)> = Vec::new();
        let w = self.image_width;
        let h = self.image_height;
        let spp = self.samples_per_pixel;
        let mut j: u64 = 0;
        while j < h
            invariant
                camera_wf(*self),
                list_wf(world.objects@),
                w == self.image_width,
                h == self.image_height,
                spp == self.samples_per_pixel,
                j <= h,
                pixels@.len() == j * w,
                forall|k: int| 0 <= k < pixels@.len() ==> pixel_outcome(
                    *self,
                    world.objects@,
                    k,
                    #[trigger] pixels@[k],
                ),
            decreases h - j,
        {
            let mut i: u64 = 0;
            while i < w
                invariant
                    camera_wf(*self),
                    list_wf(world.objects@),
                    w == self.image_width,
                    h == self.image_height,
                    spp == self.samples_per_pixel,
                    j < h,
                    i <= w,
                    pixels@.len() == j * w + i,
                    forall|k: int| 0 <= k < pixels@.len() ==> pixel_outcome(
                        *self,
                        world.objects@,
                        k,
                        #[trigger] pixels@[k],
                    ),
                decreases w - i,
            {
                let mut pixel_color = Vec3::new(Fx::zero(), Fx::zero(), Fx::zero());
                let ghost mut samples: Seq<(int, int, int)> = Seq::empty();
                let mut s: i32 = 0;
                while s < spp
                    invariant
                        camera_wf(*self),
                        list_wf(world.objects@),
                        w == self.image_width,
                        h == self.image_height,
                        spp == self.samples_per_pixel,
                        j < h,
                        i < w,
                        0 <= s <= spp,
                        0 <= pixel_color.x.v() <= s * 65536,
                        0 <= pixel_color.y.v() <= s * 65536,
                        0 <= pixel_color.z.v() <= s * 65536,
                        samples.len() == s as int,
                        pixel_color.x.v() == sum_x(samples),
                        pixel_color.y.v() == sum_y(samples),
                        pixel_color.z.v() == sum_z(samples),
                        forall|t: int| 0 <= t < samples.len() ==> pixel_sample_outcome(
                            *self,
                            world.objects@,
                            i as int,
                            j as int,
                            #[trigger] samples[t],
                        ),
                    decreases spp - s,
                {
                    let ray = self.get_ray(i, j, rng);
                    let sample = Self::ray_color(&ray, self.max_depth, world, rng);
                    proof {
                        let e = (sample.x.v(), sample.y.v(), sample.z.v());
                        assert(sample_outcome(world.objects@, ray, self.max_depth as int, e));
                        assert(pixel_sample_outcome(*self, world.objects@, i as int, j as int, e));
                        let prev = samples;
                        samples = samples.push(e);
                        assert_seqs_equal!(samples.drop_last() == prev);
                        assert(samples.last() == e);
                        assert(sum_x(samples) == sum_x(prev) + e.0);
                        assert(sum_y(samples) == sum_y(prev) + e.1);
                        assert(sum_z(samples) == sum_z(prev) + e.2);
                        assert(forall|t: int| 0 <= t < prev.len() ==> samples[t] == prev[t]);
                    }
                    pixel_color = pixel_color.add(sample);
                    s = s + 1;
                }
                proof {
                    lemma_fmul_in(pixel_color.x.v(), self.pixel_samples_scale.v(), 0x10000000000, 65536);
                    lemma_fmul_in(pixel_color.y.v(), self.pixel_samples_scale.v(), 0x10000000000, 65536);
                    lemma_fmul_in(pixel_color.z.v(), self.pixel_samples_scale.v(), 0x10000000000, 65536);
                    lemma_fmul_nonneg(pixel_color.x.v(), self.pixel_samples_scale.v());
                    lemma_fmul_nonneg(pixel_color.y.v(), self.pixel_samples_scale.v());
                    lemma_fmul_nonneg(pixel_color.z.v(), self.pixel_samples_scale.v());
                }
                let scaled = pixel_color.scale(self.pixel_samples_scale);
                let rgb = write_color(scaled);
                proof {
                    let k = (j as int) * (w as int) + (i as int);
                    vstd::arithmetic::div_mod::lemma_fundamental_div_mod_converse_div(
                        k,
                        w as int,
                        j as int,
                        i as int,
                    );
                    vstd::arithmetic::div_mod::lemma_fundamental_div_mod_converse_mod(
                        k,
                        w as int,
                        j as int,
                        i as int,
                    );
                    assert(pixel_account(*self, world.objects@, k, rgb, samples));
                    assert(pixel_outcome(*self, world.objects@, k, rgb));
                }
                pixels.push(rgb);
                i = i + 1;
            }
            proof {
                assert((j + 1) * w == j * w + w) by (nonlinear_arith);
            }
            j = j + 1;
        }
        pixels
    }
}

/// A blend term of the background gradient stays under the blend
/// parameter: `fmul(c, a) <= a` for a channel `c` of at most one.
proof fn lemma_blend_term(c: int, a: int)
    requires
        0 <= c <= 65536,
        0 <= a <= 65536,
    ensures
        0 <= fmul(c, a) <= a,
{
    assert(0 <= c * a <= 65536 * a) by (nonlinear_arith)
        requires
            0 <= c <= 65536,
            0 <= a,
    ;
    lemma_div_ordered(c * a, 65536 * a, 65536);
    vstd::arithmetic::div_mod::lemma_div_multiples_vanish(a, 65536);
}

/// The scene the default entry point renders: a half-unit sphere ahead
/// of the camera over a hundred-unit ground sphere.
pub open spec fn default_scene() -> Seq<Hittable> {
    seq![
        Hittable::Sphere(
            Sphere {
                center: Vec3 { x: Fx { raw: 0 }, y: Fx { raw: 0 }, z: Fx { raw: -65536i128 } },
                radius: Fx { raw: 32768 },
            },
        ),
        Hittable::Sphere(
            Sphere {
                center: Vec3 { x: Fx { raw: 0 }, y: Fx { raw: -6586368i128 }, z: Fx { raw: -65536i128 } },
                radius: Fx { raw: 6553600 },
            },
        ),
    ]
}

/// The camera of the default entry point: sixteen by nine at four
/// hundred pixels of width, every derived field written out.
pub open spec fn default_camera() -> Camera {
    Camera {
        aspect_ratio: Fx { raw: 116508 },
        image_width: 400,
        samples_per_pixel: 100,
        pixel_samples_scale: Fx { raw: 655 },
        max_depth: 10,
        center: Vec3 { x: Fx { raw: 0 }, y: Fx { raw: 0 }, z: Fx { raw: 0 } },
        image_height: 225,
        pixel00_loc: Vec3 { x: Fx { raw: -116217i128 }, y: Fx { raw: 65245 }, z: Fx { raw: -65536i128 } },
        pixel_delta_u: Vec3 { x: Fx { raw: 582 }, y: Fx { raw: 0 }, z: Fx { raw: 0 } },
        pixel_delta_v: Vec3 { x: Fx { raw: 0 }, y: Fx { raw: -582i128 }, z: Fx { raw: 0 } },
    }
}

/// Builds the default scene, a small sphere over a large ground
/// sphere, and renders it at a sixteen-by-nine aspect ratio and four
/// hundred pixels of width.  Every pixel is accounted for by the sample
/// sums of that scene and camera; the caller owns writing them out.
pub fn write_image(rng: &mut rand::rngs::StdRng) -> (pixels: Vec<(u8, u8, u8)>)
    ensures
        pixels@.len() == 225 * 400,
        forall|k: int| 0 <= k < pixels@.len() ==> pixel_outcome(
            default_camera(),
            default_scene(),
            k,
            #[trigger] pixels@[k],
        ),
{
    let mut world = HittableList::new();
    world.add(
        Hittable::Sphere(
            Sphere::new(
                Vec3::new(Fx::zero(), Fx::zero(), Fx::from_int(-1)),
                Fx::from_raw(32768),
            ),
        ),
    );
    world.add(
        Hittable::Sphere(
            Sphere::new(
                Vec3::new(Fx::zero(), Fx::from_raw(-6586368), Fx::from_int(-1)),
                Fx::from_int(100),
            ),
        ),
    );
    let cam = Camera::new(Fx::from_raw(116508), Fx::from_int(400));
    proof {
        assert(tdiv(26214400, 65536) == 400);
        assert(height_px_spec(116508, 26214400) == 225);
        assert(65536int * height_px_spec(116508, 26214400) == 14745600);
        assert((26214400int * 65536) / 14745600 == 116508) by (nonlinear_arith);
        assert(fdiv(26214400, 14745600) == 116508);
        assert((131072int * 116508) / 65536 == 233016) by (nonlinear_arith);
        assert(fmul(131072, 116508) == 233016);
        assert(vw_spec(116508, 26214400) == 233016);
        assert((233016int * 65536) / 26214400 == 582) by (nonlinear_arith);
        assert(fdiv(233016, 26214400) == 582);
        assert(du_x_spec(116508, 26214400) == 582);
        assert((131072int * 65536) / 14745600 == 582) by (nonlinear_arith);
        assert(fdiv(-131072, 14745600) == -582);
        assert(dv_y_spec(116508, 26214400) == -582);
        assert((233016int * 65536) / 131072 == 116508) by (nonlinear_arith);
        assert(fdiv(233016, 131072) == 116508);
        assert((582int * 32768) / 65536 == 291) by (nonlinear_arith);
        assert(fmul(582, 32768) == 291);
        assert(fmul(-582, 32768) == -291);
        assert(p00_x_spec(116508, 26214400) == -116217);
        assert(p00_y_spec(116508, 26214400) == 65245);
        assert((65536int * 65536) / 6553600 == 655) by (nonlinear_arith);
        assert(fdiv(65536, 6553600) == 655);
        assert(camera_wf(cam));
        assert(cam == default_camera());
        assert_seqs_equal!(world.objects@ == default_scene());
    }
    cam.render(&world, rng)
}

} // verus!
