//! The scene aggregate: an owned collection of primitives, answering
//! closest-hit queries by narrowing the parameter interval to the best
//! hit seen so far.

use vstd::prelude::*;
use vstd::assert_seqs_equal;
use crate::hittable::{Hittable, HitRecord, HitG, hitg_of, hittable_wf, hittable_hit_spec};
use crate::interval::Interval;
use crate::ray::{Ray, ray_wf};

verus! {

pub struct HittableList {
    pub objects: Vec<Hittable>,
}

pub open spec fn list_wf(objs: Seq<Hittable>) -> bool {
    forall|i: int| 0 <= i < objs.len() ==> hittable_wf(#[trigger] objs[i])
}

/// What the narrowing scan answers: each member is probed against the
/// interval capped by the best parameter so far, and a hit replaces the
/// running best.
pub open spec fn list_hit_spec(objs: Seq<Hittable>, r: Ray, tmin: int, tmax: int) -> Option<HitG>
    decreases objs.len(),
{
    if objs.len() == 0 {
        Option::None
    } else {
        let prev = list_hit_spec(objs.drop_last(), r, tmin, tmax);
        let cap = match prev {
            Option::Some(g) => g.t,
            Option::None => tmax,
        };
        match hittable_hit_spec(objs.last(), r, tmin, cap) {
            Option::Some(g2) => Option::Some(g2),
            Option::None => prev,
        }
    }
}

/// Any hit the scan reports lies strictly inside the query interval.
pub proof fn lemma_list_hit_in_range(objs: Seq<Hittable>, r: Ray, tmin: int, tmax: int)
    ensures
        list_hit_spec(objs, r, tmin, tmax) matches Option::Some(g) ==> tmin < g.t < tmax,
    decreases objs.len(),
{
    if objs.len() > 0 {
        lemma_list_hit_in_range(objs.drop_last(), r, tmin, tmax);
    }
}

/// Shrinking the far end of the interval past a reported hit does not
/// lose it: the same record is reported again.
pub proof fn lemma_hit_narrow(h: Hittable, r: Ray, tmin: int, tmax: int, cap: int)
    requires
        hittable_hit_spec(h, r, tmin, tmax) matches Option::Some(g) && g.t < cap <= tmax,
    ensures
        hittable_hit_spec(h, r, tmin, cap) == hittable_hit_spec(h, r, tmin, tmax),
{
}

/// The law of the scene aggregate: whatever any single member reports
/// over the full interval, the aggregate reports a hit at a parameter no
/// larger.  The aggregate's answer is the globally closest hit.
pub proof fn lemma_list_hit_minimal(objs: Seq<Hittable>, r: Ray, tmin: int, tmax: int, i: int)
    requires
        0 <= i < objs.len(),
        hittable_hit_spec(objs[i], r, tmin, tmax) is Some,
    ensures
        list_hit_spec(objs, r, tmin, tmax) is Some,
        some_t(list_hit_spec(objs, r, tmin, tmax)) <= some_t(
            hittable_hit_spec(objs[i], r, tmin, tmax),
        ),
    decreases objs.len(),
{
    let pre = objs.drop_last();
    let prev = list_hit_spec(pre, r, tmin, tmax);
    let gi = hittable_hit_spec(objs[i], r, tmin, tmax);
    lemma_list_hit_in_range(pre, r, tmin, tmax);
    lemma_hittable_hit_in_range(objs[i], r, tmin, tmax);
    if i == objs.len() - 1 {
        match prev {
            Option::Some(p) => {
                if some_t(gi) < p.t {
                    lemma_hit_narrow(objs[i], r, tmin, tmax, p.t);
                } else {
                    lemma_hittable_hit_in_range(objs.last(), r, tmin, p.t);
                }
            },
            Option::None => {},
        }
    } else {
        assert(pre[i] == objs[i]);
        lemma_list_hit_minimal(pre, r, tmin, tmax, i);
        let p = list_hit_spec(pre, r, tmin, tmax);
        lemma_hittable_hit_in_range(objs.last(), r, tmin, some_t(p));
    }
}

/// The parameter inside a reported hit (zero where there is none).
pub open spec fn some_t(o: Option<HitG>) -> int {
    match o {
        Option::Some(g) => g.t,
        Option::None => 0,
    }
}

/// A single member's hit lies strictly inside the query interval.
pub proof fn lemma_hittable_hit_in_range(h: Hittable, r: Ray, tmin: int, tmax: int)
    ensures
        hittable_hit_spec(h, r, tmin, tmax) matches Option::Some(g) ==> tmin < g.t < tmax,
{
}

impl HittableList {
    pub fn new() -> (r: HittableList)
        ensures
            r.objects@.len() == 0,
    {
        HittableList { objects: Vec::new() }
    }

    pub fn clear(&mut self)
        ensures
            final(self).objects@.len() == 0,
    {
        self.objects.clear();
    }

    pub fn add(&mut self, object: Hittable)
        ensures
            final(self).objects@ == old(self).objects@.push(object),
    {
        self.objects.push(object);
    }

    /// The closest intersection across all members, found by narrowing
    /// the interval to each hit in turn.
    pub fn hit(&self, r: &Ray, ray_t: Interval) -> (res: Option<HitRecord>)
        requires
            list_wf(self.objects@),
            ray_wf(*r),
            -0x400000000000 <= ray_t.min.v(),
            ray_t.max.v() <= 0x400000000000,
        ensures
            ({
                let g = list_hit_spec(self.objects@, *r, ray_t.min.v(), ray_t.max.v());
                match res {
                    Option::Some(rec) => g == Option::Some(hitg_of(rec)) && ray_t.min.v()
                        < rec.t.v() < ray_t.max.v(),
                    Option::None => g is None,
                }
            }),
            self.objects@.len() == 0 ==> res is None,
    {
        let ghost objs = self.objects@;
        let ghost tmin = ray_t.min.v();
        let ghost tmax = ray_t.max.v();
        let mut closest_so_far: crate::fixed::Fx = ray_t.max;
        let mut hit_anything: Option<HitRecord> = Option::None;
        let n = self.objects.len();
        let mut i: usize = 0;
        while i < n
            invariant
                0 <= i <= n,
                n == objs.len(),
                objs == self.objects@,
                tmin == ray_t.min.v(),
                tmax == ray_t.max.v(),
                list_wf(objs),
                ray_wf(*r),
                -0x400000000000 <= tmin,
                tmax <= 0x400000000000,
                match hit_anything {
                    Option::Some(rec) => {
                        &&& list_hit_spec(objs.subrange(0, i as int), *r, tmin, tmax)
                            == Option::Some(hitg_of(rec))
                        &&& closest_so_far == rec.t
                        &&& tmin < rec.t.v() < tmax
                    },
                    Option::None => {
                        &&& list_hit_spec(objs.subrange(0, i as int), *r, tmin, tmax) is None
                        &&& closest_so_far == ray_t.max
                    },
                },
            decreases n - i,
        {
            let obj = &self.objects[i];
            match obj.hit(r, Interval::new(ray_t.min, closest_so_far)) {
                Option::Some(rec2) => {
                    closest_so_far = rec2.t;
                    hit_anything = Option::Some(rec2);
                },
                Option::None => {},
            }
            proof {
                assert_seqs_equal!(
                    objs.subrange(0, i + 1 as int).drop_last() == objs.subrange(0, i as int)
                );
                assert(objs.subrange(0, i + 1 as int).last() == objs[i as int]);
            }
            i = i + 1;
        }
        proof {
            assert_seqs_equal!(objs.subrange(0, n as int) == objs);
        }
        hit_anything
    }
}

} // verus!
