//! Spatial queries over the stores: box overlap tests and ray casts.
//!
//! Queries never fail: an empty result is the correct "no match" answer.
//! They scan the collider store in ascending slot order against each
//! owner's current (not movement-projected) position, so results are
//! deterministic.

use vstd::prelude::*;

use crate::body::BodySet;
use crate::collider::ColliderSet;
use crate::fp::fp_add;
use crate::fp::fp_div;
use crate::fp::fp_sub;
use crate::fp::FP;
use crate::handle::ColliderHandle;
use crate::shape::collision_aabb_aabb;
use crate::shape::spec_overlap;
use crate::vector2::spec_vadd;
use crate::vector2::Vec2;
use crate::world::collider_world_pos;
use crate::world::handle_at;
use crate::world::PhysicsWorld;

verus! {

/// A ray: an origin, a direction, and the largest admissible intersection
/// parameter (time of impact).
#[derive(Clone, Copy, Debug, PartialEq, Eq, Structural)]
pub struct Ray {
    pub origin: Vec2,
    pub dir: Vec2,
    pub toi: FP,
}

/// One ray-cast hit: the intersection parameter along the ray.
#[derive(Clone, Copy, Debug, PartialEq, Eq, Structural)]
pub struct RaycastResult {
    pub toi: FP,
}

/// One slab-test axis over raw bits: restrict the parameter window
/// `[tmin, tmax]` to the slab `[mn, mx]` along an axis with origin `o` and
/// direction `d`; `None` when a zero-direction axis misses the slab.
pub open spec fn spec_slab_axis(o: int, d: int, mn: int, mx: int, tmin: int, tmax: int) -> Option<
    (int, int),
> {
    if d == 0 {
        if o < mn || o > mx {
            None
        } else {
            Some((tmin, tmax))
        }
    } else {
        let t1 = fp_div(fp_sub(mn, o), d);
        let t2 = fp_div(fp_sub(mx, o), d);
        let lo = if t1 <= t2 {
            t1
        } else {
            t2
        };
        let hi = if t1 <= t2 {
            t2
        } else {
            t1
        };
        Some(
            (
                if tmin >= lo {
                    tmin
                } else {
                    lo
                },
                if tmax <= hi {
                    tmax
                } else {
                    hi
                },
            ),
        )
    }
}

/// Slab test of a ray against an axis-aligned box: the smallest parameter
/// in `[0, ray.toi]` at which the ray is inside the box on both axes, or
/// `None` when there is none.
pub open spec fn spec_ray_box(ray: Ray, bpos: Vec2, half: Vec2) -> Option<int> {
    let mnx = fp_sub(bpos.x@, half.x@);
    let mxx = fp_add(bpos.x@, half.x@);
    let mny = fp_sub(bpos.y@, half.y@);
    let mxy = fp_add(bpos.y@, half.y@);
    match spec_slab_axis(ray.origin.x@, ray.dir.x@, mnx, mxx, 0, ray.toi@) {
        None => None,
        Some((tminx, tmaxx)) => match spec_slab_axis(
            ray.origin.y@,
            ray.dir.y@,
            mny,
            mxy,
            tminx,
            tmaxx,
        ) {
            None => None,
            Some((tmin, tmax)) => if tmin > tmax {
                None
            } else {
                Some(tmin)
            },
        },
    }
}

/// A ray-box hit parameter always lies between zero and the ray's bound.
pub proof fn lemma_ray_box_toi_bounds(ray: Ray, bpos: Vec2, half: Vec2)
    requires
        spec_ray_box(ray, bpos, half).is_some(),
    ensures
        0 <= spec_ray_box(ray, bpos, half).unwrap(),
        spec_ray_box(ray, bpos, half).unwrap() <= ray.toi@,
{
}

/// The collider is a match for an overlap query: its slot is live, its
/// category intersects the query mask, its owner resolves, and its box
/// overlaps the query box at the owner's current position.
pub open spec fn overlap_test_match<T: Copy>(
    bodies: BodySet,
    colliders: ColliderSet<T>,
    center: Vec2,
    half_exts: Vec2,
    mask: u32,
    h: ColliderHandle,
) -> bool {
    &&& colliders.valid(h)
    &&& (colliders.collider_at(h).category & mask) != 0
    &&& bodies.valid(colliders.collider_at(h).owner)
    &&& spec_overlap(
        center,
        half_exts,
        collider_world_pos(bodies, colliders.collider_at(h)),
        colliders.collider_at(h).shape.half_exts,
    )
}

/// The collider is a match for a ray cast: its slot is live, its category
/// intersects the query mask, its owner resolves, and the slab test hits
/// its box within the ray's bound.
pub open spec fn ray_test_match<T: Copy>(
    bodies: BodySet,
    colliders: ColliderSet<T>,
    ray: Ray,
    mask: u32,
    h: ColliderHandle,
) -> bool {
    &&& colliders.valid(h)
    &&& (colliders.collider_at(h).category & mask) != 0
    &&& bodies.valid(colliders.collider_at(h).owner)
    &&& spec_ray_box(
        ray,
        collider_world_pos(bodies, colliders.collider_at(h)),
        colliders.collider_at(h).shape.half_exts,
    ).is_some()
}

/// The hit parameter recorded for a matching collider.
pub open spec fn ray_test_toi<T: Copy>(
    bodies: BodySet,
    colliders: ColliderSet<T>,
    ray: Ray,
    h: ColliderHandle,
) -> int {
    spec_ray_box(
        ray,
        collider_world_pos(bodies, colliders.collider_at(h)),
        colliders.collider_at(h).shape.half_exts,
    ).unwrap()
}

/// Some element of the ray-cast result names the handle.
pub open spec fn hits_contain(s: Seq<(ColliderHandle, RaycastResult)>, h: ColliderHandle) -> bool {
    exists|k: int| 0 <= k < s.len() && s[k].0 == h
}

/// One slab-test axis over fixed-point values.
fn slab_axis(o: FP, d: FP, mn: FP, mx: FP, tmin: FP, tmax: FP) -> (r: Option<(FP, FP)>)
    ensures
        r.is_some() == spec_slab_axis(o@, d@, mn@, mx@, tmin@, tmax@).is_some(),
        r matches Some((a, b)) ==> Some((a@, b@)) == spec_slab_axis(
            o@,
            d@,
            mn@,
            mx@,
            tmin@,
            tmax@,
        ),
{
    if d.bits == 0 {
        if o.lt(mn) || mx.lt(o) {
            None
        } else {
            Some((tmin, tmax))
        }
    } else {
        let t1 = mn.sub(o).div(d);
        let t2 = mx.sub(o).div(d);
        let lo = t1.min(t2);
        let hi = t1.max(t2);
        Some((tmin.max(lo), tmax.min(hi)))
    }
}

/// Slab test of a ray against one axis-aligned box.
fn ray_box(ray: &Ray, bpos: Vec2, half: Vec2) -> (r: Option<FP>)
    ensures
        r.is_some() == spec_ray_box(*ray, bpos, half).is_some(),
        r matches Some(t) ==> Some(t@) == spec_ray_box(*ray, bpos, half),
{
    let mn = bpos.sub(half);
    let mx = bpos.add(half);
    let first = slab_axis(ray.origin.x, ray.dir.x, mn.x, mx.x, FP::zero(), ray.toi);
    let (tminx, tmaxx) = match first {
        Some(w) => w,
        None => {
            return None;
        },
    };
    let second = slab_axis(ray.origin.y, ray.dir.y, mn.y, mx.y, tminx, tmaxx);
    let (tmin, tmax) = match second {
        Some(w) => w,
        None => {
            return None;
        },
    };
    if tmax.lt(tmin) {
        None
    } else {
        Some(tmin)
    }
}

proof fn lemma_contains_push(s: Seq<ColliderHandle>, e: ColliderHandle, h: ColliderHandle)
    ensures
        s.push(e).contains(h) == (s.contains(h) || e == h),
{
    if s.contains(h) {
        let k = choose|k: int| 0 <= k < s.len() && s[k] == h;
        assert(s.push(e)[k] == h);
    }
    if e == h {
        assert(s.push(e)[s.len() as int] == h);
    }
    if s.push(e).contains(h) {
        let k = choose|k: int| 0 <= k < s.push(e).len() && s.push(e)[k] == h;
        if k < s.len() {
            assert(s[k] == h);
        }
    }
}

proof fn lemma_hits_push(
    s: Seq<(ColliderHandle, RaycastResult)>,
    e: (ColliderHandle, RaycastResult),
    h: ColliderHandle,
)
    ensures
        hits_contain(s.push(e), h) == (hits_contain(s, h) || e.0 == h),
{
    if hits_contain(s, h) {
        let k = choose|k: int| 0 <= k < s.len() && s[k].0 == h;
        assert(s.push(e)[k].0 == h);
    }
    if e.0 == h {
        assert(s.push(e)[s.len() as int].0 == h);
    }
    if hits_contain(s.push(e), h) {
        let k = choose|k: int| 0 <= k < s.push(e).len() && s.push(e)[k].0 == h;
        if k < s.len() {
            assert(s[k].0 == h);
        }
    }
}

impl<T: Copy> PhysicsWorld<T> {
    /// All colliders whose category intersects `mask` and whose box
    /// overlaps the query box at their owner's current position, in
    /// ascending slot order. Never fails: no match yields an empty result.
    pub fn overlap_test(
        &self,
        center: Vec2,
        half_exts: Vec2,
        mask: u32,
        bodies: &BodySet,
        colliders: &ColliderSet<T>,
    ) -> (r: Vec<ColliderHandle>)
        ensures
            forall|h: ColliderHandle| #[trigger]
                r@.contains(h) == overlap_test_match(
                    *bodies,
                    *colliders,
                    center,
                    half_exts,
                    mask,
                    h,
                ),
            forall|k1: int, k2: int|
                0 <= k1 < k2 < r@.len() ==> (#[trigger] r@[k1]).index < (#[trigger] r@[k2]).index,
    {
        let n = colliders.slots.len();
        let mut r: Vec<ColliderHandle> = Vec::new();
        let mut i: usize = 0;
        while i < n
            invariant
                n == colliders.slots@.len(),
                i <= n,
                forall|h: ColliderHandle| #[trigger]
                    r@.contains(h) == (h.index < i && overlap_test_match(
                        *bodies,
                        *colliders,
                        center,
                        half_exts,
                        mask,
                        h,
                    )),
                forall|k1: int, k2: int|
                    0 <= k1 < k2 < r@.len() ==> (#[trigger] r@[k1]).index < (#[trigger]
                    r@[k2]).index,
                forall|k: int| 0 <= k < r@.len() ==> (#[trigger] r@[k]).index < i,
            decreases n - i,
        {
            let ghost r_before = r@;
            let ghost h_g = handle_at(*colliders, i as int);
            let mut matched = false;
            match &colliders.slots[i].collider {
                Some(c) => {
                    if (c.category & mask) != 0 {
                        match bodies.get(c.owner) {
                            Ok(body) => {
                                let pos = body.position.add(c.offset);
                                if collision_aabb_aabb(
                                    center,
                                    half_exts,
                                    pos,
                                    c.shape.half_exts,
                                ) {
                                    let h = ColliderHandle {
                                        index: i,
                                        generation: colliders.slots[i].generation,
                                    };
                                    r.push(h);
                                    matched = true;
                                }
                            },
                            Err(_) => {},
                        }
                    }
                },
                None => {},
            }
            proof {
                assert(matched == overlap_test_match(
                    *bodies,
                    *colliders,
                    center,
                    half_exts,
                    mask,
                    h_g,
                ));
                assert forall|h: ColliderHandle| #[trigger]
                    r@.contains(h) == (h.index < i + 1 && overlap_test_match(
                        *bodies,
                        *colliders,
                        center,
                        half_exts,
                        mask,
                        h,
                    )) by {
                    if matched {
                        assert(r@ =~= r_before.push(h_g));
                        lemma_contains_push(r_before, h_g, h);
                    }
                    if h.index == i && overlap_test_match(
                        *bodies,
                        *colliders,
                        center,
                        half_exts,
                        mask,
                        h,
                    ) {
                        assert(colliders.valid(h));
                        assert(h == h_g);
                    }
                }
            }
            i += 1;
        }
        r
    }

    /// Ray-vs-box slab test against every collider whose category
    /// intersects `mask`, at the owners' current positions: all hits with
    /// their intersection parameters, unsorted by distance (ascending slot
    /// order); callers choose their own tie-break. Each parameter lies in
    /// `[0, ray.toi]`. Never fails: no hit yields an empty result.
    pub fn project_ray(
        &self,
        ray: &Ray,
        mask: u32,
        bodies: &BodySet,
        colliders: &ColliderSet<T>,
    ) -> (r: Vec<(ColliderHandle, RaycastResult)>)
        ensures
            forall|h: ColliderHandle| #[trigger]
                hits_contain(r@, h) == ray_test_match(*bodies, *colliders, *ray, mask, h),
            forall|k: int|
                0 <= k < r@.len() ==> (#[trigger] r@[k]).1.toi@ == ray_test_toi(
                    *bodies,
                    *colliders,
                    *ray,
                    r@[k].0,
                ),
            forall|k: int|
                0 <= k < r@.len() ==> 0 <= (#[trigger] r@[k]).1.toi@ && r@[k].1.toi@ <= ray.toi@,
            forall|k1: int, k2: int|
                0 <= k1 < k2 < r@.len() ==> (#[trigger] r@[k1]).0.index < (#[trigger]
                r@[k2]).0.index,
    {
        let n = colliders.slots.len();
        let mut r: Vec<(ColliderHandle, RaycastResult)> = Vec::new();
        let mut i: usize = 0;
        while i < n
            invariant
                n == colliders.slots@.len(),
                i <= n,
                forall|h: ColliderHandle| #[trigger]
                    hits_contain(r@, h) == (h.index < i && ray_test_match(
                        *bodies,
                        *colliders,
                        *ray,
                        mask,
                        h,
                    )),
                forall|k: int|
                    0 <= k < r@.len() ==> (#[trigger] r@[k]).1.toi@ == ray_test_toi(
                        *bodies,
                        *colliders,
                        *ray,
                        r@[k].0,
                    ),
                forall|k: int|
                    0 <= k < r@.len() ==> 0 <= (#[trigger] r@[k]).1.toi@ && r@[k].1.toi@
                        <= ray.toi@,
                forall|k1: int, k2: int|
                    0 <= k1 < k2 < r@.len() ==> (#[trigger] r@[k1]).0.index < (#[trigger]
                    r@[k2]).0.index,
                forall|k: int| 0 <= k < r@.len() ==> (#[trigger] r@[k]).0.index < i,
            decreases n - i,
        {
            let ghost r_before = r@;
            let ghost h_g = handle_at(*colliders, i as int);
            let mut matched = false;
            match &colliders.slots[i].collider {
                Some(c) => {
                    if (c.category & mask) != 0 {
                        match bodies.get(c.owner) {
                            Ok(body) => {
                                let pos = body.position.add(c.offset);
                                match ray_box(ray, pos, c.shape.half_exts) {
                                    Some(toi) => {
                                        let h = ColliderHandle {
                                            index: i,
                                            generation: colliders.slots[i].generation,
                                        };
                                        proof {
                                            lemma_ray_box_toi_bounds(
                                                *ray,
                                                spec_vadd(bodies.body_at(c.owner).position, c.offset),
                                                c.shape.half_exts,
                                            );
                                        }
                                        r.push((h, RaycastResult { toi }));
                                        matched = true;
                                    },
                                    None => {},
                                }
                            },
                            Err(_) => {},
                        }
                    }
                },
                None => {},
            }
            proof {
                assert(matched == ray_test_match(*bodies, *colliders, *ray, mask, h_g));
                assert forall|h: ColliderHandle| #[trigger]
                    hits_contain(r@, h) == (h.index < i + 1 && ray_test_match(
                        *bodies,
                        *colliders,
                        *ray,
                        mask,
                        h,
                    )) by {
                    if matched {
                        assert(r@ =~= r_before.push(r@.last()));
                        lemma_hits_push(r_before, r@.last(), h);
                    }
                    if h.index == i && ray_test_match(*bodies, *colliders, *ray, mask, h) {
                        assert(colliders.valid(h));
                        assert(h == h_g);
                    }
                }
            }
            i += 1;
        }
        r
    }
}

} // verus!
