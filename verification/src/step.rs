//! The per-tick step: movement, narrow-phase detection, positional
//! resolution, and contact-event diffing.
//!
//! Candidate pairs are visited in ascending slot-index order, and
//! simultaneous contacts of one body are resolved one after another within
//! the same tick, so a fast body crossing several static colliders is
//! pushed out of all of them. The visiting order is the fixed, documented
//! tie-break that keeps replays reproducible. When two mutually kinematic
//! bodies collide, the correction is split equally between them (the
//! documented policy). Velocities are never modified by resolution.

use vstd::prelude::*;

use crate::body::body_at_in;
use crate::body::body_valid_at;
use crate::body::Body;
use crate::body::BodySet;
use crate::body::BodySlot;
use crate::body::BodyStatus;
use crate::collider::Collider;
use crate::collider::ColliderSet;
use crate::collider::ColliderState;
use crate::fp::FP;
use crate::fp::ONE_BITS;
use crate::handle::BodyHandle;
use crate::handle::ColliderHandle;
use crate::shape::collision_aabb_aabb;
use crate::shape::collision_aabb_aabb_manifold;
use crate::shape::spec_best_contact;
use crate::shape::spec_manifold;
use crate::shape::Contact;
use crate::vector2::spec_vadd;
use crate::vector2::spec_vscale;
use crate::vector2::Vec2;
use crate::world::bodies_layout_preserved;
use crate::world::collider_world_pos;
use crate::world::collider_world_pos_in;
use crate::world::diff_events;
use crate::world::entries_sorted;
use crate::world::entry_key_lt;
use crate::world::handle_at;
use crate::world::has_pair;
use crate::world::pair_eligible;
use crate::world::pair_eligible_in;
use crate::world::pair_kind;
use crate::world::pair_overlapping;
use crate::world::pair_overlapping_in;
use crate::world::movements_unchanged;
use crate::world::positions_unchanged;
use crate::world::settled;
use crate::world::spec_touch_entry;
use crate::world::spec_touch_entry_in;
use crate::world::static_positions_unchanged;
use crate::world::table_matches_geometry;
use crate::world::touch_entry_wf;
use crate::world::PhysicsWorld;
use crate::world::TouchEntry;
use crate::world::TouchKind;

verus! {

/// Layout preservation composes across two store states.
proof fn lemma_layout_trans(b1: BodySet, b2: BodySet, b3: BodySet)
    requires
        bodies_layout_preserved(b1, b2),
        bodies_layout_preserved(b2, b3),
    ensures
        bodies_layout_preserved(b1, b3),
{
    assert forall|i: int| 0 <= i < b1.slots@.len() implies {
        &&& (#[trigger] b3.slots@[i]).generation == b1.slots@[i].generation
        &&& b3.slots@[i].body.is_some() == b1.slots@[i].body.is_some()
        &&& (b1.slots@[i].body.is_some() ==> {
            &&& b3.slots@[i].body.unwrap().velocity == b1.slots@[i].body.unwrap().velocity
            &&& b3.slots@[i].body.unwrap().status == b1.slots@[i].body.unwrap().status
            &&& b3.slots@[i].body.unwrap().self_collide == b1.slots@[i].body.unwrap().self_collide
            &&& b3.slots@[i].body.unwrap().colliders@ == b1.slots@[i].body.unwrap().colliders@
        })
    } by {
        assert(b2.slots@[i].generation == b1.slots@[i].generation);
        assert(b3.slots@[i].generation == b2.slots@[i].generation);
    }
}

/// Unmoved static bodies compose across two store states with preserved
/// layout.
proof fn lemma_static_pos_trans(b1: BodySet, b2: BodySet, b3: BodySet)
    requires
        bodies_layout_preserved(b1, b2),
        static_positions_unchanged(b1, b2),
        static_positions_unchanged(b2, b3),
    ensures
        static_positions_unchanged(b1, b3),
{
    assert forall|i: int|
        0 <= i < b1.slots@.len() && (#[trigger] b1.slots@[i]).body.is_some()
            && b1.slots@[i].body.unwrap().status is Static implies b3.slots@[i].body.unwrap().position
        == b1.slots@[i].body.unwrap().position by {
        assert(b2.slots@[i].body.is_some());
        assert(b2.slots@[i].body.unwrap().status == b1.slots@[i].body.unwrap().status);
        assert(b2.slots@[i].body.unwrap().position == b1.slots@[i].body.unwrap().position);
    }
}

/// Eligibility, kinds and entry well-formedness read no positions, so they
/// transfer between store states with the same layout.
proof fn lemma_wf_transfer<T: Copy>(b1: BodySet, b2: BodySet, colliders: ColliderSet<T>)
    requires
        bodies_layout_preserved(b1, b2),
    ensures
        forall|ha: ColliderHandle, hb: ColliderHandle| #[trigger]
            pair_eligible(b1, colliders, ha, hb) == pair_eligible(b2, colliders, ha, hb),
        forall|e: TouchEntry<T>| #[trigger]
            touch_entry_wf(b1, colliders, e) == touch_entry_wf(b2, colliders, e),
{
    assert forall|ha: ColliderHandle, hb: ColliderHandle| #[trigger]
        pair_eligible(b1, colliders, ha, hb) == pair_eligible(b2, colliders, ha, hb) by {
        let ca = colliders.collider_at(ha);
        let cb = colliders.collider_at(hb);
        if colliders.valid(ha) && colliders.valid(hb) {
            assert(b1.valid(ca.owner) == b2.valid(ca.owner));
            assert(b1.valid(cb.owner) == b2.valid(cb.owner));
            if b1.valid(ca.owner) && b1.valid(cb.owner) {
                assert(b1.body_at(ca.owner).self_collide == b2.body_at(ca.owner).self_collide);
                assert(b1.body_at(ca.owner).status == b2.body_at(ca.owner).status);
                assert(b1.body_at(cb.owner).status == b2.body_at(cb.owner).status);
            }
        }
    }
}

/// With the same layout and the same positions, the overlap state of every
/// eligible pair — and so settledness — also transfers.
proof fn lemma_overlap_transfer<T: Copy>(b1: BodySet, b2: BodySet, colliders: ColliderSet<T>)
    requires
        bodies_layout_preserved(b1, b2),
        positions_unchanged(b1, b2),
    ensures
        forall|ha: ColliderHandle, hb: ColliderHandle|
            #[trigger] pair_eligible(b1, colliders, ha, hb) ==> pair_overlapping(
                b1,
                colliders,
                ha,
                hb,
            ) == pair_overlapping(b2, colliders, ha, hb),
        settled(b1, colliders) == settled(b2, colliders),
{
    lemma_wf_transfer(b1, b2, colliders);
    assert forall|ha: ColliderHandle, hb: ColliderHandle|
        #[trigger] pair_eligible(b1, colliders, ha, hb) implies pair_overlapping(
        b1,
        colliders,
        ha,
        hb,
    ) == pair_overlapping(b2, colliders, ha, hb) by {
        let ca = colliders.collider_at(ha);
        let cb = colliders.collider_at(hb);
        assert(b1.body_at(ca.owner).position == b2.body_at(ca.owner).position);
        assert(b1.body_at(cb.owner).position == b2.body_at(cb.owner).position);
    }
    if settled(b1, colliders) {
        assert forall|ha: ColliderHandle, hb: ColliderHandle|
            #[trigger] pair_eligible(b2, colliders, ha, hb) && pair_kind(colliders, ha, hb)
                is Collision implies !pair_overlapping(b2, colliders, ha, hb) by {
            assert(pair_eligible(b1, colliders, ha, hb));
        }
    }
    if settled(b2, colliders) {
        assert forall|ha: ColliderHandle, hb: ColliderHandle|
            #[trigger] pair_eligible(b1, colliders, ha, hb) && pair_kind(colliders, ha, hb)
                is Collision implies !pair_overlapping(b1, colliders, ha, hb) by {
            assert(pair_eligible(b2, colliders, ha, hb));
        }
    }
}

/// A table matching geometry does so in any store state with the same
/// layout and the same positions.
proof fn lemma_table_geometry_transfer<T: Copy>(
    b1: BodySet,
    b2: BodySet,
    colliders: ColliderSet<T>,
    s: Seq<TouchEntry<T>>,
)
    requires
        bodies_layout_preserved(b1, b2),
        positions_unchanged(b1, b2),
        table_matches_geometry(b2, colliders, s),
    ensures
        table_matches_geometry(b1, colliders, s),
{
    lemma_wf_transfer(b1, b2, colliders);
    lemma_overlap_transfer(b1, b2, colliders);
    assert forall|a: ColliderHandle, b: ColliderHandle|
        has_pair(s, a, b) == (#[trigger] pair_eligible(b1, colliders, a, b) && pair_overlapping(
            b1,
            colliders,
            a,
            b,
        )) by {
        assert(pair_eligible(b1, colliders, a, b) == pair_eligible(b2, colliders, a, b));
        assert(has_pair(s, a, b) == (pair_eligible(b2, colliders, a, b) && pair_overlapping(
            b2,
            colliders,
            a,
            b,
        )));
    }
}

/// `has_pair` over a pushed table: the old pairs plus the new entry's pair.
proof fn lemma_has_pair_push<T>(
    s: Seq<TouchEntry<T>>,
    e: TouchEntry<T>,
    a: ColliderHandle,
    b: ColliderHandle,
)
    ensures
        has_pair(s.push(e), a, b) == (has_pair(s, a, b) || (e.a == a && e.b == b)),
{
    if has_pair(s, a, b) {
        let k = choose|k: int| 0 <= k < s.len() && s[k].a == a && s[k].b == b;
        assert(s.push(e)[k].a == a && s.push(e)[k].b == b);
    }
    if e.a == a && e.b == b {
        assert(s.push(e)[s.len() as int].a == a && s.push(e)[s.len() as int].b == b);
    }
    if has_pair(s.push(e), a, b) {
        let k = choose|k: int|
            0 <= k < s.push(e).len() && s.push(e)[k].a == a && s.push(e)[k].b == b;
        if k < s.len() {
            assert(s[k].a == a && s[k].b == b);
        }
    }
}

/// One body slot advanced by its body's own velocity over a tick of raw-bit
/// length `dt`: a kinematic body records `velocity * dt` as its pending
/// movement and shifts its position by it; a static body keeps its position
/// and clears its pending movement; an empty slot is untouched.
pub open spec fn spec_move_slot(s: BodySlot, dt: int) -> BodySlot {
    match s.body {
        None => s,
        Some(b) => match b.status {
            BodyStatus::Kinematic => BodySlot {
                generation: s.generation,
                body: Some(
                    Body {
                        movement: spec_vscale(b.velocity, dt),
                        position: spec_vadd(b.position, spec_vscale(b.velocity, dt)),
                        ..b
                    },
                ),
            },
            BodyStatus::Static => BodySlot {
                generation: s.generation,
                body: Some(Body { movement: Vec2 { x: FP { bits: 0 }, y: FP { bits: 0 } }, ..b }),
            },
        },
    }
}

/// The movement phase of a tick: every slot advanced by its body's own
/// velocity.
pub open spec fn spec_apply_movement(bslots: Seq<BodySlot>, dt: int) -> Seq<BodySlot> {
    Seq::new(bslots.len(), |k: int| spec_move_slot(bslots[k], dt))
}

/// One body's position shifted by `delta`; every other slot and every other
/// field untouched.
pub open spec fn spec_push_body(bslots: Seq<BodySlot>, h: BodyHandle, delta: Vec2) -> Seq<BodySlot>
    recommends
        body_valid_at(bslots, h),
{
    let b = body_at_in(bslots, h);
    bslots.update(
        h.index as int,
        BodySlot {
            generation: bslots[h.index as int].generation,
            body: Some(Body { position: spec_vadd(b.position, delta), ..b }),
        },
    )
}

/// The store after resolving the colliding pair at slots `(i, j)` at the
/// positions current in `bslots`: the kinematic side moves by the best
/// contact's full correction when the other side is static, and each side
/// moves by half of it when both are kinematic (the first pushed first).
pub open spec fn spec_resolve<T: Copy>(
    bslots: Seq<BodySlot>,
    colliders: ColliderSet<T>,
    i: int,
    j: int,
) -> Seq<BodySlot> {
    let ca = colliders.collider_at(handle_at(colliders, i));
    let cb = colliders.collider_at(handle_at(colliders, j));
    let best = spec_best_contact(
        spec_manifold(
            collider_world_pos_in(bslots, ca),
            ca.shape.half_exts,
            collider_world_pos_in(bslots, cb),
            cb.shape.half_exts,
        ),
    );
    let correction = spec_vscale(best.normal, best.depth@);
    match (body_at_in(bslots, ca.owner).status, body_at_in(bslots, cb.owner).status) {
        (BodyStatus::Kinematic, BodyStatus::Kinematic) => {
            let half = Vec2 {
                x: FP { bits: crate::fp::fp_div(correction.x@, 131072) as i64 },
                y: FP { bits: crate::fp::fp_div(correction.y@, 131072) as i64 },
            };
            spec_push_body(
                spec_push_body(bslots, ca.owner, spec_vscale(half, -(ONE_BITS as int))),
                cb.owner,
                half,
            )
        },
        (BodyStatus::Kinematic, BodyStatus::Static) => spec_push_body(
            bslots,
            ca.owner,
            spec_vscale(correction, -(ONE_BITS as int)),
        ),
        (BodyStatus::Static, BodyStatus::Kinematic) => spec_push_body(bslots, cb.owner, correction),
        (BodyStatus::Static, BodyStatus::Static) => bslots,
    }
}

/// Outcome of the pass visiting the ordered pair `(i, j)`: when the pair is
/// eligible and its boxes overlap at the positions current in `bslots`, its
/// touch entry is recorded and a colliding pair is resolved at once;
/// otherwise nothing changes.
pub open spec fn spec_visit_pair<T: Copy>(
    bslots: Seq<BodySlot>,
    colliders: ColliderSet<T>,
    i: int,
    j: int,
) -> (Seq<BodySlot>, Seq<TouchEntry<T>>) {
    let ha = handle_at(colliders, i);
    let hb = handle_at(colliders, j);
    if pair_eligible_in(bslots, colliders, ha, hb) && pair_overlapping_in(
        bslots,
        colliders,
        ha,
        hb,
    ) {
        let entry = spec_touch_entry_in(bslots, colliders, ha, hb);
        let resolved = if pair_kind(colliders, ha, hb) is Collision {
            spec_resolve(bslots, colliders, i, j)
        } else {
            bslots
        };
        (resolved, seq![entry])
    } else {
        (bslots, Seq::empty())
    }
}

/// Row `i` of the pass from column `j` on: visit `(i, j)`, then the rest of
/// the row at the store state the visit left behind.
pub open spec fn spec_pass_row<T: Copy>(
    bslots: Seq<BodySlot>,
    colliders: ColliderSet<T>,
    i: int,
    j: int,
) -> (Seq<BodySlot>, Seq<TouchEntry<T>>)
    decreases colliders.slots@.len() - j,
{
    if j < colliders.slots@.len() {
        let visited = spec_visit_pair(bslots, colliders, i, j);
        let rest = spec_pass_row(visited.0, colliders, i, j + 1);
        (rest.0, visited.1 + rest.1)
    } else {
        (bslots, Seq::empty())
    }
}

/// The pass from row `i` on: row `i`, then the remaining rows at the store
/// state the row left behind.
pub open spec fn spec_pass_from<T: Copy>(
    bslots: Seq<BodySlot>,
    colliders: ColliderSet<T>,
    i: int,
) -> (Seq<BodySlot>, Seq<TouchEntry<T>>)
    decreases colliders.slots@.len() - i,
{
    if i < colliders.slots@.len() {
        let row = spec_pass_row(bslots, colliders, i, i + 1);
        let rest = spec_pass_from(row.0, colliders, i + 1);
        (rest.0, row.1 + rest.1)
    } else {
        (bslots, Seq::empty())
    }
}

/// The whole detection-and-resolution pass: every unordered pair visited in
/// ascending slot-index order, each tested at the positions current at its
/// visit; the final body slots and the touching table recorded.
pub open spec fn spec_detect_resolve<T: Copy>(
    bslots: Seq<BodySlot>,
    colliders: ColliderSet<T>,
) -> (Seq<BodySlot>, Seq<TouchEntry<T>>) {
    spec_pass_from(bslots, colliders, 0)
}

/// The whole tick: the movement phase, then the detection-and-resolution
/// pass over the moved bodies.
pub open spec fn spec_step<T: Copy>(
    bslots: Seq<BodySlot>,
    colliders: ColliderSet<T>,
    dt: int,
) -> (Seq<BodySlot>, Seq<TouchEntry<T>>) {
    spec_detect_resolve(spec_apply_movement(bslots, dt), colliders)
}

/// The value is far from the representable boundary, so the few additions
/// a resolution performs on it stay exact.
pub open spec fn coord_small(v: int) -> bool {
    -0x1000000000000000 <= v <= 0x1000000000000000
}

/// All coordinates a pair's resolution touches are far from the
/// representable boundary: both owners' positions, both offsets, and both
/// non-negative half extents.
pub open spec fn pair_coords_small<T: Copy>(
    bslots: Seq<BodySlot>,
    colliders: ColliderSet<T>,
    ha: ColliderHandle,
    hb: ColliderHandle,
) -> bool {
    let ca = colliders.collider_at(ha);
    let cb = colliders.collider_at(hb);
    let pa = body_at_in(bslots, ca.owner).position;
    let pb = body_at_in(bslots, cb.owner).position;
    &&& coord_small(pa.x@) && coord_small(pa.y@)
    &&& coord_small(pb.x@) && coord_small(pb.y@)
    &&& coord_small(ca.offset.x@) && coord_small(ca.offset.y@)
    &&& coord_small(cb.offset.x@) && coord_small(cb.offset.y@)
    &&& 0 <= ca.shape.half_exts.x@ <= 0x1000000000000000
    &&& 0 <= ca.shape.half_exts.y@ <= 0x1000000000000000
    &&& 0 <= cb.shape.half_exts.x@ <= 0x1000000000000000
    &&& 0 <= cb.shape.half_exts.y@ <= 0x1000000000000000
}

/// Fixed-point multiplication by a unit (one raw scale factor) is exact:
/// it returns the other factor, negated for a negative unit, and
/// multiplication by zero returns zero.
proof fn lemma_fp_mul_unit(n: int, v: int)
    requires
        n == 65536 || n == -65536,
        -0x4000000000000000 <= v <= 0x4000000000000000,
    ensures
        crate::fp::fp_mul(n, v) == (if n == 65536 {
            v
        } else {
            -v
        }),
        crate::fp::fp_mul(v, n) == (if n == 65536 {
            v
        } else {
            -v
        }),
        crate::fp::fp_mul(0, v) == 0,
        crate::fp::fp_mul(v, 0) == 0,
{
    let m = crate::fp::iabs(v);
    assert(65536 * m >= 0 && (65536 * m) / 65536 == m) by (nonlinear_arith)
        requires
            m >= 0,
    ;
    assert(crate::fp::iabs(65536 * v) == 65536 * m && crate::fp::iabs((-65536) * v) == 65536 * m
        && crate::fp::iabs(v * 65536) == 65536 * m && crate::fp::iabs(v * (-65536)) == 65536 * m)
        by (nonlinear_arith)
        requires
            m == crate::fp::iabs(v),
    ;
    assert(((65536 * v) < 0) == (v < 0) && (((-65536) * v) < 0) == (v > 0) && ((v * 65536) < 0) == (
    v < 0) && ((v * (-65536)) < 0) == (v > 0)) by (nonlinear_arith);
    assert(0 * v == 0 && v * 0 == 0) by (nonlinear_arith);
}

/// Resolution correctness against a static partner: resolving an
/// overlapping kinematic-vs-static pair leaves that pair no longer
/// overlapping — the full correction along the best contact closes the
/// penetration exactly, away from the saturation boundary.
pub proof fn lemma_resolve_separates_from_static<T: Copy>(
    bslots: Seq<BodySlot>,
    colliders: ColliderSet<T>,
    i: int,
    j: int,
)
    requires
        pair_eligible_in(bslots, colliders, handle_at(colliders, i), handle_at(colliders, j)),
        pair_overlapping_in(bslots, colliders, handle_at(colliders, i), handle_at(colliders, j)),
        body_at_in(bslots, colliders.collider_at(handle_at(colliders, i)).owner).status
            is Kinematic,
        body_at_in(bslots, colliders.collider_at(handle_at(colliders, j)).owner).status is Static,
        pair_coords_small(bslots, colliders, handle_at(colliders, i), handle_at(colliders, j)),
    ensures
        !pair_overlapping_in(
            spec_resolve(bslots, colliders, i, j),
            colliders,
            handle_at(colliders, i),
            handle_at(colliders, j),
        ),
{
    let ha = handle_at(colliders, i);
    let hb = handle_at(colliders, j);
    let ca = colliders.collider_at(ha);
    let cb = colliders.collider_at(hb);
    let oa = ca.owner;
    let ob = cb.owner;
    assert(oa != ob);
    assert(oa.index != ob.index) by {
        if oa.index == ob.index {
            assert(bslots[oa.index as int].generation == oa.generation);
            assert(bslots[ob.index as int].generation == ob.generation);
        }
    }
    let pa = collider_world_pos_in(bslots, ca);
    let pb = collider_world_pos_in(bslots, cb);
    let hax = ca.shape.half_exts.x@;
    let hay = ca.shape.half_exts.y@;
    let hbx = cb.shape.half_exts.x@;
    let hby = cb.shape.half_exts.y@;
    let ovx = crate::shape::spec_overlap_1d(pa.x@, hax, pb.x@, hbx);
    let ovy = crate::shape::spec_overlap_1d(pa.y@, hay, pb.y@, hby);
    let best = spec_best_contact(spec_manifold(pa, ca.shape.half_exts, pb, cb.shape.half_exts));
    let correction = spec_vscale(best.normal, best.depth@);
    let delta = spec_vscale(correction, -(ONE_BITS as int));
    let resolved = spec_resolve(bslots, colliders, i, j);
    assert(resolved == spec_push_body(bslots, oa, delta));
    assert(body_at_in(resolved, ob) == body_at_in(bslots, ob));
    assert(body_at_in(resolved, oa).position == spec_vadd(
        body_at_in(bslots, oa).position,
        delta,
    ));
    let pa2 = collider_world_pos_in(resolved, ca);
    if ovx < ovy {
        let n = crate::shape::spec_sign_unit(crate::fp::fp_sub(pb.x@, pa.x@));
        assert(best == crate::shape::spec_contact_x(pa, ca.shape.half_exts, pb, cb.shape.half_exts));
        assert(best.depth@ == ovx && best.normal.x@ == n && best.normal.y@ == 0);
        lemma_fp_mul_unit(n, ovx);
        assert(correction.x@ == crate::fp::fp_mul(n, ovx) && correction.y@ == 0);
        lemma_fp_mul_unit(-(ONE_BITS as int), correction.x@);
        lemma_fp_mul_unit(-(ONE_BITS as int), 0);
        assert(delta.x@ == -correction.x@ && delta.y@ == 0);
        crate::shape::lemma_full_correction_separates_axis(pa.x@, hax, pb.x@, hbx);
        assert(pa2.x@ == crate::fp::fp_sub(pa.x@, crate::fp::fp_mul(n, ovx)));
        assert(crate::shape::spec_overlap_1d(pa2.x@, hax, pb.x@, hbx) == 0);
        assert(collider_world_pos_in(resolved, cb) == pb);
    } else {
        let n = crate::shape::spec_sign_unit(crate::fp::fp_sub(pb.y@, pa.y@));
        assert(best == crate::shape::spec_contact_y(pa, ca.shape.half_exts, pb, cb.shape.half_exts));
        assert(best.depth@ == ovy && best.normal.y@ == n && best.normal.x@ == 0);
        lemma_fp_mul_unit(n, ovy);
        assert(correction.y@ == crate::fp::fp_mul(n, ovy) && correction.x@ == 0);
        lemma_fp_mul_unit(-(ONE_BITS as int), correction.y@);
        lemma_fp_mul_unit(-(ONE_BITS as int), 0);
        assert(delta.y@ == -correction.y@ && delta.x@ == 0);
        crate::shape::lemma_full_correction_separates_axis(pa.y@, hay, pb.y@, hby);
        assert(pa2.y@ == crate::fp::fp_sub(pa.y@, crate::fp::fp_mul(n, ovy)));
        assert(crate::shape::spec_overlap_1d(pa2.y@, hay, pb.y@, hby) == 0);
        assert(collider_world_pos_in(resolved, cb) == pb);
    }
}

/// Mid-row state of the pass: finish row `i` from column `j`, then the
/// remaining rows.
spec fn spec_pass_mid<T: Copy>(
    bslots: Seq<BodySlot>,
    colliders: ColliderSet<T>,
    i: int,
    j: int,
) -> (Seq<BodySlot>, Seq<TouchEntry<T>>) {
    let row = spec_pass_row(bslots, colliders, i, j);
    let rest = spec_pass_from(row.0, colliders, i + 1);
    (rest.0, row.1 + rest.1)
}

/// Shift one body's position by `delta`, leaving every other slot and every
/// other field untouched.
fn push_body(bodies: &mut BodySet, h: BodyHandle, delta: Vec2)
    requires
        old(bodies).valid(h),
    ensures
        final(bodies).slots@ == spec_push_body(old(bodies).slots@, h, delta),
        bodies_layout_preserved(*old(bodies), *final(bodies)),
        forall|i: int|
            0 <= i < old(bodies).slots@.len() && i != h.index ==> final(bodies).slots@[i] == old(
                bodies,
            ).slots@[i],
        final(bodies).valid(h),
        final(bodies).body_at(h).position == spec_vadd(old(bodies).body_at(h).position, delta),
        movements_unchanged(*old(bodies), *final(bodies)),
{
    let b = bodies.get_mut(h);
    b.position = b.position.add(delta);
}

/// Unchanged pending movements compose across two store states with
/// preserved layout.
proof fn lemma_movements_trans(b1: BodySet, b2: BodySet, b3: BodySet)
    requires
        bodies_layout_preserved(b1, b2),
        movements_unchanged(b1, b2),
        movements_unchanged(b2, b3),
    ensures
        movements_unchanged(b1, b3),
{
    assert forall|i: int|
        0 <= i < b1.slots@.len() && (#[trigger] b1.slots@[i]).body.is_some() implies b3.slots@[i].body.unwrap().movement
        == b1.slots@[i].body.unwrap().movement by {
        assert(b2.slots@[i].body.is_some());
        assert(b2.slots@[i].body.unwrap().movement == b1.slots@[i].body.unwrap().movement);
    }
}

/// One body advanced by its own velocity over a tick of length `dt` (raw
/// bits): a kinematic body records `velocity * dt` as its pending movement
/// and shifts its position by it; a static body keeps its position and
/// clears its pending movement.
pub open spec fn moved_slot_by_velocity(ob: Body, nb: Body, dt: int) -> bool {
    &&& (ob.status is Kinematic ==> {
        &&& nb.movement == spec_vscale(ob.velocity, dt)
        &&& nb.position == spec_vadd(ob.position, spec_vscale(ob.velocity, dt))
    })
    &&& (ob.status is Static ==> {
        &&& nb.movement == (Vec2 { x: FP { bits: 0 }, y: FP { bits: 0 } })
        &&& nb.position == ob.position
    })
}

/// Every occupied slot of the second store holds the first store's body
/// advanced by its own velocity over the tick.
pub open spec fn moved_by_velocity(b1: BodySet, b2: BodySet, dt: int) -> bool {
    forall|k: int|
        0 <= k < b1.slots@.len() && (#[trigger] b1.slots@[k]).body.is_some()
            ==> moved_slot_by_velocity(b1.slots@[k].body.unwrap(), b2.slots@[k].body.unwrap(), dt)
}

/// Compute each kinematic body's movement for the tick (`velocity * dt`)
/// and advance its position by it; static bodies keep their position, and
/// their pending movement is cleared. With `dt == 0` no position changes.
fn apply_movement(bodies: &mut BodySet, dt: FP)
    ensures
        final(bodies).slots@ == spec_apply_movement(old(bodies).slots@, dt@),
        bodies_layout_preserved(*old(bodies), *final(bodies)),
        static_positions_unchanged(*old(bodies), *final(bodies)),
        dt@ == 0 ==> positions_unchanged(*old(bodies), *final(bodies)),
        moved_by_velocity(*old(bodies), *final(bodies), dt@),
{
    let n = bodies.slots.len();
    let mut i: usize = 0;
    while i < n
        invariant
            n == bodies.slots@.len(),
            i <= n,
            bodies_layout_preserved(*old(bodies), *bodies),
            static_positions_unchanged(*old(bodies), *bodies),
            dt@ == 0 ==> positions_unchanged(*old(bodies), *bodies),
            forall|k: int|
                0 <= k < i ==> bodies.slots@[k] == spec_move_slot(old(bodies).slots@[k], dt@),
            forall|k: int|
                0 <= k < i && (#[trigger] old(bodies).slots@[k]).body.is_some()
                    ==> moved_slot_by_velocity(
                    old(bodies).slots@[k].body.unwrap(),
                    bodies.slots@[k].body.unwrap(),
                    dt@,
                ),
            forall|k: int| i <= k < n ==> bodies.slots@[k] == old(bodies).slots@[k],
        decreases n - i,
    {
        let ghost pre = *bodies;
        let slot = &mut bodies.slots[i];
        match &mut slot.body {
            Some(b) => {
                match b.status {
                    BodyStatus::Kinematic => {
                        let mv = b.velocity.mul_scalar(dt);
                        b.movement = mv;
                        let moved = b.position.add(mv);
                        proof {
                            if dt@ == 0 {
                                assert(mv.x@ == 0 && mv.y@ == 0);
                                assert(moved.x.bits == b.position.x.bits);
                                assert(moved.y.bits == b.position.y.bits);
                                assert(moved == b.position);
                            }
                        }
                        b.position = moved;
                    },
                    BodyStatus::Static => {
                        b.movement = Vec2::zero();
                    },
                }
            },
            None => {},
        }
        i += 1;
    }
    proof {
        assert(bodies.slots@ =~= spec_apply_movement(old(bodies).slots@, dt@));
    }
}

/// Decide one ordered candidate pair at the stores' current positions:
/// `Some` exactly when the pair is eligible and its boxes overlap, carrying
/// the touch entry to record and the best contact of the pair's manifold.
fn pair_check<T: Copy>(bodies: &BodySet, colliders: &ColliderSet<T>, i: usize, j: usize) -> (r:
    Option<(TouchEntry<T>, Contact)>)
    requires
        i < j,
        j < colliders.slots@.len(),
    ensures
        r.is_some() == (pair_eligible(
            *bodies,
            *colliders,
            handle_at(*colliders, i as int),
            handle_at(*colliders, j as int),
        ) && pair_overlapping(
            *bodies,
            *colliders,
            handle_at(*colliders, i as int),
            handle_at(*colliders, j as int),
        )),
        r matches Some(p) ==> p.0 == spec_touch_entry(
            *bodies,
            *colliders,
            handle_at(*colliders, i as int),
            handle_at(*colliders, j as int),
        ),
        r matches Some(p) ==> p.1 == spec_best_contact(
            spec_manifold(
                collider_world_pos(*bodies, colliders.collider_at(handle_at(*colliders, i as int))),
                colliders.collider_at(handle_at(*colliders, i as int)).shape.half_exts,
                collider_world_pos(*bodies, colliders.collider_at(handle_at(*colliders, j as int))),
                colliders.collider_at(handle_at(*colliders, j as int)).shape.half_exts,
            ),
        ),
{
    let ghost ha_g = handle_at(*colliders, i as int);
    let ghost hb_g = handle_at(*colliders, j as int);
    let ca: Collider<T> = match &colliders.slots[i].collider {
        Some(c) => *c,
        None => {
            return None;
        },
    };
    let cb: Collider<T> = match &colliders.slots[j].collider {
        Some(c) => *c,
        None => {
            return None;
        },
    };
    let ha = ColliderHandle { index: i, generation: colliders.slots[i].generation };
    let hb = ColliderHandle { index: j, generation: colliders.slots[j].generation };
    proof {
        assert(ha == ha_g && hb == hb_g);
        assert(colliders.valid(ha) && colliders.valid(hb));
        assert(colliders.collider_at(ha) == ca && colliders.collider_at(hb) == cb);
    }
    let a_body = match bodies.get(ca.owner) {
        Ok(b) => b,
        Err(_) => {
            return None;
        },
    };
    let a_pos = a_body.position;
    let a_status = a_body.status;
    let a_selfc = a_body.self_collide;
    let b_body = match bodies.get(cb.owner) {
        Ok(b) => b,
        Err(_) => {
            return None;
        },
    };
    let b_pos = b_body.position;
    let b_status = b_body.status;
    if ca.owner == cb.owner && !a_selfc {
        return None;
    }
    if matches!(a_status, BodyStatus::Static) && matches!(b_status, BodyStatus::Static) {
        return None;
    }
    if (ca.category & cb.mask) == 0 || (cb.category & ca.mask) == 0 {
        return None;
    }
    proof {
        assert(pair_eligible(*bodies, *colliders, ha, hb));
    }
    let pa = a_pos.add(ca.offset);
    let pb = b_pos.add(cb.offset);
    if !collision_aabb_aabb(pa, ca.shape.half_exts, pb, cb.shape.half_exts) {
        return None;
    }
    let manifold = match collision_aabb_aabb_manifold(pa, ca.shape.half_exts, pb, cb.shape.half_exts) {
        Some(m) => m,
        None => unreached(),
    };
    let best = *manifold.best_contact();
    let solid = matches!(ca.state, ColliderState::Solid) && matches!(
        cb.state,
        ColliderState::Solid,
    );
    let kind = if solid {
        TouchKind::Collision
    } else {
        TouchKind::Overlap
    };
    let entry = TouchEntry { a: ha, b: hb, kind, normal: best.normal, tag_a: ca.tag, tag_b: cb.tag };
    Some((entry, best))
}

/// Push the kinematic side(s) of a colliding pair out along the best
/// contact: the full correction against a static partner, half each
/// between two kinematic bodies.
fn resolve_contact<T: Copy>(
    bodies: &mut BodySet,
    colliders: &ColliderSet<T>,
    i: usize,
    j: usize,
    best: Contact,
)
    requires
        i < j,
        j < colliders.slots@.len(),
        pair_eligible(
            *old(bodies),
            *colliders,
            handle_at(*colliders, i as int),
            handle_at(*colliders, j as int),
        ),
        best == spec_best_contact(
            spec_manifold(
                collider_world_pos(
                    *old(bodies),
                    colliders.collider_at(handle_at(*colliders, i as int)),
                ),
                colliders.collider_at(handle_at(*colliders, i as int)).shape.half_exts,
                collider_world_pos(
                    *old(bodies),
                    colliders.collider_at(handle_at(*colliders, j as int)),
                ),
                colliders.collider_at(handle_at(*colliders, j as int)).shape.half_exts,
            ),
        ),
    ensures
        final(bodies).slots@ == spec_resolve(old(bodies).slots@, *colliders, i as int, j as int),
        bodies_layout_preserved(*old(bodies), *final(bodies)),
        static_positions_unchanged(*old(bodies), *final(bodies)),
        movements_unchanged(*old(bodies), *final(bodies)),
{
    let ca: Collider<T> = match &colliders.slots[i].collider {
        Some(c) => *c,
        None => unreached(),
    };
    let cb: Collider<T> = match &colliders.slots[j].collider {
        Some(c) => *c,
        None => unreached(),
    };
    let a_status = match bodies.get(ca.owner) {
        Ok(b) => b.status,
        Err(_) => unreached(),
    };
    let b_status = match bodies.get(cb.owner) {
        Ok(b) => b.status,
        Err(_) => unreached(),
    };
    let correction = best.normal.mul_scalar(best.depth);
    let ghost pre = *bodies;
    match (a_status, b_status) {
        (BodyStatus::Kinematic, BodyStatus::Kinematic) => {
            let half = correction.div_scalar(FP::from_bits(131072));
            push_body(bodies, ca.owner, half.mul_scalar(FP::from_bits(-ONE_BITS)));
            let ghost mid = *bodies;
            push_body(bodies, cb.owner, half);
            proof {
                lemma_layout_trans(pre, mid, *bodies);
                lemma_movements_trans(pre, mid, *bodies);
            }
        },
        (BodyStatus::Kinematic, BodyStatus::Static) => {
            push_body(bodies, ca.owner, correction.mul_scalar(FP::from_bits(-ONE_BITS)));
        },
        (BodyStatus::Static, BodyStatus::Kinematic) => {
            push_body(bodies, cb.owner, correction);
        },
        (BodyStatus::Static, BodyStatus::Static) => {
            proof {
                assert(false);
            }
        },
    }
}

/// The tracked pairs of `s` are exactly the eligible overlapping pairs of
/// the incoming stores whose slot-index pair precedes `(i, j)` in the
/// pass's lexicographic visiting order.
spec fn pairs_upto<T: Copy>(
    orig: BodySet,
    colliders: ColliderSet<T>,
    s: Seq<TouchEntry<T>>,
    i: int,
    j: int,
) -> bool {
    forall|a: ColliderHandle, b: ColliderHandle| #[trigger]
        has_pair(s, a, b) == ((a.index < i || (a.index == i && b.index < j)) && pair_eligible(
            orig,
            colliders,
            a,
            b,
        ) && pair_overlapping(orig, colliders, a, b))
}

/// Nothing is tracked before the pass visits its first pair.
proof fn lemma_pairs_upto_empty<T: Copy>(orig: BodySet, colliders: ColliderSet<T>)
    ensures
        pairs_upto(orig, colliders, Seq::<TouchEntry<T>>::empty(), 0, 0),
{
    assert forall|a: ColliderHandle, b: ColliderHandle|
        has_pair(Seq::<TouchEntry<T>>::empty(), a, b) == ((a.index < 0 || (a.index == 0 && b.index
            < 0)) && #[trigger] pair_eligible(orig, colliders, a, b) && pair_overlapping(
            orig,
            colliders,
            a,
            b,
        )) by {
        assert(!has_pair(Seq::<TouchEntry<T>>::empty(), a, b));
    }
}

/// Row `i` of the pass starts at column `i + 1`: an eligible pair's second
/// index always exceeds its first, so no pair of row `i` precedes it.
proof fn lemma_row_start<T: Copy>(
    orig: BodySet,
    colliders: ColliderSet<T>,
    s: Seq<TouchEntry<T>>,
    i: int,
)
    requires
        pairs_upto(orig, colliders, s, i, 0),
    ensures
        pairs_upto(orig, colliders, s, i, i + 1),
{
    assert forall|a: ColliderHandle, b: ColliderHandle|
        has_pair(s, a, b) == ((a.index < i || (a.index == i && b.index < i + 1)) && #[trigger]
        pair_eligible(orig, colliders, a, b) && pair_overlapping(orig, colliders, a, b)) by {
        assert(has_pair(s, a, b) == ((a.index < i || (a.index == i && b.index < 0)) && pair_eligible(
            orig,
            colliders,
            a,
            b,
        ) && pair_overlapping(orig, colliders, a, b)));
        if a.index == i && b.index < i + 1 && pair_eligible(orig, colliders, a, b) {
            assert(a.index < b.index);
        }
    }
}

/// After the last column, row `i` is complete: an eligible pair's second
/// index is always a live slot, so the whole row precedes `(i + 1, 0)`.
proof fn lemma_row_end<T: Copy>(
    orig: BodySet,
    colliders: ColliderSet<T>,
    s: Seq<TouchEntry<T>>,
    i: int,
)
    requires
        pairs_upto(orig, colliders, s, i, colliders.slots@.len() as int),
    ensures
        pairs_upto(orig, colliders, s, i + 1, 0),
{
    let n = colliders.slots@.len() as int;
    assert forall|a: ColliderHandle, b: ColliderHandle|
        has_pair(s, a, b) == ((a.index < i + 1 || (a.index == i + 1 && b.index < 0)) && #[trigger]
        pair_eligible(orig, colliders, a, b) && pair_overlapping(orig, colliders, a, b)) by {
        assert(has_pair(s, a, b) == ((a.index < i || (a.index == i && b.index < n))
            && pair_eligible(orig, colliders, a, b) && pair_overlapping(orig, colliders, a, b)));
        if pair_eligible(orig, colliders, a, b) {
            assert(colliders.valid(b));
            assert(b.index < n);
        }
    }
}

/// After the last row the pass has visited every pair: the tracked pairs
/// are exactly the eligible overlapping pairs.
proof fn lemma_pairs_complete<T: Copy>(
    orig: BodySet,
    colliders: ColliderSet<T>,
    s: Seq<TouchEntry<T>>,
)
    requires
        pairs_upto(orig, colliders, s, colliders.slots@.len() as int, 0),
    ensures
        table_matches_geometry(orig, colliders, s),
{
    let n = colliders.slots@.len() as int;
    assert forall|a: ColliderHandle, b: ColliderHandle|
        has_pair(s, a, b) == (#[trigger] pair_eligible(orig, colliders, a, b) && pair_overlapping(
            orig,
            colliders,
            a,
            b,
        )) by {
        assert(has_pair(s, a, b) == ((a.index < n || (a.index == n && b.index < 0))
            && pair_eligible(orig, colliders, a, b) && pair_overlapping(orig, colliders, a, b)));
        if pair_eligible(orig, colliders, a, b) {
            assert(colliders.valid(a));
            assert(a.index < n);
        }
    }
}

/// One pass over all candidate pairs in ascending slot-index order: record
/// every overlapping eligible pair, resolving solid-vs-solid contacts by
/// pushing the kinematic side(s) as the pass goes. The result and the final
/// store are exactly `spec_detect_resolve`; when the stores come in settled,
/// no position changes and the recorded pairs are exactly the eligible
/// overlapping pairs.
#[verifier::spinoff_prover]
#[verifier::rlimit(100)]
fn detect_and_resolve<T: Copy>(bodies: &mut BodySet, colliders: &ColliderSet<T>) -> (r: Vec<
    TouchEntry<T>,
>)
    ensures
        final(bodies).slots@ == spec_detect_resolve(old(bodies).slots@, *colliders).0,
        r@ == spec_detect_resolve(old(bodies).slots@, *colliders).1,
        bodies_layout_preserved(*old(bodies), *final(bodies)),
        static_positions_unchanged(*old(bodies), *final(bodies)),
        movements_unchanged(*old(bodies), *final(bodies)),
        r@.len() == 0 ==> positions_unchanged(*old(bodies), *final(bodies)),
        entries_sorted(r@),
        forall|k: int| 0 <= k < r@.len() ==> touch_entry_wf(*final(bodies), *colliders, r@[k]),
        settled(*old(bodies), *colliders) ==> {
            &&& positions_unchanged(*old(bodies), *final(bodies))
            &&& table_matches_geometry(*old(bodies), *colliders, r@)
        },
{
    let ghost total = spec_detect_resolve(old(bodies).slots@, *colliders);
    let n = colliders.slots.len();
    let mut r: Vec<TouchEntry<T>> = Vec::new();
    let mut i: usize = 0;
    proof {
        lemma_pairs_upto_empty::<T>(*bodies, *colliders);
        assert(Seq::<TouchEntry<T>>::empty() + total.1 =~= total.1);
    }
    while i < n
        invariant
            n == colliders.slots@.len(),
            i <= n,
            total == spec_detect_resolve(old(bodies).slots@, *colliders),
            spec_pass_from(bodies.slots@, *colliders, i as int).0 == total.0,
            r@ + spec_pass_from(bodies.slots@, *colliders, i as int).1 == total.1,
            bodies_layout_preserved(*old(bodies), *bodies),
            static_positions_unchanged(*old(bodies), *bodies),
            movements_unchanged(*old(bodies), *bodies),
            r@.len() == 0 ==> positions_unchanged(*old(bodies), *bodies),
            entries_sorted(r@),
            forall|k: int| 0 <= k < r@.len() ==> touch_entry_wf(*bodies, *colliders, r@[k]),
            forall|k: int| 0 <= k < r@.len() ==> (#[trigger] r@[k]).a.index < i,
            settled(*old(bodies), *colliders) ==> {
                &&& positions_unchanged(*old(bodies), *bodies)
                &&& pairs_upto(*old(bodies), *colliders, r@, i as int, 0)
            },
        decreases n - i,
    {
        let mut j: usize = i + 1;
        proof {
            if settled(*old(bodies), *colliders) {
                lemma_row_start(*old(bodies), *colliders, r@, i as int);
            }
            assert(spec_pass_from(bodies.slots@, *colliders, i as int) == spec_pass_mid(
                bodies.slots@,
                *colliders,
                i as int,
                i as int + 1,
            ));
        }
        while j < n
            invariant
                n == colliders.slots@.len(),
                i < n,
                i < j <= n,
                total == spec_detect_resolve(old(bodies).slots@, *colliders),
                spec_pass_mid(bodies.slots@, *colliders, i as int, j as int).0 == total.0,
                r@ + spec_pass_mid(bodies.slots@, *colliders, i as int, j as int).1 == total.1,
                bodies_layout_preserved(*old(bodies), *bodies),
                static_positions_unchanged(*old(bodies), *bodies),
                movements_unchanged(*old(bodies), *bodies),
                r@.len() == 0 ==> positions_unchanged(*old(bodies), *bodies),
                entries_sorted(r@),
                forall|k: int| 0 <= k < r@.len() ==> touch_entry_wf(*bodies, *colliders, r@[k]),
                forall|k: int|
                    0 <= k < r@.len() ==> ((#[trigger] r@[k]).a.index < i || (r@[k].a.index == i
                        && r@[k].b.index < j)),
                settled(*old(bodies), *colliders) ==> {
                    &&& positions_unchanged(*old(bodies), *bodies)
                    &&& pairs_upto(*old(bodies), *colliders, r@, i as int, j as int)
                },
            decreases n - j,
        {
            let ghost ha_g = handle_at(*colliders, i as int);
            let ghost hb_g = handle_at(*colliders, j as int);
            let ghost r_before = r@;
            let ghost bodies_before = *bodies;
            let decision = pair_check(bodies, colliders, i, j);
            let recorded = decision.is_some();
            match decision {
                Some((entry, best)) => {
                    proof {
                        assert(touch_entry_wf(*bodies, *colliders, entry));
                        assert forall|k1: int, k2: int|
                            0 <= k1 < k2 < r@.push(entry).len() implies entry_key_lt(
                            r@.push(entry)[k1],
                            r@.push(entry)[k2],
                        ) by {
                            if k2 == r@.len() as int {
                                assert(r@[k1].a.index < i || (r@[k1].a.index == i && r@[k1].b.index
                                    < j));
                            }
                        }
                    }
                    r.push(entry);
                    if matches!(entry.kind, TouchKind::Collision) {
                        proof {
                            if settled(*old(bodies), *colliders) {
                                lemma_wf_transfer(*old(bodies), *bodies, *colliders);
                                lemma_overlap_transfer(*old(bodies), *bodies, *colliders);
                                assert(pair_eligible(*old(bodies), *colliders, ha_g, hb_g));
                                assert(pair_kind(*colliders, ha_g, hb_g) is Collision);
                                assert(pair_overlapping(*old(bodies), *colliders, ha_g, hb_g));
                                assert(false);
                            }
                        }
                        resolve_contact(bodies, colliders, i, j, best);
                        proof {
                            lemma_layout_trans(*old(bodies), bodies_before, *bodies);
                            lemma_static_pos_trans(*old(bodies), bodies_before, *bodies);
                            lemma_movements_trans(*old(bodies), bodies_before, *bodies);
                            lemma_wf_transfer(bodies_before, *bodies, *colliders);
                        }
                    }
                },
                None => {},
            }
            proof {
                if recorded {
                    assert(r@.drop_last() =~= r_before);
                }
                assert forall|a: ColliderHandle, b: ColliderHandle| #[trigger]
                    has_pair(r@, a, b) == (has_pair(r_before, a, b) || (recorded && a == ha_g && b
                        == hb_g)) by {
                    if recorded {
                        assert(r@ =~= r_before.push(r@.last()));
                        lemma_has_pair_push(r_before, r@.last(), a, b);
                    }
                }
                if settled(*old(bodies), *colliders) {
                    lemma_iff_extends(
                        *old(bodies),
                        bodies_before,
                        *colliders,
                        r_before,
                        r@,
                        recorded,
                        ha_g,
                        hb_g,
                        i as int,
                        j as int,
                    );
                }
                // carry the exact pass characterization from column j to j + 1
                let cur = bodies_before.slots@;
                let visited = spec_visit_pair(cur, *colliders, i as int, j as int);
                if recorded {
                    let entry = decision.unwrap().0;
                    assert(entry == spec_touch_entry_in(cur, *colliders, ha_g, hb_g));
                    assert(visited.1 =~= seq![entry]);
                    if pair_kind(*colliders, ha_g, hb_g) is Collision {
                        assert(visited.0 == spec_resolve(cur, *colliders, i as int, j as int));
                        assert(visited.0 == bodies.slots@);
                    } else {
                        assert(visited.0 == bodies.slots@);
                    }
                    assert(r@ =~= r_before.push(entry));
                    assert(r_before.push(entry) + spec_pass_mid(
                        bodies.slots@,
                        *colliders,
                        i as int,
                        j as int + 1,
                    ).1 =~= r_before + (seq![entry] + spec_pass_mid(
                        bodies.slots@,
                        *colliders,
                        i as int,
                        j as int + 1,
                    ).1));
                } else {
                    assert(visited.0 == cur && visited.1 =~= Seq::<TouchEntry<T>>::empty());
                    assert(visited.0 == bodies.slots@);
                }
                assert(spec_pass_row(cur, *colliders, i as int, j as int).0 == spec_pass_row(
                    bodies.slots@,
                    *colliders,
                    i as int,
                    j as int + 1,
                ).0);
                assert(spec_pass_row(cur, *colliders, i as int, j as int).1 =~= visited.1
                    + spec_pass_row(bodies.slots@, *colliders, i as int, j as int + 1).1);
                assert(spec_pass_mid(cur, *colliders, i as int, j as int).0 == spec_pass_mid(
                    bodies.slots@,
                    *colliders,
                    i as int,
                    j as int + 1,
                ).0);
                assert(spec_pass_mid(cur, *colliders, i as int, j as int).1 =~= visited.1
                    + spec_pass_mid(bodies.slots@, *colliders, i as int, j as int + 1).1);
                assert(r@ + spec_pass_mid(bodies.slots@, *colliders, i as int, j as int + 1).1
                    =~= r_before + spec_pass_mid(cur, *colliders, i as int, j as int).1);
            }
            j += 1;
        }
        proof {
            if settled(*old(bodies), *colliders) {
                lemma_row_end(*old(bodies), *colliders, r@, i as int);
            }
            assert(spec_pass_row(bodies.slots@, *colliders, i as int, n as int).1
                + spec_pass_from(bodies.slots@, *colliders, i as int + 1).1 =~= spec_pass_from(
                bodies.slots@,
                *colliders,
                i as int + 1,
            ).1);
        }
        i += 1;
    }
    proof {
        if settled(*old(bodies), *colliders) {
            lemma_pairs_complete(*old(bodies), *colliders, r@);
        }
        assert(r@ + spec_pass_from(bodies.slots@, *colliders, n as int).1 =~= r@);
    }
    r
}

/// The pair characterization invariant of the detection pass extends from
/// column `j` to column `j + 1` once the pair `(i, j)` has been decided.
proof fn lemma_iff_extends<T: Copy>(
    orig: BodySet,
    cur: BodySet,
    colliders: ColliderSet<T>,
    before: Seq<TouchEntry<T>>,
    after: Seq<TouchEntry<T>>,
    recorded: bool,
    ha: ColliderHandle,
    hb: ColliderHandle,
    i: int,
    j: int,
)
    requires
        0 <= i < j < colliders.slots@.len(),
        j <= usize::MAX as int,
        ha == handle_at(colliders, i),
        hb == handle_at(colliders, j),
        bodies_layout_preserved(orig, cur),
        positions_unchanged(orig, cur),
        forall|a: ColliderHandle, b: ColliderHandle| #[trigger]
            has_pair(after, a, b) == (has_pair(before, a, b) || (recorded && a == ha && b == hb)),
        pairs_upto(orig, colliders, before, i, j),
        recorded == (pair_eligible(cur, colliders, ha, hb) && pair_overlapping(
            cur,
            colliders,
            ha,
            hb,
        )),
    ensures
        pairs_upto(orig, colliders, after, i, j + 1),
{
    lemma_wf_transfer(orig, cur, colliders);
    lemma_overlap_transfer(orig, cur, colliders);
    assert(pair_eligible(cur, colliders, ha, hb) == pair_eligible(orig, colliders, ha, hb));
    assert forall|a: ColliderHandle, b: ColliderHandle|
        has_pair(after, a, b) == ((a.index < i || (a.index == i && b.index < j + 1))
            && #[trigger] pair_eligible(orig, colliders, a, b) && pair_overlapping(
            orig,
            colliders,
            a,
            b,
        )) by {
        assert(has_pair(after, a, b) == (has_pair(before, a, b) || (recorded && a == ha && b
            == hb)));
        assert(has_pair(before, a, b) == ((a.index < i || (a.index == i && b.index < j))
            && pair_eligible(orig, colliders, a, b) && pair_overlapping(orig, colliders, a, b)));
        if a.index == i && b.index == j {
            if pair_eligible(orig, colliders, a, b) {
                assert(colliders.valid(a) && colliders.valid(b));
                assert(a.generation == colliders.slots@[i].generation);
                assert(b.generation == colliders.slots@[j].generation);
                assert(a == ha && b == hb);
                if recorded {
                    assert(pair_overlapping(cur, colliders, ha, hb));
                    assert(pair_overlapping(orig, colliders, ha, hb));
                } else {
                    assert(!(pair_eligible(cur, colliders, ha, hb) && pair_overlapping(
                        cur,
                        colliders,
                        ha,
                        hb,
                    )));
                    assert(!pair_overlapping(orig, colliders, a, b));
                }
            } else {
                if a == ha && b == hb {
                    assert(!pair_eligible(cur, colliders, ha, hb));
                    assert(!recorded);
                }
            }
        } else {
            if recorded && a == ha && b == hb {
                assert(a.index == i && b.index == j);
            }
        }
    }
}

impl<T: Copy> PhysicsWorld<T> {
    /// Advance the simulation by one tick of length `dt`.
    ///
    /// Every kinematic body first moves by `velocity * dt`. Every unordered
    /// collider pair that is eligible — both handles and owners resolve,
    /// not two colliders of a non-self-colliding body, not two static
    /// bodies, bitmasks mutually compatible — is then visited in ascending
    /// slot-index order and tested at the positions current at its visit.
    /// An overlapping solid-vs-solid pair is recorded as a collision and
    /// resolved at once by pushing the kinematic side(s) out along the best
    /// contact; an overlapping pair with sensor involvement is recorded as
    /// a detection-only overlap. The new touching table replaces the old
    /// one, and the event batch is replaced by the diff of the two tables.
    ///
    /// The resulting body slots and touching table are pinned exactly, for
    /// every tick length and every store state, by `spec_step`: the
    /// movement phase followed by the pass over every pair in visiting
    /// order, each pair decided — and each recorded entry's kind, tags and
    /// contact normal taken — at the positions current at its visit.
    #[verifier::rlimit(60)]
    pub fn step(&mut self, dt: FP, bodies: &mut BodySet, colliders: &mut ColliderSet<T>)
        ensures
            *final(colliders) == *old(colliders),
            final(bodies).slots@ == spec_step(old(bodies).slots@, *old(colliders), dt@).0,
            final(self).touching@ == spec_step(old(bodies).slots@, *old(colliders), dt@).1,
            final(self).events@ == diff_events(old(self).touching@, final(self).touching@),
            entries_sorted(final(self).touching@),
            forall|k: int|
                0 <= k < final(self).touching@.len() ==> touch_entry_wf(
                    *final(bodies),
                    *final(colliders),
                    final(self).touching@[k],
                ),
            bodies_layout_preserved(*old(bodies), *final(bodies)),
            static_positions_unchanged(*old(bodies), *final(bodies)),
            forall|k: int|
                0 <= k < old(bodies).slots@.len() && (#[trigger] old(
                    bodies,
                ).slots@[k]).body.is_some() ==> final(bodies).slots@[k].body.unwrap().movement == (
                if old(bodies).slots@[k].body.unwrap().status is Kinematic {
                    spec_vscale(old(bodies).slots@[k].body.unwrap().velocity, dt@)
                } else {
                    Vec2 { x: FP { bits: 0 }, y: FP { bits: 0 } }
                }),
            final(self).touching@.len() == 0 ==> moved_by_velocity(
                *old(bodies),
                *final(bodies),
                dt@,
            ),
            (dt@ == 0 && settled(*old(bodies), *old(colliders))) ==> {
                &&& positions_unchanged(*old(bodies), *final(bodies))
                &&& table_matches_geometry(*old(bodies), *old(colliders), final(self).touching@)
            },
    {
        apply_movement(bodies, dt);
        let ghost moved = *bodies;
        let touching_new = detect_and_resolve(bodies, colliders);
        proof {
            lemma_layout_trans(*old(bodies), moved, *bodies);
            lemma_static_pos_trans(*old(bodies), moved, *bodies);
            assert forall|k: int|
                0 <= k < old(bodies).slots@.len() && (#[trigger] old(
                    bodies,
                ).slots@[k]).body.is_some() implies bodies.slots@[k].body.unwrap().movement == (
            if old(bodies).slots@[k].body.unwrap().status is Kinematic {
                spec_vscale(old(bodies).slots@[k].body.unwrap().velocity, dt@)
            } else {
                Vec2 { x: FP { bits: 0 }, y: FP { bits: 0 } }
            }) by {
                assert(moved_slot_by_velocity(
                    old(bodies).slots@[k].body.unwrap(),
                    moved.slots@[k].body.unwrap(),
                    dt@,
                ));
                assert(moved.slots@[k].body.is_some());
                assert(bodies.slots@[k].body.unwrap().movement
                    == moved.slots@[k].body.unwrap().movement);
            }
            if touching_new@.len() == 0 {
                assert forall|k: int|
                    0 <= k < old(bodies).slots@.len() && (#[trigger] old(
                        bodies,
                    ).slots@[k]).body.is_some() implies moved_slot_by_velocity(
                    old(bodies).slots@[k].body.unwrap(),
                    bodies.slots@[k].body.unwrap(),
                    dt@,
                ) by {
                    assert(moved_slot_by_velocity(
                        old(bodies).slots@[k].body.unwrap(),
                        moved.slots@[k].body.unwrap(),
                        dt@,
                    ));
                    assert(moved.slots@[k].body.is_some());
                    assert(bodies.slots@[k].body.unwrap().position
                        == moved.slots@[k].body.unwrap().position);
                    assert(bodies.slots@[k].body.unwrap().movement
                        == moved.slots@[k].body.unwrap().movement);
                }
            }
            let ghost cset = *old(colliders);
            assert(*colliders == cset);
            assert(moved.slots@ == spec_apply_movement(old(bodies).slots@, dt@));
            assert(bodies.slots@ == spec_detect_resolve(moved.slots@, cset).0);
            assert(touching_new@ == spec_detect_resolve(moved.slots@, cset).1);
            assert(bodies.slots@ == spec_step(old(bodies).slots@, cset, dt@).0);
            assert(touching_new@ == spec_step(old(bodies).slots@, cset, dt@).1);
            if dt@ == 0 && settled(*old(bodies), cset) {
                lemma_overlap_transfer(*old(bodies), moved, cset);
                assert(settled(moved, cset));
                assert(table_matches_geometry(moved, cset, touching_new@));
                lemma_table_geometry_transfer(*old(bodies), moved, cset, touching_new@);
            }
        }
        let events = crate::world::compute_events(&self.touching, &touching_new);
        self.events = events;
        self.touching = touching_new;
    }
}

} // verus!

