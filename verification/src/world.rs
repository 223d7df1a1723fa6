//! The simulation world: cross-tick touching-pair state, contact-event
//! diffing, interaction introspection, and collider removal with purging.
//!
//! The world owns no entities; it keeps the previous tick's touching-pair
//! table and the current tick's event batch, both replaced inside `step`.

use vstd::prelude::*;

use crate::body::body_at_in;
use crate::body::body_valid_at;
use crate::body::BodySet;
use crate::body::BodySlot;
use crate::collider::Collider;
use crate::collider::ColliderSet;
use crate::collider::ColliderSlot;
use crate::event::ContactEvent;
use crate::handle::ColliderHandle;
use crate::handle::PhysicsError;
use crate::fp::fp_mul;
use crate::fp::FP;
use crate::fp::ONE_BITS;
use crate::shape::spec_best_contact;
use crate::shape::spec_manifold;
use crate::shape::spec_overlap;
use crate::vector2::spec_vadd;
use crate::vector2::Vec2;

verus! {

/// How a touching pair interacts: a collision is resolved, an overlap is
/// detection-only.
#[derive(Clone, Copy, Debug, PartialEq, Eq, Structural)]
pub enum TouchKind {
    /// Solid-vs-solid contact that positional resolution acts on.
    Collision,
    /// Contact with sensor involvement; reported, never resolved.
    Overlap,
}

/// Contact information exposed by interaction introspection: the resolved
/// contact normal, oriented away from the queried collider.
#[derive(Clone, Copy, Debug, PartialEq, Eq, Structural)]
pub struct ContactInfo {
    pub normal: Vec2,
}

/// One touching pair tracked across ticks: both handles in the order first
/// established (ascending slot index), the interaction kind, the last best
/// contact normal (pointing from `a` toward `b`), and both opaque tags.
#[derive(Clone, Copy, Debug)]
pub struct TouchEntry<T> {
    pub a: ColliderHandle,
    pub b: ColliderHandle,
    pub kind: TouchKind,
    pub normal: Vec2,
    pub tag_a: T,
    pub tag_b: T,
}

/// Some entry of `s` tracks exactly the ordered pair `(a, b)`.
pub open spec fn has_pair<T>(s: Seq<TouchEntry<T>>, a: ColliderHandle, b: ColliderHandle) -> bool {
    exists|k: int| 0 <= k < s.len() && s[k].a == a && s[k].b == b
}

/// Strict ascending order on the slot-index pairs of two entries.
pub open spec fn entry_key_lt<T>(e1: TouchEntry<T>, e2: TouchEntry<T>) -> bool {
    e1.a.index < e2.a.index || (e1.a.index == e2.a.index && e1.b.index < e2.b.index)
}

/// The entries are strictly sorted by slot-index pair, so every tracked
/// pair appears at most once.
pub open spec fn entries_sorted<T>(s: Seq<TouchEntry<T>>) -> bool {
    forall|i: int, j: int| 0 <= i < j < s.len() ==> entry_key_lt(s[i], s[j])
}

/// The start event a newly touching entry produces.
pub open spec fn start_event<T>(e: TouchEntry<T>) -> ContactEvent<T> {
    match e.kind {
        TouchKind::Collision => ContactEvent::CollisionStarted(e.a, e.b, e.tag_a, e.tag_b),
        TouchKind::Overlap => ContactEvent::OverlapStarted(e.a, e.b, e.tag_a, e.tag_b),
    }
}

/// The stop event a separated entry produces.
pub open spec fn stop_event<T>(e: TouchEntry<T>) -> ContactEvent<T> {
    match e.kind {
        TouchKind::Collision => ContactEvent::CollisionStopped(e.a, e.b, e.tag_a, e.tag_b),
        TouchKind::Overlap => ContactEvent::OverlapStopped(e.a, e.b, e.tag_a, e.tag_b),
    }
}

/// Start events of one tick: one per entry of the new touching table whose
/// pair the previous table did not track, in table order.
pub open spec fn started_events<T>(prev: Seq<TouchEntry<T>>, next: Seq<TouchEntry<T>>) -> Seq<
    ContactEvent<T>,
>
    decreases next.len(),
{
    if next.len() == 0 {
        Seq::empty()
    } else {
        let rest = started_events(prev, next.drop_last());
        if has_pair(prev, next.last().a, next.last().b) {
            rest
        } else {
            rest.push(start_event(next.last()))
        }
    }
}

/// Stop events of one tick: one per entry of the previous touching table
/// whose pair the new table no longer tracks, in table order.
pub open spec fn stopped_events<T>(prev: Seq<TouchEntry<T>>, next: Seq<TouchEntry<T>>) -> Seq<
    ContactEvent<T>,
>
    decreases prev.len(),
{
    if prev.len() == 0 {
        Seq::empty()
    } else {
        let rest = stopped_events(prev.drop_last(), next);
        if has_pair(next, prev.last().a, prev.last().b) {
            rest
        } else {
            rest.push(stop_event(prev.last()))
        }
    }
}

/// The full event batch of one tick: all start events, then all stop
/// events.
pub open spec fn diff_events<T>(prev: Seq<TouchEntry<T>>, next: Seq<TouchEntry<T>>) -> Seq<
    ContactEvent<T>,
> {
    started_events(prev, next) + stopped_events(prev, next)
}

/// The event is a start event for exactly the ordered pair `(a, b)`.
pub open spec fn is_started_for<T>(ev: ContactEvent<T>, a: ColliderHandle, b: ColliderHandle) -> bool {
    match ev {
        ContactEvent::CollisionStarted(x, y, _, _) => x == a && y == b,
        ContactEvent::OverlapStarted(x, y, _, _) => x == a && y == b,
        _ => false,
    }
}

/// The event is a stop event for exactly the ordered pair `(a, b)`.
pub open spec fn is_stopped_for<T>(ev: ContactEvent<T>, a: ColliderHandle, b: ColliderHandle) -> bool {
    match ev {
        ContactEvent::CollisionStopped(x, y, _, _) => x == a && y == b,
        ContactEvent::OverlapStopped(x, y, _, _) => x == a && y == b,
        _ => false,
    }
}

/// How many events of the batch start the ordered pair `(a, b)`.
pub open spec fn count_started_for<T>(
    s: Seq<ContactEvent<T>>,
    a: ColliderHandle,
    b: ColliderHandle,
) -> int
    decreases s.len(),
{
    if s.len() == 0 {
        0
    } else {
        count_started_for(s.drop_last(), a, b) + if is_started_for(s.last(), a, b) {
            1int
        } else {
            0int
        }
    }
}

/// How many events of the batch stop the ordered pair `(a, b)`.
pub open spec fn count_stopped_for<T>(
    s: Seq<ContactEvent<T>>,
    a: ColliderHandle,
    b: ColliderHandle,
) -> int
    decreases s.len(),
{
    if s.len() == 0 {
        0
    } else {
        count_stopped_for(s.drop_last(), a, b) + if is_stopped_for(s.last(), a, b) {
            1int
        } else {
            0int
        }
    }
}

/// How many entries of a touching table track the ordered pair `(a, b)`.
pub open spec fn count_pair<T>(s: Seq<TouchEntry<T>>, a: ColliderHandle, b: ColliderHandle) -> int
    decreases s.len(),
{
    if s.len() == 0 {
        0
    } else {
        count_pair(s.drop_last(), a, b) + if s.last().a == a && s.last().b == b {
            1int
        } else {
            0int
        }
    }
}

proof fn lemma_count_started_append<T>(
    s1: Seq<ContactEvent<T>>,
    s2: Seq<ContactEvent<T>>,
    a: ColliderHandle,
    b: ColliderHandle,
)
    ensures
        count_started_for(s1 + s2, a, b) == count_started_for(s1, a, b) + count_started_for(
            s2,
            a,
            b,
        ),
    decreases s2.len(),
{
    if s2.len() == 0 {
        assert(s1 + s2 =~= s1);
    } else {
        lemma_count_started_append(s1, s2.drop_last(), a, b);
        assert((s1 + s2).drop_last() =~= s1 + s2.drop_last());
    }
}

proof fn lemma_count_stopped_append<T>(
    s1: Seq<ContactEvent<T>>,
    s2: Seq<ContactEvent<T>>,
    a: ColliderHandle,
    b: ColliderHandle,
)
    ensures
        count_stopped_for(s1 + s2, a, b) == count_stopped_for(s1, a, b) + count_stopped_for(
            s2,
            a,
            b,
        ),
    decreases s2.len(),
{
    if s2.len() == 0 {
        assert(s1 + s2 =~= s1);
    } else {
        lemma_count_stopped_append(s1, s2.drop_last(), a, b);
        assert((s1 + s2).drop_last() =~= s1 + s2.drop_last());
    }
}

/// Start events count exactly the new-table entries for the pair that the
/// previous table did not track; stop events never start a pair.
proof fn lemma_count_started<T>(
    prev: Seq<TouchEntry<T>>,
    next: Seq<TouchEntry<T>>,
    a: ColliderHandle,
    b: ColliderHandle,
)
    ensures
        count_started_for(started_events(prev, next), a, b) == if has_pair(prev, a, b) {
            0int
        } else {
            count_pair(next, a, b)
        },
        count_stopped_for(started_events(prev, next), a, b) == 0,
    decreases next.len(),
{
    if next.len() > 0 {
        lemma_count_started(prev, next.drop_last(), a, b);
        if !has_pair(prev, next.last().a, next.last().b) {
            let rest = started_events(prev, next.drop_last());
            assert(rest.push(start_event(next.last())).drop_last() =~= rest);
        }
    }
}

/// Stop events count exactly the previous-table entries for the pair that
/// the new table no longer tracks; start events never stop a pair.
proof fn lemma_count_stopped<T>(
    prev: Seq<TouchEntry<T>>,
    next: Seq<TouchEntry<T>>,
    a: ColliderHandle,
    b: ColliderHandle,
)
    ensures
        count_stopped_for(stopped_events(prev, next), a, b) == if has_pair(next, a, b) {
            0int
        } else {
            count_pair(prev, a, b)
        },
        count_started_for(stopped_events(prev, next), a, b) == 0,
    decreases prev.len(),
{
    if prev.len() > 0 {
        lemma_count_stopped(prev.drop_last(), next, a, b);
        if !has_pair(next, prev.last().a, prev.last().b) {
            let rest = stopped_events(prev.drop_last(), next);
            assert(rest.push(stop_event(prev.last())).drop_last() =~= rest);
        }
    }
}

/// A strictly sorted table tracks a pair at most once, and tracks it at
/// least once exactly when `has_pair` holds.
proof fn lemma_sorted_count_pair<T>(s: Seq<TouchEntry<T>>, a: ColliderHandle, b: ColliderHandle)
    requires
        entries_sorted(s),
    ensures
        count_pair(s, a, b) == if has_pair(s, a, b) {
            1int
        } else {
            0int
        },
    decreases s.len(),
{
    if s.len() > 0 {
        assert(entries_sorted(s.drop_last()));
        lemma_sorted_count_pair(s.drop_last(), a, b);
        if s.last().a == a && s.last().b == b {
            assert(!has_pair(s.drop_last(), a, b)) by {
                if has_pair(s.drop_last(), a, b) {
                    let k = choose|k: int|
                        0 <= k < s.drop_last().len() && s.drop_last()[k].a == a && s.drop_last()[k].b
                            == b;
                    assert(entry_key_lt(s[k], s[s.len() - 1]));
                }
            }
        } else {
            if has_pair(s, a, b) {
                let k = choose|k: int| 0 <= k < s.len() && s[k].a == a && s[k].b == b;
                assert(0 <= k < s.len() - 1);
                assert(s.drop_last()[k].a == a && s.drop_last()[k].b == b);
                assert(has_pair(s.drop_last(), a, b));
            }
        }
    }
}

/// Event pairing, onset side: one tick's batch carries exactly one start
/// event for a pair when the pair is newly tracked, and none otherwise —
/// in particular none while the pair stays tracked, so two start events
/// can never occur without an intervening stop.
pub proof fn lemma_started_once_per_onset<T>(
    prev: Seq<TouchEntry<T>>,
    next: Seq<TouchEntry<T>>,
    a: ColliderHandle,
    b: ColliderHandle,
)
    requires
        entries_sorted(next),
    ensures
        count_started_for(diff_events(prev, next), a, b) == if !has_pair(prev, a, b) && has_pair(
            next,
            a,
            b,
        ) {
            1int
        } else {
            0int
        },
{
    lemma_count_started(prev, next, a, b);
    lemma_count_stopped(prev, next, a, b);
    lemma_sorted_count_pair(next, a, b);
    lemma_count_started_append(started_events(prev, next), stopped_events(prev, next), a, b);
}

/// Event pairing, separation side: one tick's batch carries exactly one
/// stop event for a pair when the pair just separated, and none otherwise.
pub proof fn lemma_stopped_once_per_separation<T>(
    prev: Seq<TouchEntry<T>>,
    next: Seq<TouchEntry<T>>,
    a: ColliderHandle,
    b: ColliderHandle,
)
    requires
        entries_sorted(prev),
    ensures
        count_stopped_for(diff_events(prev, next), a, b) == if has_pair(prev, a, b) && !has_pair(
            next,
            a,
            b,
        ) {
            1int
        } else {
            0int
        },
{
    lemma_count_started(prev, next, a, b);
    lemma_count_stopped(prev, next, a, b);
    lemma_sorted_count_pair(prev, a, b);
    lemma_count_stopped_append(started_events(prev, next), stopped_events(prev, next), a, b);
}

/// A batch that carries a start event for a pair leaves the pair tracked,
/// so the immediately following batch cannot start it again.
pub proof fn lemma_no_consecutive_started<T>(
    prev: Seq<TouchEntry<T>>,
    mid: Seq<TouchEntry<T>>,
    next: Seq<TouchEntry<T>>,
    a: ColliderHandle,
    b: ColliderHandle,
)
    requires
        entries_sorted(mid),
        entries_sorted(next),
        count_started_for(diff_events(prev, mid), a, b) > 0,
    ensures
        count_started_for(diff_events(mid, next), a, b) == 0,
{
    lemma_started_once_per_onset(prev, mid, a, b);
    lemma_started_once_per_onset(mid, next, a, b);
}

/// When the tracked pairs do not change between two ticks, the batch is
/// empty: no start and no stop events at all.
pub proof fn lemma_no_events_when_pairs_unchanged<T>(
    prev: Seq<TouchEntry<T>>,
    next: Seq<TouchEntry<T>>,
)
    requires
        forall|a: ColliderHandle, b: ColliderHandle| has_pair(prev, a, b) == has_pair(next, a, b),
    ensures
        diff_events(prev, next) == Seq::<ContactEvent<T>>::empty(),
{
    lemma_started_empty_when_covered(prev, next);
    lemma_stopped_empty_when_covered(prev, next);
    assert(diff_events(prev, next) =~= Seq::<ContactEvent<T>>::empty());
}

/// Idempotence of a zero-length tick: when the previous touching table
/// already tracks exactly the eligible overlapping pairs — as the table a
/// completed, resolved tick leaves behind does — and a zero-length step
/// recomputes a table with that same characterization (which `step`
/// guarantees for `dt == 0` on settled stores, while moving no body), the
/// batch is empty: no start and no stop events.
pub proof fn lemma_zero_tick_after_resolved_no_events<T: Copy>(
    bodies: BodySet,
    colliders: ColliderSet<T>,
    prev: Seq<TouchEntry<T>>,
    next: Seq<TouchEntry<T>>,
)
    requires
        table_matches_geometry(bodies, colliders, prev),
        table_matches_geometry(bodies, colliders, next),
    ensures
        diff_events(prev, next) == Seq::<ContactEvent<T>>::empty(),
{
    assert forall|a: ColliderHandle, b: ColliderHandle|
        has_pair(prev, a, b) == has_pair(next, a, b) by {
        assert(has_pair(prev, a, b) == (pair_eligible(bodies, colliders, a, b)
            && pair_overlapping(bodies, colliders, a, b)));
        assert(has_pair(next, a, b) == (pair_eligible(bodies, colliders, a, b)
            && pair_overlapping(bodies, colliders, a, b)));
    }
    lemma_no_events_when_pairs_unchanged(prev, next);
}

proof fn lemma_started_empty_when_covered<T>(prev: Seq<TouchEntry<T>>, next: Seq<TouchEntry<T>>)
    requires
        forall|a: ColliderHandle, b: ColliderHandle| has_pair(next, a, b) ==> has_pair(prev, a, b),
    ensures
        started_events(prev, next) == Seq::<ContactEvent<T>>::empty(),
    decreases next.len(),
{
    if next.len() > 0 {
        assert forall|a: ColliderHandle, b: ColliderHandle|
            has_pair(next.drop_last(), a, b) implies has_pair(prev, a, b) by {
            let k = choose|k: int|
                0 <= k < next.drop_last().len() && next.drop_last()[k].a == a
                    && next.drop_last()[k].b == b;
            assert(next[k].a == a && next[k].b == b);
            assert(has_pair(next, a, b));
        }
        lemma_started_empty_when_covered(prev, next.drop_last());
        let e = next.last();
        assert(next[next.len() - 1].a == e.a && next[next.len() - 1].b == e.b);
        assert(has_pair(next, e.a, e.b));
    }
}

proof fn lemma_stopped_empty_when_covered<T>(prev: Seq<TouchEntry<T>>, next: Seq<TouchEntry<T>>)
    requires
        forall|a: ColliderHandle, b: ColliderHandle| has_pair(prev, a, b) ==> has_pair(next, a, b),
    ensures
        stopped_events(prev, next) == Seq::<ContactEvent<T>>::empty(),
    decreases prev.len(),
{
    if prev.len() > 0 {
        assert forall|a: ColliderHandle, b: ColliderHandle|
            has_pair(prev.drop_last(), a, b) implies has_pair(next, a, b) by {
            let k = choose|k: int|
                0 <= k < prev.drop_last().len() && prev.drop_last()[k].a == a
                    && prev.drop_last()[k].b == b;
            assert(prev[k].a == a && prev[k].b == b);
            assert(has_pair(prev, a, b));
        }
        lemma_stopped_empty_when_covered(prev.drop_last(), next);
        let e = prev.last();
        assert(prev[prev.len() - 1].a == e.a && prev[prev.len() - 1].b == e.b);
        assert(has_pair(prev, e.a, e.b));
    }
}

/// Linear scan for a tracked pair.
fn contains_pair<T: Copy>(s: &Vec<TouchEntry<T>>, a: ColliderHandle, b: ColliderHandle) -> (r:
    bool)
    ensures
        r == has_pair(s@, a, b),
{
    let mut i: usize = 0;
    while i < s.len()
        invariant
            i <= s@.len(),
            forall|k: int| 0 <= k < i ==> !(s@[k].a == a && s@[k].b == b),
        decreases s@.len() - i,
    {
        let e = &s[i];
        if e.a.index == a.index && e.a.generation == a.generation && e.b.index == b.index
            && e.b.generation == b.generation {
            return true;
        }
        i += 1;
    }
    false
}

/// Diff the previous touching table against the new one into the tick's
/// event batch: starts for newly tracked pairs, then stops for pairs no
/// longer tracked.
pub(crate) fn compute_events<T: Copy>(prev: &Vec<TouchEntry<T>>, next: &Vec<TouchEntry<T>>) -> (r: Vec<
    ContactEvent<T>,
>)
    ensures
        r@ == diff_events(prev@, next@),
{
    let mut r: Vec<ContactEvent<T>> = Vec::new();
    let mut i: usize = 0;
    while i < next.len()
        invariant
            i <= next@.len(),
            r@ == started_events(prev@, next@.take(i as int)),
        decreases next@.len() - i,
    {
        let e = next[i];
        proof {
            assert(next@.take(i + 1int).drop_last() =~= next@.take(i as int));
            assert(next@.take(i + 1int).last() == next@[i as int]);
        }
        if !contains_pair(prev, e.a, e.b) {
            let ev = match e.kind {
                TouchKind::Collision => ContactEvent::CollisionStarted(e.a, e.b, e.tag_a, e.tag_b),
                TouchKind::Overlap => ContactEvent::OverlapStarted(e.a, e.b, e.tag_a, e.tag_b),
            };
            r.push(ev);
        }
        i += 1;
    }
    proof {
        assert(next@.take(next@.len() as int) =~= next@);
    }
    let ghost started = r@;
    let mut j: usize = 0;
    while j < prev.len()
        invariant
            j <= prev@.len(),
            started == started_events(prev@, next@),
            r@ == started + stopped_events(prev@.take(j as int), next@),
        decreases prev@.len() - j,
    {
        let e = prev[j];
        proof {
            assert(prev@.take(j + 1int).drop_last() =~= prev@.take(j as int));
            assert(prev@.take(j + 1int).last() == prev@[j as int]);
        }
        if !contains_pair(next, e.a, e.b) {
            let ev = match e.kind {
                TouchKind::Collision => ContactEvent::CollisionStopped(e.a, e.b, e.tag_a, e.tag_b),
                TouchKind::Overlap => ContactEvent::OverlapStopped(e.a, e.b, e.tag_a, e.tag_b),
            };
            r.push(ev);
            proof {
                assert(r@ =~= started + stopped_events(prev@.take(j + 1int), next@));
            }
        }
        j += 1;
    }
    proof {
        assert(prev@.take(prev@.len() as int) =~= prev@);
    }
    r
}

/// The handle that currently names slot `i` of the collider store.
pub open spec fn handle_at<T>(colliders: ColliderSet<T>, i: int) -> ColliderHandle {
    ColliderHandle { index: i as usize, generation: colliders.slots@[i].generation }
}

/// World-space center of a collider's box in the given body slots: its
/// owner's position plus the collider's local offset.
pub open spec fn collider_world_pos_in<T>(bslots: Seq<BodySlot>, c: Collider<T>) -> Vec2 {
    spec_vadd(body_at_in(bslots, c.owner).position, c.offset)
}

/// World-space center of a collider's box: its owner's position plus the
/// collider's local offset.
pub open spec fn collider_world_pos<T>(bodies: BodySet, c: Collider<T>) -> Vec2 {
    collider_world_pos_in(bodies.slots@, c)
}

/// Bitmask filter: each collider's category must intersect the other's
/// mask.
pub open spec fn masks_compatible<T>(ca: Collider<T>, cb: Collider<T>) -> bool {
    (ca.category & cb.mask) != 0 && (cb.category & ca.mask) != 0
}

/// The ordered pair `(ha, hb)` is a candidate the step considers: both
/// handles and both owners resolve, the colliders are distinct with
/// ascending slot index, same-body pairs are excluded unless the body
/// self-collides, static-vs-static pairs are excluded, and the bitmasks
/// are mutually compatible. Positions play no part.
pub open spec fn pair_eligible<T: Copy>(
    bodies: BodySet,
    colliders: ColliderSet<T>,
    ha: ColliderHandle,
    hb: ColliderHandle,
) -> bool {
    pair_eligible_in(bodies.slots@, colliders, ha, hb)
}

/// `pair_eligible` over a body slot sequence instead of a whole store.
pub open spec fn pair_eligible_in<T: Copy>(
    bslots: Seq<BodySlot>,
    colliders: ColliderSet<T>,
    ha: ColliderHandle,
    hb: ColliderHandle,
) -> bool {
    let ca = colliders.collider_at(ha);
    let cb = colliders.collider_at(hb);
    &&& colliders.valid(ha)
    &&& colliders.valid(hb)
    &&& ha.index < hb.index
    &&& body_valid_at(bslots, ca.owner)
    &&& body_valid_at(bslots, cb.owner)
    &&& (ca.owner != cb.owner || body_at_in(bslots, ca.owner).self_collide)
    &&& !(body_at_in(bslots, ca.owner).status is Static && body_at_in(bslots, cb.owner).status
        is Static)
    &&& masks_compatible(ca, cb)
}

/// The boxes of the two colliders overlap at their owners' current
/// positions.
pub open spec fn pair_overlapping<T: Copy>(
    bodies: BodySet,
    colliders: ColliderSet<T>,
    ha: ColliderHandle,
    hb: ColliderHandle,
) -> bool
    recommends
        pair_eligible(bodies, colliders, ha, hb),
{
    pair_overlapping_in(bodies.slots@, colliders, ha, hb)
}

/// `pair_overlapping` over a body slot sequence instead of a whole store.
pub open spec fn pair_overlapping_in<T: Copy>(
    bslots: Seq<BodySlot>,
    colliders: ColliderSet<T>,
    ha: ColliderHandle,
    hb: ColliderHandle,
) -> bool
    recommends
        pair_eligible_in(bslots, colliders, ha, hb),
{
    let ca = colliders.collider_at(ha);
    let cb = colliders.collider_at(hb);
    spec_overlap(
        collider_world_pos_in(bslots, ca),
        ca.shape.half_exts,
        collider_world_pos_in(bslots, cb),
        cb.shape.half_exts,
    )
}

/// A solid-vs-solid pair collides and is resolved; any sensor involvement
/// makes the pair a detection-only overlap.
pub open spec fn pair_kind<T: Copy>(
    colliders: ColliderSet<T>,
    ha: ColliderHandle,
    hb: ColliderHandle,
) -> TouchKind {
    if colliders.collider_at(ha).state is Solid && colliders.collider_at(hb).state is Solid {
        TouchKind::Collision
    } else {
        TouchKind::Overlap
    }
}

/// The touch entry the step records for an overlapping eligible pair: the
/// handles in ascending order, the pair's kind, the best contact normal of
/// the manifold at current positions, and both tags verbatim.
pub open spec fn spec_touch_entry<T: Copy>(
    bodies: BodySet,
    colliders: ColliderSet<T>,
    ha: ColliderHandle,
    hb: ColliderHandle,
) -> TouchEntry<T> {
    spec_touch_entry_in(bodies.slots@, colliders, ha, hb)
}

/// `spec_touch_entry` over a body slot sequence instead of a whole store.
pub open spec fn spec_touch_entry_in<T: Copy>(
    bslots: Seq<BodySlot>,
    colliders: ColliderSet<T>,
    ha: ColliderHandle,
    hb: ColliderHandle,
) -> TouchEntry<T> {
    let ca = colliders.collider_at(ha);
    let cb = colliders.collider_at(hb);
    TouchEntry {
        a: ha,
        b: hb,
        kind: pair_kind(colliders, ha, hb),
        normal: spec_best_contact(
            spec_manifold(
                collider_world_pos_in(bslots, ca),
                ca.shape.half_exts,
                collider_world_pos_in(bslots, cb),
                cb.shape.half_exts,
            ),
        ).normal,
        tag_a: ca.tag,
        tag_b: cb.tag,
    }
}

/// The entry is well formed for the given stores: it tracks an eligible
/// ordered pair, under that pair's kind, carrying that pair's tags.
pub open spec fn touch_entry_wf<T: Copy>(
    bodies: BodySet,
    colliders: ColliderSet<T>,
    e: TouchEntry<T>,
) -> bool {
    &&& pair_eligible(bodies, colliders, e.a, e.b)
    &&& e.kind == pair_kind(colliders, e.a, e.b)
    &&& e.tag_a == colliders.collider_at(e.a).tag
    &&& e.tag_b == colliders.collider_at(e.b).tag
}

/// The touching table tracks exactly the eligible pairs whose boxes overlap
/// at the stores' current positions.
pub open spec fn table_matches_geometry<T: Copy>(
    bodies: BodySet,
    colliders: ColliderSet<T>,
    s: Seq<TouchEntry<T>>,
) -> bool {
    forall|a: ColliderHandle, b: ColliderHandle|
        has_pair(s, a, b) == (#[trigger] pair_eligible(bodies, colliders, a, b)
            && pair_overlapping(bodies, colliders, a, b))
}

/// No eligible solid-vs-solid pair overlaps at current positions: every
/// penetration the step would resolve is already resolved.
pub open spec fn settled<T: Copy>(bodies: BodySet, colliders: ColliderSet<T>) -> bool {
    forall|ha: ColliderHandle, hb: ColliderHandle|
        (#[trigger] pair_eligible(bodies, colliders, ha, hb) && pair_kind(colliders, ha, hb)
            is Collision) ==> !pair_overlapping(bodies, colliders, ha, hb)
}

/// The two stores agree on slot layout, generations and every body field
/// that the step never changes; only positions and pending movement may
/// differ.
pub open spec fn bodies_layout_preserved(b1: BodySet, b2: BodySet) -> bool {
    &&& b1.slots@.len() == b2.slots@.len()
    &&& forall|i: int|
        0 <= i < b1.slots@.len() ==> {
            &&& (#[trigger] b2.slots@[i]).generation == b1.slots@[i].generation
            &&& b2.slots@[i].body.is_some() == b1.slots@[i].body.is_some()
            &&& (b1.slots@[i].body.is_some() ==> {
                &&& b2.slots@[i].body.unwrap().velocity == b1.slots@[i].body.unwrap().velocity
                &&& b2.slots@[i].body.unwrap().status == b1.slots@[i].body.unwrap().status
                &&& b2.slots@[i].body.unwrap().self_collide == b1.slots@[i].body.unwrap().self_collide
                &&& b2.slots@[i].body.unwrap().colliders@ == b1.slots@[i].body.unwrap().colliders@
            })
        }
}

/// Every occupied slot holds its body at the same position in both stores.
pub open spec fn positions_unchanged(b1: BodySet, b2: BodySet) -> bool {
    forall|i: int|
        0 <= i < b1.slots@.len() && (#[trigger] b1.slots@[i]).body.is_some() ==> b2.slots@[i].body.unwrap().position
            == b1.slots@[i].body.unwrap().position
}

/// Every occupied slot holds its body with the same pending movement in
/// both stores.
pub open spec fn movements_unchanged(b1: BodySet, b2: BodySet) -> bool {
    forall|i: int|
        0 <= i < b1.slots@.len() && (#[trigger] b1.slots@[i]).body.is_some() ==> b2.slots@[i].body.unwrap().movement
            == b1.slots@[i].body.unwrap().movement
}

/// Every occupied slot whose body is static holds it at the same position
/// in both stores: the step never moves a static body.
pub open spec fn static_positions_unchanged(b1: BodySet, b2: BodySet) -> bool {
    forall|i: int|
        0 <= i < b1.slots@.len() && (#[trigger] b1.slots@[i]).body.is_some()
            && b1.slots@[i].body.unwrap().status is Static ==> b2.slots@[i].body.unwrap().position
            == b1.slots@[i].body.unwrap().position
}

/// Simulation world state: the previous tick's touching-pair table and the
/// current tick's event batch. Created once with the application and
/// mutated only inside `step` and `remove_collider`. The fields are public
/// for inspection; hosts must not mutate them directly.
#[derive(Clone, Debug)]
pub struct PhysicsWorld<T> {
    /// Touching pairs of the most recently completed tick, strictly sorted
    /// by slot-index pair.
    pub touching: Vec<TouchEntry<T>>,
    /// Event batch of the most recently completed tick; replaced, not
    /// appended, by each `step` call.
    pub events: Vec<ContactEvent<T>>,
}

impl<T: Copy> PhysicsWorld<T> {
    /// A world with no tracked pairs and an empty event batch.
    pub fn new() -> (r: PhysicsWorld<T>)
        ensures
            r.touching@ == Seq::<TouchEntry<T>>::empty(),
            r.events@ == Seq::<ContactEvent<T>>::empty(),
    {
        PhysicsWorld { touching: Vec::new(), events: Vec::new() }
    }

    /// The current event batch, valid until the next `step` call.
    pub fn events(&self) -> (r: &Vec<ContactEvent<T>>)
        ensures
            r@ == self.events@,
    {
        &self.events
    }

    /// All colliders currently touching `h` with solid-vs-solid contact,
    /// each with its contact normal oriented away from `h`. Recomputed
    /// fresh from the tracked state of the most recently completed tick.
    pub fn collisions_of(&self, h: ColliderHandle) -> (r: Vec<(ColliderHandle, ContactInfo)>)
        ensures
            r@ == interactions_for(self.touching@, h, true),
    {
        self.interactions_filtered(h, true)
    }

    /// All colliders currently touching `h`, collisions and overlaps alike,
    /// each with its contact normal oriented away from `h`.
    pub fn interactions_of(&self, h: ColliderHandle) -> (r: Vec<(ColliderHandle, ContactInfo)>)
        ensures
            r@ == interactions_for(self.touching@, h, false),
    {
        self.interactions_filtered(h, false)
    }

    /// Shared scan behind `collisions_of` and `interactions_of`.
    fn interactions_filtered(&self, h: ColliderHandle, only_collisions: bool) -> (r: Vec<
        (ColliderHandle, ContactInfo),
    >)
        ensures
            r@ == interactions_for(self.touching@, h, only_collisions),
    {
        let mut r: Vec<(ColliderHandle, ContactInfo)> = Vec::new();
        let mut i: usize = 0;
        while i < self.touching.len()
            invariant
                i <= self.touching@.len(),
                r@ == interactions_for(self.touching@.take(i as int), h, only_collisions),
            decreases self.touching@.len() - i,
        {
            let e = self.touching[i];
            proof {
                assert(self.touching@.take(i + 1int).drop_last() =~= self.touching@.take(i as int));
                assert(self.touching@.take(i + 1int).last() == self.touching@[i as int]);
            }
            if !only_collisions || matches!(e.kind, TouchKind::Collision) {
                if e.a == h {
                    r.push((e.b, ContactInfo { normal: e.normal }));
                } else if e.b == h {
                    r.push((e.a, ContactInfo { normal: e.normal.mul_scalar(FP::from_bits(-ONE_BITS)) }));
                }
            }
            i += 1;
        }
        proof {
            assert(self.touching@.take(self.touching@.len() as int) =~= self.touching@);
        }
        r
    }

    /// Remove the collider behind `h` from the stores and purge every
    /// touching-pair entry referencing it, so no ghost stop event can be
    /// emitted for it on a later tick. Fails with `InvalidHandle` exactly
    /// when the handle does not resolve; the event batch is untouched
    /// either way.
    pub fn remove_collider(
        &mut self,
        h: ColliderHandle,
        bodies: &mut BodySet,
        colliders: &mut ColliderSet<T>,
    ) -> (r: Result<Collider<T>, PhysicsError>)
        ensures
            r is Ok <==> old(colliders).valid(h),
            r is Err ==> r == Err::<Collider<T>, PhysicsError>(PhysicsError::InvalidHandle)
                && *final(self) == *old(self) && *final(bodies) == *old(bodies) && *final(colliders)
                == *old(colliders),
            r matches Ok(c) ==> c == old(colliders).collider_at(h),
            final(self).events@ == old(self).events@,
            r is Ok ==> final(self).touching@ == old(self).touching@.filter(
                |e: TouchEntry<T>| e.a != h && e.b != h,
            ),
            r is Ok ==> final(colliders).slots@ == old(colliders).slots@.update(
                h.index as int,
                ColliderSlot {
                    generation: (if h.generation == u64::MAX {
                        0u64
                    } else {
                        (h.generation + 1) as u64
                    }),
                    collider: None,
                },
            ),
            r is Ok ==> !final(colliders).valid(h),
            r matches Ok(c) ==> {
                &&& final(bodies).slots@.len() == old(bodies).slots@.len()
                &&& forall|i: int|
                    0 <= i < old(bodies).slots@.len() && i != c.owner.index
                        ==> final(bodies).slots@[i] == old(bodies).slots@[i]
                &&& (old(bodies).valid(c.owner) ==> forall|k: int|
                    0 <= k < final(bodies).body_at(c.owner).colliders@.len()
                        ==> final(bodies).body_at(c.owner).colliders@[k] != h)
                &&& (!old(bodies).valid(c.owner) ==> *final(bodies) == *old(bodies))
            },
    {
        let c = match colliders.remove(h, bodies) {
            Ok(c) => c,
            Err(e) => {
                return Err(e);
            },
        };
        let mut kept: Vec<TouchEntry<T>> = Vec::new();
        let mut i: usize = 0;
        proof {
            reveal(Seq::filter);
            assert(self.touching@.take(0).filter(|e: TouchEntry<T>| e.a != h && e.b != h)
                =~= Seq::<TouchEntry<T>>::empty());
        }
        while i < self.touching.len()
            invariant
                i <= self.touching@.len(),
                kept@ == self.touching@.take(i as int).filter(
                    |e: TouchEntry<T>| e.a != h && e.b != h,
                ),
            decreases self.touching@.len() - i,
        {
            let e = self.touching[i];
            proof {
                reveal(Seq::filter);
                assert(self.touching@.take(i + 1int).drop_last() =~= self.touching@.take(i as int));
                assert(self.touching@.take(i + 1int).last() == self.touching@[i as int]);
            }
            if !(e.a == h || e.b == h) {
                kept.push(e);
            }
            i += 1;
        }
        proof {
            assert(self.touching@.take(self.touching@.len() as int) =~= self.touching@);
        }
        self.touching = kept;
        Ok(c)
    }
}

/// The introspection sequence for `h`: the partner handle and oriented
/// normal of every tracked entry touching `h`, restricted to collisions
/// when `only_collisions` is set, in table order.
pub open spec fn interactions_for<T>(
    s: Seq<TouchEntry<T>>,
    h: ColliderHandle,
    only_collisions: bool,
) -> Seq<(ColliderHandle, ContactInfo)>
    decreases s.len(),
{
    if s.len() == 0 {
        Seq::empty()
    } else {
        let rest = interactions_for(s.drop_last(), h, only_collisions);
        let e = s.last();
        if only_collisions && !(e.kind is Collision) {
            rest
        } else if e.a == h {
            rest.push((e.b, ContactInfo { normal: e.normal }))
        } else if e.b == h {
            rest.push(
                (
                    e.a,
                    ContactInfo {
                        normal: Vec2 {
                            x: FP { bits: crate::fp::fp_mul(e.normal.x@, -(ONE_BITS as int)) as i64 },
                            y: FP { bits: crate::fp::fp_mul(e.normal.y@, -(ONE_BITS as int)) as i64 },
                        },
                    },
                ),
            )
        } else {
            rest
        }
    }
}

} // verus!
