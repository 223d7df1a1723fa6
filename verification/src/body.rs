//! Bodies and their generational store.

use vstd::prelude::*;

use crate::handle::BodyHandle;
use crate::handle::ColliderHandle;
use crate::handle::PhysicsError;
use crate::vector2::Vec2;

verus! {

/// Status of the body, determines how it's affected by other bodies.
#[derive(Clone, Copy, Debug, PartialEq, Eq, Structural)]
pub enum BodyStatus {
    /// Even when it moves it never collides with anything.
    Static,
    /// Collides with both static and kinematic bodies.
    Kinematic,
}

/// Describes a body.
///
/// It functions as a container for colliders.
#[derive(Clone, Debug)]
pub struct Body {
    pub position: Vec2,
    /// A static body can have velocity — it just behaves as if it had
    /// infinite mass and doesn't collide with other static bodies.
    pub velocity: Vec2,
    /// Type of body — static or kinematic.
    pub status: BodyStatus,
    /// Whether colliders of the same body should collide.
    pub self_collide: bool,
    /// Cached list of colliders belonging to the body.
    pub colliders: Vec<ColliderHandle>,
    /// The distance the body will want to cover during the next step.
    pub movement: Vec2,
}

/// The two bodies agree on every field except possibly the collider list.
pub open spec fn same_body_except_colliders(b1: Body, b2: Body) -> bool {
    &&& b1.position == b2.position
    &&& b1.velocity == b2.velocity
    &&& b1.status == b2.status
    &&& b1.self_collide == b2.self_collide
    &&& b1.movement == b2.movement
}

impl Body {
    /// Build a body with an empty collider list and no pending movement.
    pub fn new(position: Vec2, velocity: Vec2, status: BodyStatus, self_collide: bool) -> (r: Body)
        ensures
            r.position == position,
            r.velocity == velocity,
            r.status == status,
            r.self_collide == self_collide,
            r.colliders@ == Seq::<ColliderHandle>::empty(),
            r.movement == (Vec2 { x: crate::fp::FP { bits: 0 }, y: crate::fp::FP { bits: 0 } }),
    {
        Body {
            position,
            velocity,
            status,
            self_collide,
            colliders: Vec::new(),
            movement: Vec2::zero(),
        }
    }
}

/// One arena slot: the generation it currently carries, and the body if the
/// slot is occupied.
#[derive(Clone, Debug)]
pub struct BodySlot {
    pub generation: u64,
    pub body: Option<Body>,
}

/// Generational arena owning the bodies. Insertion appends a new slot;
/// removal vacates the slot and bumps its generation, so stale handles are
/// detected on their next use.
#[derive(Clone, Debug)]
pub struct BodySet {
    pub slots: Vec<BodySlot>,
}

/// The handle resolves in the given slot sequence: its slot exists,
/// carries the same generation, and is occupied.
pub open spec fn body_valid_at(slots: Seq<BodySlot>, h: BodyHandle) -> bool {
    &&& h.index < slots.len()
    &&& slots[h.index as int].generation == h.generation
    &&& slots[h.index as int].body.is_some()
}

/// The body a valid handle resolves to in the given slot sequence.
pub open spec fn body_at_in(slots: Seq<BodySlot>, h: BodyHandle) -> Body
    recommends
        body_valid_at(slots, h),
{
    slots[h.index as int].body.unwrap()
}

impl BodySet {
    /// The handle resolves: its slot exists, carries the same generation,
    /// and is occupied.
    pub open spec fn valid(self, h: BodyHandle) -> bool {
        body_valid_at(self.slots@, h)
    }

    /// The body a valid handle resolves to.
    pub open spec fn body_at(self, h: BodyHandle) -> Body
        recommends
            self.valid(h),
    {
        body_at_in(self.slots@, h)
    }

    /// An empty store.
    pub fn new() -> (r: BodySet)
        ensures
            r.slots@ == Seq::<BodySlot>::empty(),
    {
        BodySet { slots: Vec::new() }
    }

    /// Append a new slot holding `body` and return a fresh handle to it.
    pub fn insert(&mut self, body: Body) -> (h: BodyHandle)
        ensures
            h == (BodyHandle { index: old(self).slots@.len() as usize, generation: 0 }),
            final(self).slots@.len() == old(self).slots@.len() + 1,
            final(self).slots@.last().generation == 0,
            final(self).slots@.last().body == Some(body),
            forall|i: int|
                0 <= i < old(self).slots@.len() ==> final(self).slots@[i] == old(self).slots@[i],
            final(self).valid(h),
            final(self).body_at(h) == body,
    {
        let index = self.slots.len();
        self.slots.push(BodySlot { generation: 0, body: Some(body) });
        BodyHandle { index, generation: 0 }
    }

    /// Look the handle up; fails with `InvalidHandle` exactly when the
    /// handle does not resolve.
    pub fn get(&self, h: BodyHandle) -> (r: Result<&Body, PhysicsError>)
        ensures
            r is Ok <==> self.valid(h),
            r matches Ok(b) ==> *b == self.body_at(h),
            r is Err ==> r == Err::<&Body, PhysicsError>(PhysicsError::InvalidHandle),
    {
        if h.index >= self.slots.len() {
            return Err(PhysicsError::InvalidHandle);
        }
        let slot = &self.slots[h.index];
        if slot.generation != h.generation {
            return Err(PhysicsError::InvalidHandle);
        }
        match &slot.body {
            Some(b) => Ok(b),
            None => Err(PhysicsError::InvalidHandle),
        }
    }

    /// Mutable access to the body a valid handle resolves to; every other
    /// slot is untouched.
    pub fn get_mut(&mut self, h: BodyHandle) -> (r: &mut Body)
        requires
            old(self).valid(h),
        ensures
            *r == old(self).body_at(h),
            final(self).slots@ == old(self).slots@.update(
                h.index as int,
                BodySlot { generation: h.generation, body: Some(*final(r)) },
            ),
    {
        let slot = &mut self.slots[h.index];
        match &mut slot.body {
            Some(b) => b,
            None => unreached(),
        }
    }

    /// Remove the body behind the handle, returning it. Fails with
    /// `InvalidHandle` when the handle does not resolve, and with
    /// `BodyOwnsColliders` when live colliders still reference the body —
    /// they must be detached first. On success the slot is vacated and its
    /// generation bumped, so stale handles never alias a reused slot.
    pub fn remove(&mut self, h: BodyHandle) -> (r: Result<Body, PhysicsError>)
        ensures
            r is Ok <==> (old(self).valid(h) && old(self).body_at(h).colliders@.len() == 0),
            r matches Ok(b) ==> b == old(self).body_at(h),
            r is Ok ==> final(self).slots@ == old(self).slots@.update(
                h.index as int,
                BodySlot {
                    generation: (if h.generation == u64::MAX {
                        0u64
                    } else {
                        (h.generation + 1) as u64
                    }),
                    body: None,
                },
            ),
            r is Err ==> *final(self) == *old(self),
            r is Err ==> (r == Err::<Body, PhysicsError>(PhysicsError::InvalidHandle) || r == Err::<
                Body,
                PhysicsError,
            >(PhysicsError::BodyOwnsColliders)),
            (r is Err && old(self).valid(h)) ==> r == Err::<Body, PhysicsError>(
                PhysicsError::BodyOwnsColliders,
            ),
            (r is Err && !old(self).valid(h)) ==> r == Err::<Body, PhysicsError>(
                PhysicsError::InvalidHandle,
            ),
    {
        if h.index >= self.slots.len() {
            return Err(PhysicsError::InvalidHandle);
        }
        let valid = {
            let slot = &self.slots[h.index];
            slot.generation == h.generation && slot.body.is_some()
        };
        if !valid {
            return Err(PhysicsError::InvalidHandle);
        }
        let owns = {
            let slot = &self.slots[h.index];
            match &slot.body {
                Some(b) => b.colliders.len() > 0,
                None => unreached(),
            }
        };
        if owns {
            return Err(PhysicsError::BodyOwnsColliders);
        }
        let next_gen: u64 = if h.generation == u64::MAX {
            0
        } else {
            h.generation + 1
        };
        let slot = &mut self.slots[h.index];
        let body = slot.body.take();
        slot.generation = next_gen;
        match body {
            Some(b) => Ok(b),
            None => unreached(),
        }
    }

    /// Number of slots the arena has ever allocated.
    pub fn len(&self) -> (r: usize)
        ensures
            r == self.slots@.len(),
    {
        self.slots.len()
    }
}

} // verus!
