//! Colliders and their generational store.

use vstd::prelude::*;

use crate::body::Body;
use crate::body::BodySet;
use crate::body::BodySlot;
use crate::body::same_body_except_colliders;
use crate::handle::BodyHandle;
use crate::handle::ColliderHandle;
use crate::handle::PhysicsError;
use crate::shape::AABB;
use crate::vector2::Vec2;

verus! {

/// Whether a collider resolves penetrations or only reports them.
#[derive(Clone, Copy, Debug, PartialEq, Eq, Structural)]
pub enum ColliderState {
    /// Takes part in collision resolution.
    Solid,
    /// Detection only: overlaps are reported, never resolved.
    Sensor,
}

/// An axis-aligned box attached to a body, carrying filtering bitmasks and
/// an opaque tag the engine passes through unexamined.
#[derive(Clone, Copy, Debug)]
pub struct Collider<T> {
    pub shape: AABB,
    /// Offset of the box center, local to the owner body's position.
    pub offset: Vec2,
    /// Non-owning back-reference to the body the collider follows.
    pub owner: BodyHandle,
    pub state: ColliderState,
    /// Which interaction groups the collider belongs to.
    pub category: u32,
    /// Which interaction groups the collider reacts to.
    pub mask: u32,
    /// Opaque payload returned verbatim in events and queries.
    pub tag: T,
}

impl<T> Collider<T> {
    /// Build a collider with the default filtering: category 1, reacting to
    /// every group.
    pub fn new(shape: AABB, offset: Vec2, owner: BodyHandle, state: ColliderState, tag: T) -> (r:
        Collider<T>)
        ensures
            r.shape == shape,
            r.offset == offset,
            r.owner == owner,
            r.state == state,
            r.category == 1u32,
            r.mask == u32::MAX,
            r.tag == tag,
    {
        Collider { shape, offset, owner, state, category: 1, mask: u32::MAX, tag }
    }
}

/// One arena slot: the generation it currently carries, and the collider if
/// the slot is occupied.
#[derive(Clone, Debug)]
pub struct ColliderSlot<T> {
    pub generation: u64,
    pub collider: Option<Collider<T>>,
}

/// Generational arena owning the colliders. Insertion appends a new slot and
/// registers the collider with its owner body; removal vacates the slot and
/// bumps its generation.
#[derive(Clone, Debug)]
pub struct ColliderSet<T> {
    pub slots: Vec<ColliderSlot<T>>,
}

impl<T: Copy> ColliderSet<T> {
    /// The handle resolves: its slot exists, carries the same generation,
    /// and is occupied.
    pub open spec fn valid(self, h: ColliderHandle) -> bool {
        &&& h.index < self.slots@.len()
        &&& self.slots@[h.index as int].generation == h.generation
        &&& self.slots@[h.index as int].collider.is_some()
    }

    /// The collider a valid handle resolves to.
    pub open spec fn collider_at(self, h: ColliderHandle) -> Collider<T>
        recommends
            self.valid(h),
    {
        self.slots@[h.index as int].collider.unwrap()
    }

    /// An empty store.
    pub fn new() -> (r: ColliderSet<T>)
        ensures
            r.slots@ == Seq::<ColliderSlot<T>>::empty(),
    {
        ColliderSet { slots: Vec::new() }
    }

    /// Insert the collider, append its fresh handle to the owner body's
    /// collider list, and return the handle. Fails with `OwnerNotFound`
    /// exactly when the collider's owner handle does not resolve, in which
    /// case neither store changes.
    pub fn insert(&mut self, collider: Collider<T>, bodies: &mut BodySet) -> (r: Result<
        ColliderHandle,
        PhysicsError,
    >)
        ensures
            r is Ok <==> old(bodies).valid(collider.owner),
            r is Err ==> r == Err::<ColliderHandle, PhysicsError>(PhysicsError::OwnerNotFound)
                && *final(self) == *old(self) && *final(bodies) == *old(bodies),
            r matches Ok(h) ==> {
                &&& h == (ColliderHandle {
                    index: old(self).slots@.len() as usize,
                    generation: 0u64,
                })
                &&& final(self).slots@ == old(self).slots@.push(
                    ColliderSlot { generation: 0, collider: Some(collider) },
                )
                &&& final(bodies).slots@.len() == old(bodies).slots@.len()
                &&& forall|i: int|
                    0 <= i < old(bodies).slots@.len() && i != collider.owner.index
                        ==> final(bodies).slots@[i] == old(bodies).slots@[i]
                &&& final(bodies).valid(collider.owner)
                &&& same_body_except_colliders(
                    final(bodies).body_at(collider.owner),
                    old(bodies).body_at(collider.owner),
                )
                &&& final(bodies).body_at(collider.owner).colliders@ == old(bodies).body_at(
                    collider.owner,
                ).colliders@.push(h)
            },
    {
        let owner = collider.owner;
        let owner_ok = match bodies.get(owner) {
            Ok(_) => true,
            Err(_) => false,
        };
        if !owner_ok {
            return Err(PhysicsError::OwnerNotFound);
        }
        let h = ColliderHandle { index: self.slots.len(), generation: 0 };
        self.slots.push(ColliderSlot { generation: 0, collider: Some(collider) });
        let body = bodies.get_mut(owner);
        body.colliders.push(h);
        Ok(h)
    }

    /// Look the handle up; fails with `InvalidHandle` exactly when the
    /// handle does not resolve.
    pub fn get(&self, h: ColliderHandle) -> (r: Result<&Collider<T>, PhysicsError>)
        ensures
            r is Ok <==> self.valid(h),
            r matches Ok(c) ==> *c == self.collider_at(h),
            r is Err ==> r == Err::<&Collider<T>, PhysicsError>(PhysicsError::InvalidHandle),
    {
        if h.index >= self.slots.len() {
            return Err(PhysicsError::InvalidHandle);
        }
        let slot = &self.slots[h.index];
        if slot.generation != h.generation {
            return Err(PhysicsError::InvalidHandle);
        }
        match &slot.collider {
            Some(c) => Ok(c),
            None => Err(PhysicsError::InvalidHandle),
        }
    }

    /// Vacate the slot behind the handle, bump its generation, and detach
    /// the handle from the owner body's collider list if the owner still
    /// resolves. Returns the removed collider. The simulation world's
    /// `remove_collider` wraps this and additionally purges touching-pair
    /// state; colliders must leave the arena through it.
    pub(crate) fn remove(&mut self, h: ColliderHandle, bodies: &mut BodySet) -> (r: Result<
        Collider<T>,
        PhysicsError,
    >)
        ensures
            r is Ok <==> old(self).valid(h),
            r is Err ==> r == Err::<Collider<T>, PhysicsError>(PhysicsError::InvalidHandle)
                && *final(self) == *old(self) && *final(bodies) == *old(bodies),
            r matches Ok(c) ==> {
                &&& c == old(self).collider_at(h)
                &&& final(self).slots@ == old(self).slots@.update(
                    h.index as int,
                    ColliderSlot {
                        generation: (if h.generation == u64::MAX {
                            0u64
                        } else {
                            (h.generation + 1) as u64
                        }),
                        collider: None,
                    },
                )
                &&& final(bodies).slots@.len() == old(bodies).slots@.len()
                &&& forall|i: int|
                    0 <= i < old(bodies).slots@.len() && i != c.owner.index
                        ==> final(bodies).slots@[i] == old(bodies).slots@[i]
                &&& (old(bodies).valid(c.owner) ==> {
                    &&& final(bodies).valid(c.owner)
                    &&& same_body_except_colliders(
                        final(bodies).body_at(c.owner),
                        old(bodies).body_at(c.owner),
                    )
                    &&& (forall|k: int|
                        0 <= k < final(bodies).body_at(c.owner).colliders@.len()
                            ==> final(bodies).body_at(c.owner).colliders@[k] != h)
                    &&& forall|k: int|
                        0 <= k < old(bodies).body_at(c.owner).colliders@.len() && old(
                            bodies,
                        ).body_at(c.owner).colliders@[k] != h ==> final(bodies).body_at(
                            c.owner,
                        ).colliders@.contains(old(bodies).body_at(c.owner).colliders@[k])
                })
                &&& (!old(bodies).valid(c.owner) ==> *final(bodies) == *old(bodies))
            },
    {
        if h.index >= self.slots.len() {
            return Err(PhysicsError::InvalidHandle);
        }
        let valid = {
            let slot = &self.slots[h.index];
            slot.generation == h.generation && slot.collider.is_some()
        };
        if !valid {
            return Err(PhysicsError::InvalidHandle);
        }
        let next_gen: u64 = if h.generation == u64::MAX {
            0
        } else {
            h.generation + 1
        };
        let slot = &mut self.slots[h.index];
        let collider = slot.collider.take();
        slot.generation = next_gen;
        let c = match collider {
            Some(c) => c,
            None => unreached(),
        };
        let owner_ok = match bodies.get(c.owner) {
            Ok(_) => true,
            Err(_) => false,
        };
        if owner_ok {
            let body = bodies.get_mut(c.owner);
            let mut kept: Vec<ColliderHandle> = Vec::new();
            let mut i: usize = 0;
            while i < body.colliders.len()
                invariant
                    i <= body.colliders@.len(),
                    forall|k: int| 0 <= k < kept@.len() ==> kept@[k] != h,
                    forall|k: int|
                        0 <= k < i && body.colliders@[k] != h ==> kept@.contains(
                            body.colliders@[k],
                        ),
                decreases body.colliders@.len() - i,
            {
                let ch = body.colliders[i];
                let ghost prev = kept@;
                if !(ch.index == h.index && ch.generation == h.generation) {
                    kept.push(ch);
                }
                proof {
                    assert forall|k: int|
                        0 <= k < i + 1 && body.colliders@[k] != h implies kept@.contains(
                        body.colliders@[k],
                    ) by {
                        if k < i {
                            let j = choose|j: int|
                                0 <= j < prev.len() && prev[j] == body.colliders@[k];
                            assert(kept@[j] == body.colliders@[k]);
                        } else {
                            assert(kept@[kept@.len() - 1] == body.colliders@[k]);
                        }
                    };
                }
                i += 1;
            }
            body.colliders = kept;
        }
        Ok(c)
    }

    /// Number of slots the arena has ever allocated.
    pub fn len(&self) -> (r: usize)
        ensures
            r == self.slots@.len(),
    {
        self.slots.len()
    }
}

} // verus!
