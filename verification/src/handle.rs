//! Generational handles and the error kinds of the engine.
//!
//! A handle is a slot index paired with a generation counter. A lookup with
//! a stale generation fails instead of aliasing a reused slot, so handles are
//! the only sanctioned cross-store reference.

use vstd::prelude::*;

verus! {

/// Generational index of a body slot.
#[derive(Clone, Copy, Debug, PartialEq, Eq, Hash, Structural)]
pub struct BodyHandle {
    pub index: usize,
    pub generation: u64,
}

/// Generational index of a collider slot.
#[derive(Clone, Copy, Debug, PartialEq, Eq, Hash, Structural)]
pub struct ColliderHandle {
    pub index: usize,
    pub generation: u64,
}

/// Recoverable failures of store operations.
#[derive(Clone, Copy, Debug, PartialEq, Eq, Structural)]
pub enum PhysicsError {
    /// The handle's slot is out of range, vacated, or of another generation;
    /// the referenced entity is gone.
    InvalidHandle,
    /// A collider was inserted against a body handle that does not resolve;
    /// the insertion did not occur.
    OwnerNotFound,
    /// A body removal was refused because the body still owns colliders;
    /// detach or remove them first.
    BodyOwnsColliders,
}

} // verus!
