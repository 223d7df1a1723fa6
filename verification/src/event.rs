//! Contact transition events.
//!
//! Each event carries both collider handles and both opaque tags, in the
//! pair order first established when the touch began.

use vstd::prelude::*;

use crate::handle::ColliderHandle;

verus! {

/// Transition of a touching pair between two consecutive ticks.
#[derive(Clone, Copy, Debug)]
pub enum ContactEvent<T> {
    /// A solid-vs-solid pair began penetrating this tick.
    CollisionStarted(ColliderHandle, ColliderHandle, T, T),
    /// A previously colliding pair separated this tick.
    CollisionStopped(ColliderHandle, ColliderHandle, T, T),
    /// A pair with sensor involvement began overlapping this tick.
    OverlapStarted(ColliderHandle, ColliderHandle, T, T),
    /// A previously overlapping pair separated this tick.
    OverlapStopped(ColliderHandle, ColliderHandle, T, T),
}

} // verus!
