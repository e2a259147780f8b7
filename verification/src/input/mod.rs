use vstd::prelude::*;

pub mod click;
pub mod event;

verus! {

/// Marks an entity as invisible to rays: raycasting passes over it.
pub struct RayTransparent;

/// Marks the entity that the cursor is over.
pub struct MouseHovering;

/// Counts the presses of a button in quick succession.
#[derive(Debug, Default, Clone, Copy, PartialEq, Eq, Structural)]
pub struct MouseClickCounter(pub u8);

impl MouseClickCounter {
    /// Counts one more press.
    pub fn increment(&mut self)
        requires
            old(self).0 < u8::MAX,
        ensures
            final(self).0 == old(self).0 + 1,
    {
        self.0 = self.0 + 1;
    }
}

} // verus!
