use vstd::prelude::*;

verus! {

/// Marks an entity as invisible to rays: raycasting passes over it.
pub struct RayTransparent;

/// Marks the entity that the cursor is over.
pub struct MouseHovering;

/// Marks an entity that can be dragged in the scene.
pub struct EntityDragable;

} // verus!
