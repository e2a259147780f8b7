use vstd::prelude::*;

verus! {

/// Marks a tilemap or a tile to be despawned once the render world has
/// cleaned up after it.
pub struct DespawnMe;

} // verus!
