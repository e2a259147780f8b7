use vstd::prelude::*;

verus! {

/// What the tilemap render pipeline is specialized by.
#[derive(Debug, Clone, Copy, PartialEq, Eq, Structural, Hash)]
pub struct TilemapPipelineKey {
    pub msaa_samples: u32,
}

} // verus!
