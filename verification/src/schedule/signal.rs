use vstd::prelude::*;

verus! {

#[derive(Debug, Default)]
pub struct InitializationSignal {
    /// Whether the cosmos has been generated; only a new cosmos needs this.
    pub cosmos_initialized: bool,
    /// Whether the gardens are initialized: generated gardens wait for the
    /// cosmos, gardens loaded from disk do not.
    pub gardens_initialized: bool,
}

impl InitializationSignal {
    /// Claims the generation of the cosmos: true, and the cosmos marked as
    /// initialized, where it was not initialized before; false otherwise.
    pub fn begin_cosmos_generation(&mut self) -> (r: bool)
        ensures
            r == !old(self).cosmos_initialized,
            final(self).cosmos_initialized,
            final(self).gardens_initialized == old(self).gardens_initialized,
    {
        if self.cosmos_initialized {
            return false;
        }
        self.cosmos_initialized = true;
        true
    }
}

} // verus!
