use vstd::prelude::*;

verus! {

/// All possible names of a star.
pub struct CosmosStarNamesConfig(Vec<String>);

impl CosmosStarNamesConfig {
    pub fn new(names: Vec<String>) -> (r: Self)
        ensures
            r.names_view() == names@,
    {
        CosmosStarNamesConfig(names)
    }

    pub closed spec fn names_view(&self) -> Seq<String> {
        self.0@
    }

    pub fn names(&self) -> (r: &Vec<String>)
        ensures
            r@ == self.names_view(),
    {
        &self.0
    }
}

} // verus!
