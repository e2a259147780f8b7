use vstd::prelude::*;

verus! {

#[derive(Debug, Clone, Copy, PartialEq, Eq, Structural, PartialOrd, Ord, Hash)]
pub enum Temperature {
    Freezing,
    Cold,
    Habitable,
    Hot,
    Boiling,
}

impl Temperature {
    /// The variant's number, in declaration order from zero.
    pub open spec fn spec_index(self) -> usize {
        match self {
            Temperature::Freezing => 0,
            Temperature::Cold => 1,
            Temperature::Habitable => 2,
            Temperature::Hot => 3,
            Temperature::Boiling => 4,
        }
    }

    pub fn index(&self) -> (r: usize)
        ensures
            r == self.spec_index(),
    {
        match self {
            Temperature::Freezing => 0,
            Temperature::Cold => 1,
            Temperature::Habitable => 2,
            Temperature::Hot => 3,
            Temperature::Boiling => 4,
        }
    }

    /// The variant numbered `n`, if there is one.
    pub fn try_from_primitive(n: usize) -> (r: Option<Self>)
        ensures
            r is Some <==> n < 5,
            r matches Some(v) ==> v.spec_index() == n,
    {
        if n == 0 {
            Some(Temperature::Freezing)
        } else if n == 1 {
            Some(Temperature::Cold)
        } else if n == 2 {
            Some(Temperature::Habitable)
        } else if n == 3 {
            Some(Temperature::Hot)
        } else if n == 4 {
            Some(Temperature::Boiling)
        } else {
            None
        }
    }
}

#[derive(Debug, Clone, Copy, PartialEq, Eq, Structural, PartialOrd, Ord, Hash)]
pub enum Moisture {
    Parched,
    Dry,
    Moist,
    Saturated,
}

impl Moisture {
    /// The variant's number, in declaration order from zero.
    pub open spec fn spec_index(self) -> usize {
        match self {
            Moisture::Parched => 0,
            Moisture::Dry => 1,
            Moisture::Moist => 2,
            Moisture::Saturated => 3,
        }
    }

    pub fn index(&self) -> (r: usize)
        ensures
            r == self.spec_index(),
    {
        match self {
            Moisture::Parched => 0,
            Moisture::Dry => 1,
            Moisture::Moist => 2,
            Moisture::Saturated => 3,
        }
    }

    /// The variant numbered `n`, if there is one.
    pub fn try_from_primitive(n: usize) -> (r: Option<Self>)
        ensures
            r is Some <==> n < 4,
            r matches Some(v) ==> v.spec_index() == n,
    {
        if n == 0 {
            Some(Moisture::Parched)
        } else if n == 1 {
            Some(Moisture::Dry)
        } else if n == 2 {
            Some(Moisture::Moist)
        } else if n == 3 {
            Some(Moisture::Saturated)
        } else {
            None
        }
    }
}

#[derive(Debug, Clone, Copy, PartialEq, Eq, Structural, PartialOrd, Ord, Hash)]
pub enum Metallicity {
    Trace,
    Low,
    Moderate,
    High,
    Pure,
}

impl Metallicity {
    /// The variant's number, in declaration order from zero.
    pub open spec fn spec_index(self) -> usize {
        match self {
            Metallicity::Trace => 0,
            Metallicity::Low => 1,
            Metallicity::Moderate => 2,
            Metallicity::High => 3,
            Metallicity::Pure => 4,
        }
    }

    pub fn index(&self) -> (r: usize)
        ensures
            r == self.spec_index(),
    {
        match self {
            Metallicity::Trace => 0,
            Metallicity::Low => 1,
            Metallicity::Moderate => 2,
            Metallicity::High => 3,
            Metallicity::Pure => 4,
        }
    }

    /// The variant numbered `n`, if there is one.
    pub fn try_from_primitive(n: usize) -> (r: Option<Self>)
        ensures
            r is Some <==> n < 5,
            r matches Some(v) ==> v.spec_index() == n,
    {
        if n == 0 {
            Some(Metallicity::Trace)
        } else if n == 1 {
            Some(Metallicity::Low)
        } else if n == 2 {
            Some(Metallicity::Moderate)
        } else if n == 3 {
            Some(Metallicity::High)
        } else if n == 4 {
            Some(Metallicity::Pure)
        } else {
            None
        }
    }
}

#[derive(Debug, Clone, Copy, PartialEq, Eq, Structural, PartialOrd, Ord, Hash)]
pub enum Density {
    Diffuse,
    LowDensity,
    Rocky,
    Dense,
    Degenerate,
}

impl Density {
    /// The variant's number, in declaration order from zero.
    pub open spec fn spec_index(self) -> usize {
        match self {
            Density::Diffuse => 0,
            Density::LowDensity => 1,
            Density::Rocky => 2,
            Density::Dense => 3,
            Density::Degenerate => 4,
        }
    }

    pub fn index(&self) -> (r: usize)
        ensures
            r == self.spec_index(),
    {
        match self {
            Density::Diffuse => 0,
            Density::LowDensity => 1,
            Density::Rocky => 2,
            Density::Dense => 3,
            Density::Degenerate => 4,
        }
    }

    /// The variant numbered `n`, if there is one.
    pub fn try_from_primitive(n: usize) -> (r: Option<Self>)
        ensures
            r is Some <==> n < 5,
            r matches Some(v) ==> v.spec_index() == n,
    {
        if n == 0 {
            Some(Density::Diffuse)
        } else if n == 1 {
            Some(Density::LowDensity)
        } else if n == 2 {
            Some(Density::Rocky)
        } else if n == 3 {
            Some(Density::Dense)
        } else if n == 4 {
            Some(Density::Degenerate)
        } else {
            None
        }
    }
}

#[derive(Debug, Clone, Copy, PartialEq, Eq, Structural, PartialOrd, Ord, Hash)]
pub enum Illuminance {
    Faint,
    Moderate,
    Bright,
}

impl Illuminance {
    /// The variant's number, in declaration order from zero.
    pub open spec fn spec_index(self) -> usize {
        match self {
            Illuminance::Faint => 0,
            Illuminance::Moderate => 1,
            Illuminance::Bright => 2,
        }
    }

    pub fn index(&self) -> (r: usize)
        ensures
            r == self.spec_index(),
    {
        match self {
            Illuminance::Faint => 0,
            Illuminance::Moderate => 1,
            Illuminance::Bright => 2,
        }
    }

    /// The variant numbered `n`, if there is one.
    pub fn try_from_primitive(n: usize) -> (r: Option<Self>)
        ensures
            r is Some <==> n < 3,
            r matches Some(v) ==> v.spec_index() == n,
    {
        if n == 0 {
            Some(Illuminance::Faint)
        } else if n == 1 {
            Some(Illuminance::Moderate)
        } else if n == 2 {
            Some(Illuminance::Bright)
        } else {
            None
        }
    }
}

#[derive(Debug, Clone, Copy, PartialEq, Eq, Structural, PartialOrd, Ord, Hash)]
pub enum AtmosphericDensity {
    Sparse,
    Moderate,
    Thick,
}

impl AtmosphericDensity {
    /// The variant's number, in declaration order from zero.
    pub open spec fn spec_index(self) -> usize {
        match self {
            AtmosphericDensity::Sparse => 0,
            AtmosphericDensity::Moderate => 1,
            AtmosphericDensity::Thick => 2,
        }
    }

    pub fn index(&self) -> (r: usize)
        ensures
            r == self.spec_index(),
    {
        match self {
            AtmosphericDensity::Sparse => 0,
            AtmosphericDensity::Moderate => 1,
            AtmosphericDensity::Thick => 2,
        }
    }

    /// The variant numbered `n`, if there is one.
    pub fn try_from_primitive(n: usize) -> (r: Option<Self>)
        ensures
            r is Some <==> n < 3,
            r matches Some(v) ==> v.spec_index() == n,
    {
        if n == 0 {
            Some(AtmosphericDensity::Sparse)
        } else if n == 1 {
            Some(AtmosphericDensity::Moderate)
        } else if n == 2 {
            Some(AtmosphericDensity::Thick)
        } else {
            None
        }
    }
}

/// Every level is numbered by its place in the order the levels are listed,
/// from zero, the lowest first: so a number names the level in that place,
/// and a higher level has a higher number.
pub proof fn law_levels_numbered_in_order()
    ensures
        Temperature::Freezing.spec_index() == 0,
        Temperature::Cold.spec_index() == 1,
        Temperature::Habitable.spec_index() == 2,
        Temperature::Hot.spec_index() == 3,
        Temperature::Boiling.spec_index() == 4,
        Moisture::Parched.spec_index() == 0,
        Moisture::Dry.spec_index() == 1,
        Moisture::Moist.spec_index() == 2,
        Moisture::Saturated.spec_index() == 3,
        Metallicity::Trace.spec_index() == 0,
        Metallicity::Low.spec_index() == 1,
        Metallicity::Moderate.spec_index() == 2,
        Metallicity::High.spec_index() == 3,
        Metallicity::Pure.spec_index() == 4,
        Density::Diffuse.spec_index() == 0,
        Density::LowDensity.spec_index() == 1,
        Density::Rocky.spec_index() == 2,
        Density::Dense.spec_index() == 3,
        Density::Degenerate.spec_index() == 4,
        Illuminance::Faint.spec_index() == 0,
        Illuminance::Moderate.spec_index() == 1,
        Illuminance::Bright.spec_index() == 2,
        AtmosphericDensity::Sparse.spec_index() == 0,
        AtmosphericDensity::Moderate.spec_index() == 1,
        AtmosphericDensity::Thick.spec_index() == 2,
{
}

} // verus!
