//! What a body is like, in the grades that its parameters fall into.

use vstd::prelude::*;

use crate::body::quantify::{AtmosphericDensity, Density, Illuminance, Metallicity, Moisture, Temperature};

pub mod quantify;

verus! {

/// The grades of a body's parameters.
#[derive(Debug, Clone, Copy, PartialEq, Eq, Structural)]
pub struct QuantifiedBody {
    pub temperature: Temperature,
    pub moisture: Moisture,
    pub metallicity: Metallicity,
    pub density: Density,
    pub illuminance: Illuminance,
    pub atmospheric_density: AtmosphericDensity,
}

impl Default for QuantifiedBody {
    /// A cold, dry, diffuse body of trace metals, faintly lit, with a sparse
    /// atmosphere.
    fn default() -> (r: Self)
        ensures
            r == (QuantifiedBody {
                temperature: Temperature::Cold,
                moisture: Moisture::Dry,
                metallicity: Metallicity::Trace,
                density: Density::Diffuse,
                illuminance: Illuminance::Faint,
                atmospheric_density: AtmosphericDensity::Sparse,
            }),
    {
        QuantifiedBody {
            temperature: Temperature::Cold,
            moisture: Moisture::Dry,
            metallicity: Metallicity::Trace,
            density: Density::Diffuse,
            illuminance: Illuminance::Faint,
            atmospheric_density: AtmosphericDensity::Sparse,
        }
    }
}

} // verus!
