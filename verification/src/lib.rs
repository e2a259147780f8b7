//! Verified core logic of the Dystopia game: tile storage, tile atlas
//! encoding, keyboard event bookkeeping and shape generation.

pub mod assets;
pub mod body;
pub mod character;
pub mod cosmos;
pub mod input;
pub mod localization;
pub mod math;
pub mod map;
pub mod schedule;
