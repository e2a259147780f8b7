pub mod celestial;
pub mod config;
pub mod gen;
