pub mod storage;
pub mod tilemap;
pub mod shape;
pub mod serde;
pub mod render;
pub mod quantify;
pub mod gen;
pub mod rm_vis;
