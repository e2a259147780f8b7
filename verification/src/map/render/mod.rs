pub mod extract;
pub mod mesh;
pub mod resource;
