pub mod camera;
pub mod player;
