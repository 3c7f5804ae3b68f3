pub mod escape;
pub mod tiles;
pub mod camera;
pub mod palette;
