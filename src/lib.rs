//! Voxel-space terrain rendering: a first-person view of a wrap-around height
//! field, drawn column by column into an RGBA frame.

pub mod camera;
pub mod fixed;
pub mod frame;
pub mod map;
pub mod render;
pub mod sample;

pub use camera::{Camera, MAX_DEPTH, SCALE_FACTOR};
pub use fixed::FIXED_ONE;
pub use map::{ConfigurationError, Terrain, MAX_MAP_SIDE};
pub use render::{fill_sky, Renderer, MAX_SCREEN_SIDE, SKY_BOTTOM, SKY_TOP};
pub use sample::{get_color_interpolated, get_height_interpolated};
