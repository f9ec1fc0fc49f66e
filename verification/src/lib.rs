//! Edge-color sampling, halo/wallpaper rasterisation and the control logic of
//! an ambilight effect for tiling Wayland compositors.

pub mod colors;
pub mod render;
pub mod text;
pub mod hypr;
pub mod config;
pub mod shm;
pub mod control;
