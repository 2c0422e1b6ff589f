//! A sector-and-portal style pseudo-3D renderer: a 2D map of sectors bounded
//! by walls is projected into a first-person view with scanline
//! rasterization, fixed-point trigonometry, near-plane clipping and
//! per-column silhouette occlusion.

pub mod consts;
pub mod frame;
pub mod mapfile;
pub mod math;
pub mod player;
pub mod render;
pub mod render_3d;
pub mod texture;
pub mod tga;
pub mod trig;
pub mod world;
