//! Screen geometry, camera and movement constants.

use vstd::prelude::*;

verus! {

// Window size
pub const RESOLUTION: u32 = 1;

pub const WIDTH: u32 = 160 * RESOLUTION;

pub const HEIGHT: u32 = 120 * RESOLUTION;

// Screen size
pub const SCREEN_RESOLUTION: u32 = 4;

pub const SCREE_WIDTH: u32 = WIDTH * SCREEN_RESOLUTION;

pub const SCREE_HEIGHT: u32 = HEIGHT * SCREEN_RESOLUTION;

// Utils
pub const H_WIDTH: u32 = WIDTH / 2;

pub const H_HEIGHT: u32 = HEIGHT / 2;

// Player
pub const MOVE_VELOCITY: i32 = 2;

pub const ROTATION_VELOCITY: i32 = 1;

pub const UPDOWN_VELOCITY: i32 = 1;

// Camera: the perspective divide multiplies by FOV (the screen-distance
// constant) before dividing by camera-space depth.
pub const FOV: i32 = 200;

// The vertical shear adds updown * depth / UPDOWN_FACTOR to camera-space z.
pub const UPDOWN_FACTOR: i32 = 60;

// World units per texel when texturing a floor or ceiling plane.
pub const PLANE_TILE: i32 = 4;

/// The fill color used between draws of a frame.
pub fn background_color() -> (c: [u8; 4])
    ensures
        c == [0x22u8, 0x22u8, 0xffu8, 0xffu8],
{
    [0x22u8, 0x22u8, 0xffu8, 0xffu8]
}

} // verus!
