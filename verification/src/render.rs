//! Shared projection constants derived from the field of view.

use vstd::prelude::*;
use crate::consts::{FOV, H_WIDTH, WIDTH};

verus! {

/// The screen width scaled by the inverse tangent of the half field of
/// view: `WIDTH * FOV / H_WIDTH`, since the screen-distance constant is
/// `H_WIDTH / tan(half fov)`.
pub fn width_on_fov() -> (r: i32)
    ensures
        r == (WIDTH as int) * (FOV as int) / (H_WIDTH as int),
{
    let w: u32 = (WIDTH * (FOV as u32)) / H_WIDTH;
    w as i32
}

} // verus!
