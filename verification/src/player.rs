//! Camera state: position, yaw angle indexing the trig table, and the
//! vertical-shear term `updown`, plus the motion primitives.
//!
//! Movement accumulates in a fixed-point position (`FP_ONE` sub-units per
//! world unit) so that slow diagonal motion is not truncated away; the
//! integer `position` seen by the renderer is always the fixed-point value
//! divided by `FP_ONE`.

use vstd::prelude::*;
use crate::consts::{MOVE_VELOCITY, ROTATION_VELOCITY, UPDOWN_VELOCITY};
use crate::math::{Vec3, FP_ONE, div_tz, div_i64, lemma_div_tz_ordered, lemma_div_tz_exact};
use crate::trig::{TrigTable, spec_sin_fp, spec_cos_fp};

verus! {

/// `i32::MAX * FP_ONE`: the fixed-point position saturates here so that the
/// derived integer position always fits an `i32`.
pub const FP_POS_MAX: i64 = 2199023254528;

/// `i32::MIN * FP_ONE`.
pub const FP_POS_MIN: i64 = -2199023255552;

/// Saturation of a fixed-point coordinate into the representable band.
pub open spec fn sat_fp(v: int) -> int {
    if v > FP_POS_MAX {
        FP_POS_MAX as int
    } else if v < FP_POS_MIN {
        FP_POS_MIN as int
    } else {
        v
    }
}

/// Which movement keys are held this tick; the windowing layer fills this
/// from platform input.
#[derive(Debug, Clone, Copy, PartialEq, Eq, Structural, Default)]
pub struct InputState {
    pub w: bool,
    pub s: bool,
    pub a: bool,
    pub d: bool,
    pub r: bool,
    pub f: bool,
    pub left: bool,
    pub right: bool,
    pub up: bool,
    pub down: bool,
}

impl InputState {
    pub fn new() -> (i: InputState)
        ensures
            i == (InputState {
                w: false,
                s: false,
                a: false,
                d: false,
                r: false,
                f: false,
                left: false,
                right: false,
                up: false,
                down: false,
            }),
    {
        InputState {
            w: false,
            s: false,
            a: false,
            d: false,
            r: false,
            f: false,
            left: false,
            right: false,
            up: false,
            down: false,
        }
    }
}

/// The camera: fixed-point position accumulator, derived integer position,
/// yaw in `[0, 360)` and the vertical-shear coefficient.
#[derive(Debug, Clone, Copy, PartialEq, Eq, Structural)]
pub struct Player {
    pub fp_x: i64,
    pub fp_y: i64,
    pub fp_z: i64,
    pub position: Vec3,
    pub angle: i32,
    pub updown: i32,
}

impl Player {
    /// The angle indexes the trig table; the integer position mirrors the
    /// saturating fixed-point accumulator.
    pub open spec fn wf(self) -> bool {
        &&& 0 <= self.angle < 360
        &&& FP_POS_MIN <= self.fp_x <= FP_POS_MAX
        &&& FP_POS_MIN <= self.fp_y <= FP_POS_MAX
        &&& FP_POS_MIN <= self.fp_z <= FP_POS_MAX
        &&& self.position.x == div_tz(self.fp_x as int, FP_ONE as int)
        &&& self.position.y == div_tz(self.fp_y as int, FP_ONE as int)
        &&& self.position.z == div_tz(self.fp_z as int, FP_ONE as int)
    }

    /// The state after moving by a fixed-point offset.
    pub open spec fn spec_translate_fp(self, dx: int, dy: int, dz: int) -> Player {
        Player {
            fp_x: sat_fp(self.fp_x + dx) as i64,
            fp_y: sat_fp(self.fp_y + dy) as i64,
            fp_z: sat_fp(self.fp_z + dz) as i64,
            position: Vec3 {
                x: div_tz(sat_fp(self.fp_x + dx), FP_ONE as int) as i32,
                y: div_tz(sat_fp(self.fp_y + dy), FP_ONE as int) as i32,
                z: div_tz(sat_fp(self.fp_z + dz), FP_ONE as int) as i32,
            },
            ..self
        }
    }

    /// The state after moving by whole world units.
    pub open spec fn spec_translate(self, d: Vec3) -> Player {
        self.spec_translate_fp(d.x * FP_ONE, d.y * FP_ONE, d.z * FP_ONE)
    }

    /// The state after moving relative to the view direction: the horizontal
    /// offset is rotated by the yaw angle, the vertical one is direct.
    pub open spec fn spec_dirmove(self, d: Vec3) -> Player {
        let c = spec_cos_fp(self.angle as int);
        let s = spec_sin_fp(self.angle as int);
        self.spec_translate_fp(c * d.x + s * d.y, c * d.y - s * d.x, d.z * FP_ONE)
    }

    /// The state after one rotation step to the right (clockwise).
    pub open spec fn spec_right(self) -> Player {
        Player { angle: (((self.angle + ROTATION_VELOCITY) % 360) as i32), ..self }
    }

    /// The state after one rotation step to the left.
    pub open spec fn spec_left(self) -> Player {
        Player { angle: (((self.angle - ROTATION_VELOCITY + 360) % 360) as i32), ..self }
    }

    /// The state after one look-up step (the shear term decreases).
    pub open spec fn spec_up(self) -> Player {
        Player { updown: (self.updown - UPDOWN_VELOCITY) as i32, ..self }
    }

    /// The state after one look-down step.
    pub open spec fn spec_down(self) -> Player {
        Player { updown: (self.updown + UPDOWN_VELOCITY) as i32, ..self }
    }

    pub fn new() -> (p: Self)
        ensures
            p.wf(),
            p.position == (Vec3 { x: 0, y: 0, z: 0 }),
            p.angle == 0,
            p.updown == 0,
    {
        Player {
            fp_x: 0,
            fp_y: 0,
            fp_z: 0,
            position: Vec3 { x: 0, y: 0, z: 0 },
            angle: 0,
            updown: 0,
        }
    }

    pub fn new_with_position(initial_position: Vec3) -> (p: Self)
        ensures
            p.wf(),
            p.position == initial_position,
            p.angle == 0,
            p.updown == 0,
    {
        Self::new_with_position_angles(initial_position, 0, 0)
    }

    pub fn new_with_position_angles(initial_position: Vec3, angle: i32, updown: i32) -> (p: Self)
        requires
            0 <= angle < 360,
        ensures
            p.wf(),
            p.position == initial_position,
            p.angle == angle,
            p.updown == updown,
    {
        proof {
            lemma_div_tz_exact(initial_position.x as int, FP_ONE as int);
            lemma_div_tz_exact(initial_position.y as int, FP_ONE as int);
            lemma_div_tz_exact(initial_position.z as int, FP_ONE as int);
        }
        Player {
            fp_x: (initial_position.x as i64) * (FP_ONE as i64),
            fp_y: (initial_position.y as i64) * (FP_ONE as i64),
            fp_z: (initial_position.z as i64) * (FP_ONE as i64),
            position: initial_position,
            angle,
            updown,
        }
    }

    pub fn right(&mut self)
        requires
            old(self).wf(),
        ensures
            final(self).wf(),
            *final(self) == old(self).spec_right(),
    {
        self.angle = (self.angle + ROTATION_VELOCITY) % 360;
    }

    pub fn left(&mut self)
        requires
            old(self).wf(),
        ensures
            final(self).wf(),
            *final(self) == old(self).spec_left(),
    {
        self.angle = ((self.angle - ROTATION_VELOCITY) + 360) % 360;
    }

    /// Fixed-point cosine of the yaw angle.
    pub fn cos(&self, trig: &TrigTable) -> (r: i32)
        requires
            self.wf(),
            trig.wf(),
        ensures
            r == spec_cos_fp(self.angle as int),
            -FP_ONE <= r <= FP_ONE,
    {
        trig.cos_deg(self.angle)
    }

    /// Fixed-point sine of the yaw angle.
    pub fn sin(&self, trig: &TrigTable) -> (r: i32)
        requires
            self.wf(),
            trig.wf(),
        ensures
            r == spec_sin_fp(self.angle as int),
            -FP_ONE <= r <= FP_ONE,
    {
        trig.sin_deg(self.angle)
    }

    pub fn up(&mut self)
        requires
            old(self).wf(),
            old(self).updown > i32::MIN,
        ensures
            final(self).wf(),
            *final(self) == old(self).spec_up(),
    {
        self.updown = self.updown - UPDOWN_VELOCITY;
    }

    pub fn down(&mut self)
        requires
            old(self).wf(),
            old(self).updown < i32::MAX,
        ensures
            final(self).wf(),
            *final(self) == old(self).spec_down(),
    {
        self.updown = self.updown + UPDOWN_VELOCITY;
    }

    /// Moves by a fixed-point offset, saturating at the representable band.
    fn translate_fp(&mut self, dx: i64, dy: i64, dz: i64)
        requires
            old(self).wf(),
            -0x40_0000_0000_0000 <= dx <= 0x40_0000_0000_0000,
            -0x40_0000_0000_0000 <= dy <= 0x40_0000_0000_0000,
            -0x40_0000_0000_0000 <= dz <= 0x40_0000_0000_0000,
        ensures
            final(self).wf(),
            *final(self) == old(self).spec_translate_fp(dx as int, dy as int, dz as int),
    {
        let nx = Self::sat_add(self.fp_x, dx);
        let ny = Self::sat_add(self.fp_y, dy);
        let nz = Self::sat_add(self.fp_z, dz);
        proof {
            lemma_div_tz_ordered(FP_POS_MIN as int, nx as int, FP_ONE as int);
            lemma_div_tz_ordered(nx as int, FP_POS_MAX as int, FP_ONE as int);
            lemma_div_tz_ordered(FP_POS_MIN as int, ny as int, FP_ONE as int);
            lemma_div_tz_ordered(ny as int, FP_POS_MAX as int, FP_ONE as int);
            lemma_div_tz_ordered(FP_POS_MIN as int, nz as int, FP_ONE as int);
            lemma_div_tz_ordered(nz as int, FP_POS_MAX as int, FP_ONE as int);
            lemma_div_tz_exact(i32::MAX as int, FP_ONE as int);
            lemma_div_tz_exact(i32::MIN as int, FP_ONE as int);
        }
        let px = div_i64(nx, FP_ONE as i64);
        let py = div_i64(ny, FP_ONE as i64);
        let pz = div_i64(nz, FP_ONE as i64);
        self.fp_x = nx;
        self.fp_y = ny;
        self.fp_z = nz;
        self.position = Vec3 { x: px as i32, y: py as i32, z: pz as i32 };
    }

    /// Saturating add into the fixed-point band.
    fn sat_add(a: i64, b: i64) -> (r: i64)
        requires
            FP_POS_MIN <= a <= FP_POS_MAX,
            -0x40_0000_0000_0000 <= b <= 0x40_0000_0000_0000,
        ensures
            r == sat_fp(a + b),
    {
        let s = a + b;
        if s > FP_POS_MAX {
            FP_POS_MAX
        } else if s < FP_POS_MIN {
            FP_POS_MIN
        } else {
            s
        }
    }

    /// Moves by whole world units.
    pub fn translate(&mut self, direction: &Vec3)
        requires
            old(self).wf(),
        ensures
            final(self).wf(),
            *final(self) == old(self).spec_translate(*direction),
    {
        proof {
            crate::math::lemma_mul_abs_bound(direction.x as int, FP_ONE as int, 0x8000_0000, 0x400);
            crate::math::lemma_mul_abs_bound(direction.y as int, FP_ONE as int, 0x8000_0000, 0x400);
            crate::math::lemma_mul_abs_bound(direction.z as int, FP_ONE as int, 0x8000_0000, 0x400);
        }
        let dx = (direction.x as i64) * (FP_ONE as i64);
        let dy = (direction.y as i64) * (FP_ONE as i64);
        let dz = (direction.z as i64) * (FP_ONE as i64);
        self.translate_fp(dx, dy, dz);
    }

    /// Moves relative to the view direction, rotating the horizontal offset
    /// by the yaw angle.
    pub fn dirmove(&mut self, xydir: &Vec3, trig: &TrigTable)
        requires
            old(self).wf(),
            trig.wf(),
        ensures
            final(self).wf(),
            *final(self) == old(self).spec_dirmove(*xydir),
    {
        let c = self.cos(trig) as i64;
        let s = self.sin(trig) as i64;
        proof {
            crate::math::lemma_mul_abs_bound(c as int, xydir.x as int, 0x400, 0x8000_0000);
            crate::math::lemma_mul_abs_bound(s as int, xydir.y as int, 0x400, 0x8000_0000);
            crate::math::lemma_mul_abs_bound(c as int, xydir.y as int, 0x400, 0x8000_0000);
            crate::math::lemma_mul_abs_bound(s as int, xydir.x as int, 0x400, 0x8000_0000);
            crate::math::lemma_mul_abs_bound(xydir.z as int, FP_ONE as int, 0x8000_0000, 0x400);
        }
        let dx = c * (xydir.x as i64) + s * (xydir.y as i64);
        let dy = c * (xydir.y as i64) - s * (xydir.x as i64);
        let dz = (xydir.z as i64) * (FP_ONE as i64);
        self.translate_fp(dx, dy, dz);
    }

    /// The state after one tick of the standard (strafing) control scheme.
    pub open spec fn spec_execute_standard(self, i: InputState) -> Player {
        let p1 = if i.w && !i.s {
            self.spec_translate(Vec3 { x: 0, y: MOVE_VELOCITY, z: 0 })
        } else {
            self
        };
        let p2 = if !i.w && i.s {
            p1.spec_translate(Vec3 { x: 0, y: (-MOVE_VELOCITY) as i32, z: 0 })
        } else {
            p1
        };
        let p3 = if i.a && !i.d {
            p2.spec_translate(Vec3 { x: (-MOVE_VELOCITY) as i32, y: 0, z: 0 })
        } else {
            p2
        };
        let p4 = if !i.a && i.d {
            p3.spec_translate(Vec3 { x: MOVE_VELOCITY, y: 0, z: 0 })
        } else {
            p3
        };
        let p5 = if i.r && !i.f {
            p4.spec_translate(Vec3 { x: 0, y: 0, z: MOVE_VELOCITY })
        } else {
            p4
        };
        let p6 = if !i.r && i.f {
            p5.spec_translate(Vec3 { x: 0, y: 0, z: (-MOVE_VELOCITY) as i32 })
        } else {
            p5
        };
        let p7 = if i.left && !i.right {
            p6.spec_left()
        } else {
            p6
        };
        let p8 = if !i.left && i.right {
            p7.spec_right()
        } else {
            p7
        };
        let p9 = if i.up && !i.down {
            p8.spec_up()
        } else {
            p8
        };
        let p10 = if !i.up && i.down {
            p9.spec_down()
        } else {
            p9
        };
        p10
    }

    /// One tick of the standard control scheme: W/S and A/D strafe along the
    /// world axes, R/F move vertically, the arrows rotate and look up/down.
    pub fn execute_input_standard(&mut self, input: &InputState)
        requires
            old(self).wf(),
            i32::MIN < old(self).updown < i32::MAX,
        ensures
            final(self).wf(),
            *final(self) == old(self).spec_execute_standard(*input),
    {
        if input.w && !input.s {
            self.translate(&Vec3 { x: 0, y: MOVE_VELOCITY, z: 0 });
        }
        if !input.w && input.s {
            self.translate(&Vec3 { x: 0, y: -MOVE_VELOCITY, z: 0 });
        }
        if input.a && !input.d {
            self.translate(&Vec3 { x: -MOVE_VELOCITY, y: 0, z: 0 });
        }
        if !input.a && input.d {
            self.translate(&Vec3 { x: MOVE_VELOCITY, y: 0, z: 0 });
        }
        if input.r && !input.f {
            self.translate(&Vec3 { x: 0, y: 0, z: MOVE_VELOCITY });
        }
        if !input.r && input.f {
            self.translate(&Vec3 { x: 0, y: 0, z: -MOVE_VELOCITY });
        }
        if input.left && !input.right {
            self.left();
        }
        if !input.left && input.right {
            self.right();
        }
        if input.up && !input.down {
            self.up();
        }
        if !input.up && input.down {
            self.down();
        }
    }

    /// The state after one tick of the classic (turn-relative) control
    /// scheme.
    pub open spec fn spec_execute_classic(self, i: InputState) -> Player {
        let p1 = if i.w && !i.s {
            self.spec_dirmove(Vec3 { x: 0, y: MOVE_VELOCITY, z: 0 })
        } else {
            self
        };
        let p2 = if !i.w && i.s {
            p1.spec_dirmove(Vec3 { x: 0, y: (-MOVE_VELOCITY) as i32, z: 0 })
        } else {
            p1
        };
        let p3 = if i.a && !i.d {
            p2.spec_dirmove(Vec3 { x: (-MOVE_VELOCITY) as i32, y: 0, z: 0 })
        } else {
            p2
        };
        let p4 = if !i.a && i.d {
            p3.spec_dirmove(Vec3 { x: MOVE_VELOCITY, y: 0, z: 0 })
        } else {
            p3
        };
        let p5 = if i.r && !i.f {
            p4.spec_translate(Vec3 { x: 0, y: 0, z: MOVE_VELOCITY })
        } else {
            p4
        };
        let p6 = if !i.r && i.f {
            p5.spec_translate(Vec3 { x: 0, y: 0, z: (-MOVE_VELOCITY) as i32 })
        } else {
            p5
        };
        let p7 = if i.left && !i.right {
            p6.spec_left()
        } else {
            p6
        };
        let p8 = if !i.left && i.right {
            p7.spec_right()
        } else {
            p7
        };
        let p9 = if i.up && !i.down {
            p8.spec_up()
        } else {
            p8
        };
        let p10 = if !i.up && i.down {
            p9.spec_down()
        } else {
            p9
        };
        p10
    }

    /// One tick of the classic control scheme: W/S and A/D move relative to
    /// the view direction, R/F move vertically, the arrows rotate and look
    /// up/down.
    pub fn execute_input_classic(&mut self, input: &InputState, trig: &TrigTable)
        requires
            old(self).wf(),
            trig.wf(),
            i32::MIN < old(self).updown < i32::MAX,
        ensures
            final(self).wf(),
            *final(self) == old(self).spec_execute_classic(*input),
    {
        if input.w && !input.s {
            self.dirmove(&Vec3 { x: 0, y: MOVE_VELOCITY, z: 0 }, trig);
        }
        if !input.w && input.s {
            self.dirmove(&Vec3 { x: 0, y: -MOVE_VELOCITY, z: 0 }, trig);
        }
        if input.a && !input.d {
            self.dirmove(&Vec3 { x: -MOVE_VELOCITY, y: 0, z: 0 }, trig);
        }
        if !input.a && input.d {
            self.dirmove(&Vec3 { x: MOVE_VELOCITY, y: 0, z: 0 }, trig);
        }
        if input.r && !input.f {
            self.translate(&Vec3 { x: 0, y: 0, z: MOVE_VELOCITY });
        }
        if !input.r && input.f {
            self.translate(&Vec3 { x: 0, y: 0, z: -MOVE_VELOCITY });
        }
        if input.left && !input.right {
            self.left();
        }
        if !input.left && input.right {
            self.right();
        }
        if input.up && !input.down {
            self.up();
        }
        if !input.up && input.down {
            self.down();
        }
    }
}

} // verus!
