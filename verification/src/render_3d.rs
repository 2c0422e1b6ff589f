//! The scene renderer: camera-space projection of walls, near-plane
//! clipping, perspective projection to screen space, visibility ordering of
//! sectors, and the per-column silhouette occlusion that drives the
//! floor/ceiling infill.
//!
//! All arithmetic is integer: rotation uses the fixed-point trig table, the
//! perspective divide multiplies by the screen-distance constant
//! [`crate::consts::FOV`] before dividing by camera-space depth, and every
//! projected coordinate saturates at a huge band so that later column
//! interpolation cannot overflow.

use vstd::prelude::*;
use crate::consts::{FOV, H_HEIGHT, H_WIDTH, HEIGHT, UPDOWN_FACTOR, WIDTH};
use crate::frame::Frame;
use crate::math::{div_i128, div_tz, isqrt_u128, sqrt_floor, Vec2};
use crate::player::Player;
use crate::texture::TextureSet;
use crate::trig::{spec_cos_fp, spec_sin_fp, TrigTable};
use crate::world::{Material, SectorHeight, Wall, World};

verus! {

/// Which orientation of a wall is being projected: the front face draws the
/// wall itself, the back face drives the floor/ceiling infill.
#[derive(Debug, Clone, Copy, PartialEq, Eq, Structural)]
pub enum Face {
    Front,
    Back,
}

/// How the camera sees a sector: from above (its top plane shows), from
/// below (its bottom plane shows), or from inside.
#[derive(Debug, Clone, Copy, PartialEq, Eq, Structural)]
pub enum SurfaceView {
    Top,
    Bottom,
    Mid,
}

/// Projected coordinates saturate at this magnitude; it is far outside any
/// screen but keeps all later interpolation inside 64 bits.
pub const PROJ_CLAMP: i64 = 0x100_0000_0000;

/// Saturation of a projected coordinate into the representable band.
pub open spec fn sat_proj(v: int) -> int {
    if v > PROJ_CLAMP {
        PROJ_CLAMP as int
    } else if v < -PROJ_CLAMP {
        -PROJ_CLAMP as int
    } else {
        v
    }
}

/// A wall edge projected to screen space: the screen x of its two clipped
/// endpoints, the screen y of the bottom and top edges there, the clipped
/// camera-space depths, how much of the wall each clip consumed (as a
/// fixed-point fraction), the pre-clip wall width and the sorting distance.
#[derive(Debug, Clone, Copy, PartialEq, Eq, Structural)]
pub struct WallProjection {
    pub visible: bool,
    pub x1: i64,
    pub x2: i64,
    pub yb1: i64,
    pub yb2: i64,
    pub yt1: i64,
    pub yt2: i64,
    pub depth1: i64,
    pub depth2: i64,
    pub uclip1: i64,
    pub uclip2: i64,
    pub width: i64,
    pub distance: i64,
}

/// The wall endpoints in the order the face asks for: the back face reverses
/// the stored orientation.
pub open spec fn spec_oriented(w: Wall, face: Face) -> (Vec2, Vec2) {
    match face {
        Face::Front => (w.point1, w.point2),
        Face::Back => (w.point2, w.point1),
    }
}

/// Camera-space lateral coordinate of a translated point under the yaw
/// rotation.
pub open spec fn spec_rot_x(tx: int, ty: int, c: int, s: int) -> int {
    div_tz(tx * c - ty * s, 1024)
}

/// Camera-space depth of a translated point under the yaw rotation.
pub open spec fn spec_rot_y(tx: int, ty: int, c: int, s: int) -> int {
    div_tz(ty * c + tx * s, 1024)
}

/// One endpoint clipped toward the other at the near plane: the fraction
/// `s = d1 / (d1 - d2)` applied to x, both z edges and the depth, plus the
/// consumed fraction in fixed point. Equal depths mean no movement.
pub open spec fn spec_clip_endpoint(
    x1: int,
    zb1: int,
    zt1: int,
    d1: int,
    x2: int,
    zb2: int,
    zt2: int,
    d2: int,
) -> (int, int, int, int, int) {
    if d1 == d2 {
        (x1, zb1, zt1, d1, 0)
    } else {
        let den = d1 - d2;
        (
            x1 + div_tz(d1 * (x2 - x1), den),
            zb1 + div_tz(d1 * (zb2 - zb1), den),
            zt1 + div_tz(d1 * (zt2 - zt1), den),
            d1 + div_tz(d1 * (d2 - d1), den),
            div_tz(d1 * 1024, den),
        )
    }
}

/// What projecting a wall yields, as a function of the camera, the face, the
/// wall and the sector's height range alone.
pub open spec fn spec_project_wall(p: Player, face: Face, w: Wall, height: SectorHeight)
    -> WallProjection {
    let (a1, a2) = spec_oriented(w, face);
    let c = spec_cos_fp(p.angle as int);
    let s = spec_sin_fp(p.angle as int);
    let tx1 = a1.x - p.position.x;
    let ty1 = a1.y - p.position.y;
    let tx2 = a2.x - p.position.x;
    let ty2 = a2.y - p.position.y;
    let rx1 = spec_rot_x(tx1, ty1, c, s);
    let d1 = spec_rot_y(tx1, ty1, c, s);
    let rx2 = spec_rot_x(tx2, ty2, c, s);
    let d2 = spec_rot_y(tx2, ty2, c, s);
    let zb = height.bottom - p.position.z;
    let zt = height.top - p.position.z;
    let zb1 = zb + div_tz(p.updown * d1, UPDOWN_FACTOR as int);
    let zt1 = zt + div_tz(p.updown * d1, UPDOWN_FACTOR as int);
    let zb2 = zb + div_tz(p.updown * d2, UPDOWN_FACTOR as int);
    let zt2 = zt + div_tz(p.updown * d2, UPDOWN_FACTOR as int);
    let mx = div_tz(rx1 + rx2, 2);
    let my = div_tz(d1 + d2, 2);
    let dist = sqrt_floor((mx * mx + my * my) as nat) as int;
    let wwidth = sqrt_floor(w.point1.spec_dist_sq(w.point2) as nat) as int;
    if d1 < 1 && d2 < 1 {
        WallProjection {
            visible: false,
            x1: 0,
            x2: 0,
            yb1: 0,
            yb2: 0,
            yt1: 0,
            yt2: 0,
            depth1: 1,
            depth2: 1,
            uclip1: 0,
            uclip2: 0,
            width: wwidth as i64,
            distance: dist as i64,
        }
    } else {
        let (cx1, czb1, czt1, cd1, uclip1) = if d1 < 1 {
            spec_clip_endpoint(rx1, zb1, zt1, d1, rx2, zb2, zt2, d2)
        } else {
            (rx1, zb1, zt1, d1, 0)
        };
        let (cx2, czb2, czt2, cd2, uclip2) = if d2 < 1 {
            spec_clip_endpoint(rx2, zb2, zt2, d2, rx1, zb1, zt1, d1)
        } else {
            (rx2, zb2, zt2, d2, 0)
        };
        let fd1 = if cd1 < 1 {
            1
        } else {
            cd1
        };
        let fd2 = if cd2 < 1 {
            1
        } else {
            cd2
        };
        WallProjection {
            visible: true,
            x1: sat_proj(div_tz(cx1 * (FOV as int), fd1) + H_WIDTH) as i64,
            x2: sat_proj(div_tz(cx2 * (FOV as int), fd2) + H_WIDTH) as i64,
            yb1: sat_proj(H_HEIGHT - div_tz(czb1 * (FOV as int), fd1)) as i64,
            yb2: sat_proj(H_HEIGHT - div_tz(czb2 * (FOV as int), fd2)) as i64,
            yt1: sat_proj(H_HEIGHT - div_tz(czt1 * (FOV as int), fd1)) as i64,
            yt2: sat_proj(H_HEIGHT - div_tz(czt2 * (FOV as int), fd2)) as i64,
            depth1: fd1 as i64,
            depth2: fd2 as i64,
            uclip1: uclip1 as i64,
            uclip2: uclip2 as i64,
            width: wwidth as i64,
            distance: dist as i64,
        }
    }
}

/// Camera space for one map point: translate by the camera position, rotate
/// by the yaw angle; yields the lateral coordinate and the depth.
fn cam_space(player: &Player, trig: &TrigTable, q: Vec2) -> (r: (i128, i128))
    requires
        player.wf(),
        trig.wf(),
    ensures
        r.0 == spec_rot_x(
            q.x - player.position.x,
            q.y - player.position.y,
            spec_cos_fp(player.angle as int),
            spec_sin_fp(player.angle as int),
        ),
        r.1 == spec_rot_y(
            q.x - player.position.x,
            q.y - player.position.y,
            spec_cos_fp(player.angle as int),
            spec_sin_fp(player.angle as int),
        ),
        -0x8_0000_0000 < r.0 < 0x8_0000_0000,
        -0x8_0000_0000 < r.1 < 0x8_0000_0000,
{
    let c = player.cos(trig) as i128;
    let s = player.sin(trig) as i128;
    let ghost gc = spec_cos_fp(player.angle as int);
    let ghost gs = spec_sin_fp(player.angle as int);
    let tx = (q.x as i128) - (player.position.x as i128);
    let ty = (q.y as i128) - (player.position.y as i128);
    proof {
        crate::math::lemma_mul_abs_bound(tx as int, c as int, 0x1_0000_0000, 0x400);
        crate::math::lemma_mul_abs_bound(ty as int, s as int, 0x1_0000_0000, 0x400);
        crate::math::lemma_mul_abs_bound(ty as int, c as int, 0x1_0000_0000, 0x400);
        crate::math::lemma_mul_abs_bound(tx as int, s as int, 0x1_0000_0000, 0x400);
        crate::math::lemma_mul_congruence(tx as int, c as int, q.x - player.position.x, gc);
        crate::math::lemma_mul_congruence(ty as int, s as int, q.y - player.position.y, gs);
        crate::math::lemma_mul_congruence(ty as int, c as int, q.y - player.position.y, gc);
        crate::math::lemma_mul_congruence(tx as int, s as int, q.x - player.position.x, gs);
        crate::math::lemma_div_tz_bounds(tx * c - ty * s, 1024);
        crate::math::lemma_div_tz_bounds(ty * c + tx * s, 1024);
    }
    let rx = div_i128(tx * c - ty * s, 1024);
    let rd = div_i128(ty * c + tx * s, 1024);
    (rx, rd)
}

/// The distance from the camera to the pre-clip midpoint of a projected
/// wall, used only for sector sorting.
fn midpoint_dist(rx1: i128, rd1: i128, rx2: i128, rd2: i128) -> (r: i64)
    requires
        -0x8_0000_0000 < rx1 < 0x8_0000_0000,
        -0x8_0000_0000 < rd1 < 0x8_0000_0000,
        -0x8_0000_0000 < rx2 < 0x8_0000_0000,
        -0x8_0000_0000 < rd2 < 0x8_0000_0000,
    ensures
        ({
            let mx = div_tz(rx1 + rx2, 2);
            let my = div_tz(rd1 + rd2, 2);
            r == sqrt_floor((mx * mx + my * my) as nat)
        }),
        0 <= r < 0x20_0000_0000,
{
    proof {
        crate::math::lemma_div_tz_bounds(rx1 + rx2, 2);
        crate::math::lemma_div_tz_bounds(rd1 + rd2, 2);
    }
    let mx = div_i128(rx1 + rx2, 2);
    let my = div_i128(rd1 + rd2, 2);
    proof {
        crate::math::lemma_mul_abs_bound(mx as int, mx as int, 0x10_0000_0000, 0x10_0000_0000);
        crate::math::lemma_mul_abs_bound(my as int, my as int, 0x10_0000_0000, 0x10_0000_0000);
        crate::math::lemma_square_nonneg(mx as int);
        crate::math::lemma_square_nonneg(my as int);
        crate::math::lemma_mul_congruence(
            mx as int,
            mx as int,
            div_tz(rx1 + rx2, 2),
            div_tz(rx1 + rx2, 2),
        );
        crate::math::lemma_mul_congruence(
            my as int,
            my as int,
            div_tz(rd1 + rd2, 2),
            div_tz(rd1 + rd2, 2),
        );
    }
    let distsq = (mx * mx + my * my) as u128;
    let dist = isqrt_u128(distsq);
    proof {
        assert((0x20_0000_0000int) * (0x20_0000_0000int) > 0x200_0000_0000_0000_0000int)
            by (nonlinear_arith);
        crate::math::lemma_sqrt_floor_le(distsq as nat, 0x1F_FFFF_FFFF as nat);
    }
    dist as i64
}

/// Euclidean length of a wall, rounded down.
fn wall_width(p1: Vec2, p2: Vec2) -> (r: i64)
    ensures
        r == sqrt_floor(p1.spec_dist_sq(p2) as nat),
        0 <= r < 0x2_0000_0000,
{
    let wdx = (p1.x as i128) - (p2.x as i128);
    let wdy = (p1.y as i128) - (p2.y as i128);
    proof {
        crate::math::lemma_mul_abs_bound(wdx as int, wdx as int, 0x1_0000_0000, 0x1_0000_0000);
        crate::math::lemma_mul_abs_bound(wdy as int, wdy as int, 0x1_0000_0000, 0x1_0000_0000);
        crate::math::lemma_square_nonneg(wdx as int);
        crate::math::lemma_square_nonneg(wdy as int);
        crate::math::lemma_mul_congruence(wdx as int, wdx as int, p1.x - p2.x, p1.x - p2.x);
        crate::math::lemma_mul_congruence(wdy as int, wdy as int, p1.y - p2.y, p1.y - p2.y);
    }
    let wsq = (wdx * wdx + wdy * wdy) as u128;
    let w = isqrt_u128(wsq);
    proof {
        assert((0x2_0000_0000int) * (0x2_0000_0000int) > 0x2_0000_0000_0000_0000int)
            by (nonlinear_arith);
        crate::math::lemma_sqrt_floor_le(wsq as nat, 0x1_FFFF_FFFF as nat);
    }
    w as i64
}

/// Projects one wall edge from world space into camera space, clips it at
/// the near plane, and projects the result to screen space.
#[verifier::rlimit(100)]
pub fn project_wall(
    player: &Player,
    face: Face,
    wall: &Wall,
    height: &SectorHeight,
    trig: &TrigTable,
) -> (r: WallProjection)
    requires
        player.wf(),
        trig.wf(),
    ensures
        r == spec_project_wall(*player, face, *wall, *height),
        proj_in_range(r),
{
    let (a1, a2) = match face {
        Face::Front => (wall.point1, wall.point2),
        Face::Back => (wall.point2, wall.point1),
    };
    let (rx1, rd1) = cam_space(player, trig, a1);
    let (rx2, rd2) = cam_space(player, trig, a2);
    let ghost gc = spec_cos_fp(player.angle as int);
    let ghost gs = spec_sin_fp(player.angle as int);
    let ghost g_d1 = spec_rot_y(a1.x - player.position.x, a1.y - player.position.y, gc, gs);
    let ghost g_d2 = spec_rot_y(a2.x - player.position.x, a2.y - player.position.y, gc, gs);
    let zb = (height.bottom as i128) - (player.position.z as i128);
    let zt = (height.top as i128) - (player.position.z as i128);
    let ud = player.updown as i128;
    proof {
        crate::math::lemma_mul_abs_bound(ud as int, rd1 as int, 0x8000_0000, 0x8_0000_0000);
        crate::math::lemma_mul_abs_bound(ud as int, rd2 as int, 0x8000_0000, 0x8_0000_0000);
        crate::math::lemma_mul_congruence(ud as int, rd1 as int, player.updown as int, g_d1);
        crate::math::lemma_mul_congruence(ud as int, rd2 as int, player.updown as int, g_d2);
        crate::math::lemma_div_tz_bounds(ud * rd1, UPDOWN_FACTOR as int);
        crate::math::lemma_div_tz_bounds(ud * rd2, UPDOWN_FACTOR as int);
    }
    let shear1 = div_i128(ud * rd1, UPDOWN_FACTOR as i128);
    let shear2 = div_i128(ud * rd2, UPDOWN_FACTOR as i128);
    let zb1 = zb + shear1;
    let zt1 = zt + shear1;
    let zb2 = zb + shear2;
    let zt2 = zt + shear2;
    let dist = midpoint_dist(rx1, rd1, rx2, rd2);
    let wwidth = wall_width(wall.point1, wall.point2);
    if rd1 < 1 && rd2 < 1 {
        return WallProjection {
            visible: false,
            x1: 0,
            x2: 0,
            yb1: 0,
            yb2: 0,
            yt1: 0,
            yt2: 0,
            depth1: 1,
            depth2: 1,
            uclip1: 0,
            uclip2: 0,
            width: wwidth,
            distance: dist,
        };
    }
    let (cx1, czb1, czt1, cd1, uclip1) = if rd1 < 1 {
        clip_endpoint(rx1, zb1, zt1, rd1, rx2, zb2, zt2, rd2)
    } else {
        (rx1, zb1, zt1, rd1, 0i64)
    };
    let (cx2, czb2, czt2, cd2, uclip2) = if rd2 < 1 {
        clip_endpoint(rx2, zb2, zt2, rd2, rx1, zb1, zt1, rd1)
    } else {
        (rx2, zb2, zt2, rd2, 0i64)
    };
    let fd1: i128 = if cd1 < 1 {
        1
    } else {
        cd1
    };
    let fd2: i128 = if cd2 < 1 {
        1
    } else {
        cd2
    };
    proof {
        crate::math::lemma_div_tz_bounds(cx1 * (FOV as int), fd1 as int);
        crate::math::lemma_div_tz_bounds(cx2 * (FOV as int), fd2 as int);
        crate::math::lemma_div_tz_bounds(czb1 * (FOV as int), fd1 as int);
        crate::math::lemma_div_tz_bounds(czb2 * (FOV as int), fd2 as int);
        crate::math::lemma_div_tz_bounds(czt1 * (FOV as int), fd1 as int);
        crate::math::lemma_div_tz_bounds(czt2 * (FOV as int), fd2 as int);
    }
    let sx1 = sat_proj_exec(div_i128(cx1 * (FOV as i128), fd1) + (H_WIDTH as i128));
    let sx2 = sat_proj_exec(div_i128(cx2 * (FOV as i128), fd2) + (H_WIDTH as i128));
    let syb1 = sat_proj_exec((H_HEIGHT as i128) - div_i128(czb1 * (FOV as i128), fd1));
    let syb2 = sat_proj_exec((H_HEIGHT as i128) - div_i128(czb2 * (FOV as i128), fd2));
    let syt1 = sat_proj_exec((H_HEIGHT as i128) - div_i128(czt1 * (FOV as i128), fd1));
    let syt2 = sat_proj_exec((H_HEIGHT as i128) - div_i128(czt2 * (FOV as i128), fd2));
    WallProjection {
        visible: true,
        x1: sx1,
        x2: sx2,
        yb1: syb1,
        yb2: syb2,
        yt1: syt1,
        yt2: syt2,
        depth1: cd_to_i64(fd1),
        depth2: cd_to_i64(fd2),
        uclip1,
        uclip2,
        width: wwidth,
        distance: dist,
    }
}

/// Saturates a projected coordinate into the representable band.
fn sat_proj_exec(v: i128) -> (r: i64)
    ensures
        r == sat_proj(v as int),
{
    if v > PROJ_CLAMP as i128 {
        PROJ_CLAMP
    } else if v < -(PROJ_CLAMP as i128) {
        -PROJ_CLAMP
    } else {
        v as i64
    }
}

/// Narrows a clipped depth; the projector only calls it on depths no wider
/// than the band.
fn cd_to_i64(v: i128) -> (r: i64)
    requires
        -0x100_0000_0000 <= v <= 0x100_0000_0000,
    ensures
        r == v,
{
    v as i64
}

/// Clips the first endpoint toward the second at the near plane, mirroring
/// `spec_clip_endpoint`. Called with the first endpoint behind the plane and
/// the second on or beyond it.
fn clip_endpoint(
    x1: i128,
    zb1: i128,
    zt1: i128,
    d1: i128,
    x2: i128,
    zb2: i128,
    zt2: i128,
    d2: i128,
) -> (r: (i128, i128, i128, i128, i64))
    requires
        d1 < 1,
        d2 >= 1,
        -0x8_0000_0000 < x1 < 0x8_0000_0000,
        -0x8_0000_0000 < x2 < 0x8_0000_0000,
        -0x8_0000_0000 < d1 < 0x8_0000_0000,
        -0x8_0000_0000 < d2 < 0x8_0000_0000,
        -0x8_0000_0000_0000_0000_0000 < zb1 < 0x8_0000_0000_0000_0000_0000,
        -0x8_0000_0000_0000_0000_0000 < zb2 < 0x8_0000_0000_0000_0000_0000,
        -0x8_0000_0000_0000_0000_0000 < zt1 < 0x8_0000_0000_0000_0000_0000,
        -0x8_0000_0000_0000_0000_0000 < zt2 < 0x8_0000_0000_0000_0000_0000,
    ensures
        ({
            let (gx, gzb, gzt, gd, gu) = spec_clip_endpoint(
                x1 as int,
                zb1 as int,
                zt1 as int,
                d1 as int,
                x2 as int,
                zb2 as int,
                zt2 as int,
                d2 as int,
            );
            &&& r.0 == gx
            &&& r.1 == gzb
            &&& r.2 == gzt
            &&& r.3 == gd
            &&& r.4 == gu
            &&& -0x10_0000_0000 < r.3 < 0x10_0000_0000
            &&& 0 <= r.4 <= 1024
            &&& -0x20_0000_0000 < r.0 < 0x20_0000_0000
            &&& -0x20_0000_0000_0000_0000_0000 < r.1 < 0x20_0000_0000_0000_0000_0000
            &&& -0x20_0000_0000_0000_0000_0000 < r.2 < 0x20_0000_0000_0000_0000_0000
        }),
{
    let den = d1 - d2;
    proof {
        crate::math::lemma_mul_abs_bound(d1 as int, (x2 - x1) as int, 0x8_0000_0000, 0x10_0000_0000);
        crate::math::lemma_mul_abs_bound(
            d1 as int,
            (zb2 - zb1) as int,
            0x8_0000_0000,
            0x10_0000_0000_0000_0000_0000,
        );
        crate::math::lemma_mul_abs_bound(
            d1 as int,
            (zt2 - zt1) as int,
            0x8_0000_0000,
            0x10_0000_0000_0000_0000_0000,
        );
        crate::math::lemma_mul_abs_bound(d1 as int, (d2 - d1) as int, 0x8_0000_0000, 0x10_0000_0000);
        crate::math::lemma_abs_mul(d1 as int, (x2 - x1) as int);
        crate::math::lemma_abs_mul(d1 as int, (zb2 - zb1) as int);
        crate::math::lemma_abs_mul(d1 as int, (zt2 - zt1) as int);
        crate::math::lemma_abs_mul(d1 as int, (d2 - d1) as int);
        crate::math::lemma_abs_mul(d1 as int, 1024);
        assert(vstd::math::abs(d1 as int) <= vstd::math::abs(den as int) && vstd::math::abs(
            (d2 - d1) as int,
        ) == vstd::math::abs(den as int));
        assert(vstd::math::abs(d1 as int) * vstd::math::abs((x2 - x1) as int) <= vstd::math::abs(
            (x2 - x1) as int,
        ) * vstd::math::abs(den as int)) by (nonlinear_arith)
            requires
                vstd::math::abs(d1 as int) <= vstd::math::abs(den as int),
        ;
        assert(vstd::math::abs(d1 as int) * vstd::math::abs((zb2 - zb1) as int) <= vstd::math::abs(
            (zb2 - zb1) as int,
        ) * vstd::math::abs(den as int)) by (nonlinear_arith)
            requires
                vstd::math::abs(d1 as int) <= vstd::math::abs(den as int),
        ;
        assert(vstd::math::abs(d1 as int) * vstd::math::abs((zt2 - zt1) as int) <= vstd::math::abs(
            (zt2 - zt1) as int,
        ) * vstd::math::abs(den as int)) by (nonlinear_arith)
            requires
                vstd::math::abs(d1 as int) <= vstd::math::abs(den as int),
        ;
        assert(vstd::math::abs(d1 as int) * vstd::math::abs((d2 - d1) as int) <= vstd::math::abs(
            d1 as int,
        ) * vstd::math::abs(den as int)) by (nonlinear_arith)
            requires
                vstd::math::abs((d2 - d1) as int) == vstd::math::abs(den as int),
        ;
        assert(vstd::math::abs(d1 as int) * 1024 <= 1024 * vstd::math::abs(den as int))
            by (nonlinear_arith)
            requires
                vstd::math::abs(d1 as int) <= vstd::math::abs(den as int),
        ;
        crate::math::lemma_div_tz_quotient_bound(
            d1 * (x2 - x1),
            den as int,
            vstd::math::abs((x2 - x1) as int) as int,
        );
        crate::math::lemma_div_tz_quotient_bound(
            d1 * (zb2 - zb1),
            den as int,
            vstd::math::abs((zb2 - zb1) as int) as int,
        );
        crate::math::lemma_div_tz_quotient_bound(
            d1 * (zt2 - zt1),
            den as int,
            vstd::math::abs((zt2 - zt1) as int) as int,
        );
        crate::math::lemma_div_tz_quotient_bound(
            d1 * (d2 - d1),
            den as int,
            vstd::math::abs(d1 as int) as int,
        );
        crate::math::lemma_div_tz_quotient_bound(d1 * 1024, den as int, 1024);
    }
    let nx = x1 + div_i128(d1 * (x2 - x1), den);
    let nzb = zb1 + div_i128(d1 * (zb2 - zb1), den);
    let nzt = zt1 + div_i128(d1 * (zt2 - zt1), den);
    let nd = d1 + div_i128(d1 * (d2 - d1), den);
    let nu = div_i128(d1 * 1024, den);
    proof {
        assert(d1 * 1024 <= 0);
        if d1 * 1024 < 0 {
        } else {
            assert(vstd::math::abs(d1 * 1024) == 0);
        }
    }
    (nx, nzb, nzt, nd, nu as i64)
}

/// Pre-clip camera-space depth of a wall endpoint: what the near-plane test
/// sees.
pub open spec fn spec_pre_depth(p: Player, q: Vec2) -> int {
    spec_rot_y(
        q.x - p.position.x,
        q.y - p.position.y,
        spec_cos_fp(p.angle as int),
        spec_sin_fp(p.angle as int),
    )
}

/// Projecting the same camera, face, wall and heights always yields the same
/// result: projection is a pure function of its inputs.
pub proof fn lemma_projection_deterministic(
    r1: WallProjection,
    r2: WallProjection,
    p: Player,
    face: Face,
    w: Wall,
    height: SectorHeight,
)
    requires
        r1 == spec_project_wall(p, face, w, height),
        r2 == spec_project_wall(p, face, w, height),
    ensures
        r1 == r2,
{
}

/// A wall is projected as visible exactly when at least one endpoint lies on
/// or beyond the near plane.
pub proof fn lemma_visibility(p: Player, face: Face, w: Wall, height: SectorHeight)
    ensures
        ({
            let (a1, a2) = spec_oriented(w, face);
            spec_project_wall(p, face, w, height).visible <==> !(spec_pre_depth(p, a1) < 1
                && spec_pre_depth(p, a2) < 1)
        }),
{
}

/// Linear interpolation of an edge coordinate at the center of column `x`
/// between the projected endpoints.
pub open spec fn spec_interp(v1: int, v2: int, x: int, x1: int, x2: int) -> int {
    v1 + div_tz((v2 - v1) * (2 * (x - x1) + 1), 2 * (x2 - x1))
}

/// Evaluates `spec_interp` on projected values.
fn interp_edge(v1: i64, v2: i64, x: i64, x1: i64, x2: i64) -> (r: i64)
    requires
        x1 <= x < x2,
        -0x100_0000_0000 <= v1 <= 0x100_0000_0000,
        -0x100_0000_0000 <= v2 <= 0x100_0000_0000,
        -0x100_0000_0000 <= x1 <= 0x100_0000_0000,
        -0x100_0000_0000 <= x2 <= 0x100_0000_0000,
    ensures
        r == spec_interp(v1 as int, v2 as int, x as int, x1 as int, x2 as int),
        -0x300_0000_0000 <= r <= 0x300_0000_0000,
{
    let dv = (v2 as i128) - (v1 as i128);
    let a = 2 * ((x as i128) - (x1 as i128)) + 1;
    let den = 2 * ((x2 as i128) - (x1 as i128));
    proof {
        crate::math::lemma_mul_abs_bound(dv as int, a as int, 0x200_0000_0000, 0x500_0000_0000);
        crate::math::lemma_abs_mul(dv as int, a as int);
        assert(vstd::math::abs(dv * a) <= vstd::math::abs(dv as int) * vstd::math::abs(den as int))
            by (nonlinear_arith)
            requires
                vstd::math::abs(dv * a) == vstd::math::abs(dv as int) * vstd::math::abs(a as int),
                vstd::math::abs(a as int) <= vstd::math::abs(den as int),
        ;
        crate::math::lemma_div_tz_quotient_bound(
            dv * a,
            den as int,
            vstd::math::abs(dv as int) as int,
        );
    }
    let q = div_i128(dv * a, den);
    (v1 as i128 + q) as i64
}

/// The part of the framebuffer outside one column span is untouched.
pub open spec fn outside_span_unchanged(
    oldd: Seq<u8>,
    newd: Seq<u8>,
    w: int,
    h: int,
    x: int,
    y0: int,
    y1: int,
) -> bool {
    &&& newd.len() == oldd.len()
    &&& forall|xx: int, yy: int|
        0 <= xx < w && 0 <= yy < h && !(xx == x && y0 <= yy < y1) ==> #[trigger] crate::frame::pixel_bytes(
            newd,
            w,
            xx,
            yy,
        ) == crate::frame::pixel_bytes(oldd, w, xx, yy)
}

/// Fills the rows `[y0, y1)` of column `x` with one color; everything else,
/// and everything off screen, is untouched.
pub fn draw_vline_color(frame: &mut Frame, x: i64, y0: i64, y1: i64, color: [u8; 4])
    requires
        old(frame).wf(),
        -0x400_0000_0000 <= y0 <= 0x400_0000_0000,
        -0x400_0000_0000 <= y1 <= 0x400_0000_0000,
    ensures
        final(frame).wf(),
        final(frame).width == old(frame).width,
        final(frame).height == old(frame).height,
        outside_span_unchanged(
            old(frame).data@,
            final(frame).data@,
            old(frame).width as int,
            old(frame).height as int,
            x as int,
            y0 as int,
            y1 as int,
        ),
        forall|yy: int|
            0 <= x < old(frame).width && y0 <= yy < y1 && 0 <= yy < old(frame).height
                ==> #[trigger] crate::frame::pixel_bytes(
                final(frame).data@,
                old(frame).width as int,
                x as int,
                yy,
            ) == color@,
{
    if x < 0 || x >= frame.width as i64 {
        return;
    }
    let xi = x as i32;
    let h = frame.height as i64;
    let mut yy: i64 = if y0 < 0 {
        0
    } else {
        y0
    };
    let ye: i64 = if y1 > h {
        h
    } else {
        y1
    };
    while yy < ye
        invariant
            frame.wf(),
            frame.width == old(frame).width,
            frame.height == old(frame).height,
            0 <= x < frame.width,
            xi == x,
            h == frame.height,
            ye <= h,
            y0 <= yy || yy == 0,
            yy >= 0,
            yy >= y0,
            ye == if y1 > h { h } else { y1 },
            outside_span_unchanged(
                old(frame).data@,
                frame.data@,
                old(frame).width as int,
                old(frame).height as int,
                x as int,
                y0 as int,
                y1 as int,
            ),
            forall|r: int|
                y0 <= r < yy && 0 <= r < frame.height ==> #[trigger] crate::frame::pixel_bytes(
                    frame.data@,
                    old(frame).width as int,
                    x as int,
                    r,
                ) == color@,
        decreases ye - yy,
    {
        let ghost before = *frame;
        proof {
            crate::frame::lemma_write_pixel_effect(*frame, x as int, yy as int, color);
        }
        frame.write_pixel(xi, yy as i32, color);
        yy = yy + 1;
    }
}

/// The texture row coordinate for screen row `yy` of a wall strip whose
/// unclamped edges are `y0` (top) and `y1` (bottom) and whose full height
/// spans `vspan` texels.
pub open spec fn spec_wall_v(y0: int, y1: int, vspan: int, yy: int) -> int {
    div_tz((yy - y0) * vspan, y1 - y0)
}

/// Fills the rows `[max(y0,0), min(y1,h))` of column `x` with a vertical
/// strip of `tex`, stepping the texture row linearly from the unclamped
/// edges; everything else is untouched.
pub fn draw_vline_tex(
    frame: &mut Frame,
    x: i64,
    y0: i64,
    y1: i64,
    tex: &crate::texture::Texture,
    u: i32,
    vspan: i64,
    shade: u8,
)
    requires
        old(frame).wf(),
        tex.wf(),
        -0x400_0000_0000 <= y0 <= 0x400_0000_0000,
        -0x400_0000_0000 <= y1 <= 0x400_0000_0000,
        -0x400_0000_0000 <= vspan <= 0x400_0000_0000,
    ensures
        final(frame).wf(),
        final(frame).width == old(frame).width,
        final(frame).height == old(frame).height,
        outside_span_unchanged(
            old(frame).data@,
            final(frame).data@,
            old(frame).width as int,
            old(frame).height as int,
            x as int,
            y0 as int,
            y1 as int,
        ),
        forall|yy: int|
            0 <= x < old(frame).width && y0 <= yy < y1 && 0 <= yy < old(frame).height && y0 < y1
                ==> #[trigger] crate::frame::pixel_bytes(
                final(frame).data@,
                old(frame).width as int,
                x as int,
                yy,
            ) == tex.spec_sample(u as int, spec_wall_v(y0 as int, y1 as int, vspan as int, yy), shade),
{
    if x < 0 || x >= frame.width as i64 {
        return;
    }
    if y1 <= y0 {
        return;
    }
    let xi = x as i32;
    let h = frame.height as i64;
    let mut yy: i64 = if y0 < 0 {
        0
    } else {
        y0
    };
    let ye: i64 = if y1 > h {
        h
    } else {
        y1
    };
    while yy < ye
        invariant
            frame.wf(),
            frame.width == old(frame).width,
            frame.height == old(frame).height,
            tex.wf(),
            0 <= x < frame.width,
            xi == x,
            h == frame.height,
            ye <= h,
            y0 < y1,
            yy >= 0,
            yy >= y0,
            -0x400_0000_0000 <= y0 <= 0x400_0000_0000,
            -0x400_0000_0000 <= y1 <= 0x400_0000_0000,
            -0x400_0000_0000 <= vspan <= 0x400_0000_0000,
            ye == if y1 > h { h } else { y1 },
            outside_span_unchanged(
                old(frame).data@,
                frame.data@,
                old(frame).width as int,
                old(frame).height as int,
                x as int,
                y0 as int,
                y1 as int,
            ),
            forall|r: int|
                y0 <= r < yy && 0 <= r < frame.height ==> #[trigger] crate::frame::pixel_bytes(
                    frame.data@,
                    old(frame).width as int,
                    x as int,
                    r,
                ) == tex.spec_sample(
                    u as int,
                    spec_wall_v(y0 as int, y1 as int, vspan as int, r),
                    shade,
                ),
        decreases ye - yy,
    {
        proof {
            crate::math::lemma_mul_abs_bound(
                ((yy as i128) - (y0 as i128)) as int,
                vspan as int,
                0x800_0000_0000,
                0x400_0000_0000,
            );
            crate::math::lemma_div_tz_bounds(
                ((yy as i128) - (y0 as i128)) * (vspan as i128),
                (y1 - y0) as int,
            );
        }
        let vq = div_i128(((yy as i128) - (y0 as i128)) * (vspan as i128), (y1 as i128) - (y0
            as i128));
        let v = wrap_i128(vq, tex.dimensions.y);
        proof {
            crate::math::lemma_mul_congruence(
                ((yy as i128) - (y0 as i128)) as int,
                vspan as int,
                yy - y0,
                vspan as int,
            );
        }
        let color = tex.uv_pixel_shade(u, v, shade);
        proof {
            crate::frame::lemma_write_pixel_effect(*frame, x as int, yy as int, color);
            lemma_sample_wrap_v(*tex, u as int, vq as int, shade);
        }
        frame.write_pixel(xi, yy as i32, color);
        yy = yy + 1;
    }
}

/// Sampling with a pre-wrapped u coordinate addresses the same texel.
proof fn lemma_sample_wrap_u(tex: crate::texture::Texture, u: int, v: int, shade: u8)
    requires
        tex.wf(),
    ensures
        tex.spec_sample(u % (tex.dimensions.x as int), v, shade) == tex.spec_sample(u, v, shade),
{
    let ww = tex.dimensions.x as int;
    vstd::arithmetic::div_mod::lemma_mod_twice(u, ww);
    assert(tex.spec_sample(u % ww, v, shade) =~= tex.spec_sample(u, v, shade));
}

/// Sampling with a pre-wrapped v coordinate addresses the same texel.
proof fn lemma_sample_wrap_v(tex: crate::texture::Texture, u: int, v: int, shade: u8)
    requires
        tex.wf(),
    ensures
        tex.spec_sample(u, v % (tex.dimensions.y as int), shade) == tex.spec_sample(u, v, shade),
{
    let hh = tex.dimensions.y as int;
    let vm = v % hh;
    assert((hh - vm - 1) % hh == (hh - v - 1) % hh) by {
        vstd::arithmetic::div_mod::lemma_sub_mod_noop_right(hh - 1, v, hh);
        vstd::arithmetic::div_mod::lemma_sub_mod_noop_right(hh - 1, vm, hh);
        vstd::arithmetic::div_mod::lemma_mod_twice(v, hh);
    }
    assert(tex.spec_sample(u, vm, shade) =~= tex.spec_sample(u, v, shade));
}

/// Euclidean wrap of a wide value by a positive 32-bit modulus.
fn wrap_i128(a: i128, m: i32) -> (r: i32)
    requires
        m > 0,
    ensures
        r == a as int % m as int,
        0 <= r < m,
{
    let rr = match a.checked_rem_euclid(m as i128) {
        Some(r) => r,
        None => 0,
    };
    rr as i32
}

/// All fields of a projection stay in the bands the rasterizer computes
/// with.
pub open spec fn proj_in_range(p: WallProjection) -> bool {
    &&& -PROJ_CLAMP <= p.x1 <= PROJ_CLAMP
    &&& -PROJ_CLAMP <= p.x2 <= PROJ_CLAMP
    &&& -PROJ_CLAMP <= p.yb1 <= PROJ_CLAMP
    &&& -PROJ_CLAMP <= p.yb2 <= PROJ_CLAMP
    &&& -PROJ_CLAMP <= p.yt1 <= PROJ_CLAMP
    &&& -PROJ_CLAMP <= p.yt2 <= PROJ_CLAMP
    &&& 1 <= p.depth1 <= PROJ_CLAMP
    &&& 1 <= p.depth2 <= PROJ_CLAMP
    &&& 0 <= p.uclip1 <= 1024
    &&& 0 <= p.uclip2 <= 1024
    &&& 0 <= p.width < 0x2_0000_0000
    &&& 0 <= p.distance < 0x20_0000_0000
}

/// Perspective-correct texture column at screen column `x`: linear
/// interpolation of `u / z` and `1 / z`, folded into one integer quotient.
pub open spec fn spec_persp_u(
    u1: int,
    u2: int,
    d1: int,
    d2: int,
    x: int,
    x1: int,
    x2: int,
) -> int {
    let a = 2 * (x - x1) + 1;
    let b = 2 * (x2 - x1) - a;
    div_tz(u1 * d2 * b + u2 * d1 * a, d2 * b + d1 * a)
}

/// Evaluates `spec_persp_u` on projected values.
fn persp_u(u1: i64, u2: i64, d1: i64, d2: i64, x: i64, x1: i64, x2: i64) -> (r: i128)
    requires
        x1 <= x < x2,
        1 <= d1 <= PROJ_CLAMP,
        1 <= d2 <= PROJ_CLAMP,
        -PROJ_CLAMP <= u1 <= PROJ_CLAMP,
        -PROJ_CLAMP <= u2 <= PROJ_CLAMP,
        -PROJ_CLAMP <= x1 <= PROJ_CLAMP,
        -PROJ_CLAMP <= x2 <= PROJ_CLAMP,
    ensures
        r == spec_persp_u(u1 as int, u2 as int, d1 as int, d2 as int, x as int, x1 as int, x2 as int),
        -PROJ_CLAMP <= r <= PROJ_CLAMP,
{
    let a: i128 = 2 * ((x as i128) - (x1 as i128)) + 1;
    let b: i128 = 2 * ((x2 as i128) - (x1 as i128)) - a;
    proof {
        crate::math::lemma_mul_abs_bound(u1 as int, d2 as int, 0x100_0000_0000, 0x100_0000_0000);
        crate::math::lemma_mul_abs_bound(
            (u1 as i128 * d2 as i128) as int,
            b as int,
            0x10000_0000_0000_0000_0000,
            0x500_0000_0000,
        );
        crate::math::lemma_mul_abs_bound(u2 as int, d1 as int, 0x100_0000_0000, 0x100_0000_0000);
        crate::math::lemma_mul_abs_bound(
            (u2 as i128 * d1 as i128) as int,
            a as int,
            0x10000_0000_0000_0000_0000,
            0x500_0000_0000,
        );
        crate::math::lemma_mul_abs_bound(d2 as int, b as int, 0x100_0000_0000, 0x500_0000_0000);
        crate::math::lemma_mul_abs_bound(d1 as int, a as int, 0x100_0000_0000, 0x500_0000_0000);
        assert(d2 as i128 * b >= 1 * 1 && d1 as i128 * a >= 1 * 1) by (nonlinear_arith)
            requires
                d1 as i128 >= 1,
                d2 as i128 >= 1,
                a >= 1,
                b >= 1,
        ;
        let m = PROJ_CLAMP as int;
        assert((u1 as i128 * d2 as i128) * b + (u2 as i128 * d1 as i128) * a <= m * ((d2 as i128)
            * b + (d1 as i128) * a) && -(m * ((d2 as i128) * b + (d1 as i128) * a)) <= (u1 as i128
            * d2 as i128) * b + (u2 as i128 * d1 as i128) * a) by (nonlinear_arith)
            requires
                m > 0,
                -m <= u1 <= m,
                -m <= u2 <= m,
                1 <= d1,
                1 <= d2,
                a >= 1,
                b >= 1,
                u1 as i128 * d2 as i128 == u1 as int * (d2 as int),
                u2 as i128 * d1 as i128 == u2 as int * (d1 as int),
        ;
        crate::math::lemma_abs_mul(m, (d2 as i128) * b + (d1 as i128) * a);
        crate::math::lemma_div_tz_quotient_bound(
            (u1 as i128 * d2 as i128) * b + (u2 as i128 * d1 as i128) * a,
            (d2 as i128) * b + (d1 as i128) * a,
            m,
        );
    }
    let num = (u1 as i128 * d2 as i128) * b + (u2 as i128 * d1 as i128) * a;
    let den = (d2 as i128) * b + (d1 as i128) * a;
    div_i128(num, den)
}

/// The inverse-perspective plane lookup: for a screen pixel and a horizontal
/// plane `dz` above the camera, the world point whose projection lands
/// there, in plane-tile texture units. `None` when the pixel row lies on the
/// sheared horizon or maps behind the camera.
pub open spec fn spec_plane_uv(p: Player, dz: int, x: int, yy: int) -> Option<(int, int)> {
    let c = spec_cos_fp(p.angle as int);
    let s = spec_sin_fp(p.angle as int);
    let horizon = H_HEIGHT - div_tz(p.updown * (crate::consts::FOV as int), UPDOWN_FACTOR as int);
    if yy == horizon {
        None
    } else {
        let d = div_tz(dz * (crate::consts::FOV as int), horizon - yy);
        if d < 1 {
            None
        } else {
            let cx = div_tz((x - H_WIDTH) * d, crate::consts::FOV as int);
            let wx = div_tz(cx * c + d * s, 1024) + p.position.x;
            let wy = div_tz(d * c - cx * s, 1024) + p.position.y;
            Some((div_tz(wx, crate::consts::PLANE_TILE as int), div_tz(wy, crate::consts::PLANE_TILE as int)))
        }
    }
}

/// Evaluates `spec_plane_uv` for one pixel.
fn plane_uv(player: &Player, trig: &TrigTable, dz: i64, x: i64, yy: i64) -> (r: Option<(i64, i64)>)
    requires
        player.wf(),
        trig.wf(),
        -0x1_0000_0000 <= dz <= 0x1_0000_0000,
        0 <= x < 0x8000,
        0 <= yy < 0x8000,
    ensures
        match r {
            Some(uv) => Some((uv.0 as int, uv.1 as int)) == spec_plane_uv(
                *player,
                dz as int,
                x as int,
                yy as int,
            ),
            None => spec_plane_uv(*player, dz as int, x as int, yy as int) is None,
        },
{
    let c = player.cos(trig) as i128;
    let s = player.sin(trig) as i128;
    let ghost gc = spec_cos_fp(player.angle as int);
    let ghost gs = spec_sin_fp(player.angle as int);
    proof {
        crate::math::lemma_div_tz_bounds(
            player.updown as int * (crate::consts::FOV as int),
            UPDOWN_FACTOR as int,
        );
    }
    let shear = crate::math::div_i64(
        (player.updown as i64) * (crate::consts::FOV as i64),
        UPDOWN_FACTOR as i64,
    );
    let horizon: i64 = (H_HEIGHT as i64) - shear;
    if yy == horizon {
        return None;
    }
    proof {
        crate::math::lemma_div_tz_bounds(
            dz as int * (crate::consts::FOV as int),
            horizon - yy,
        );
    }
    let d = crate::math::div_i64((dz as i64) * (crate::consts::FOV as i64), horizon - (yy as i64));
    if d < 1 {
        return None;
    }
    proof {
        crate::math::lemma_mul_abs_bound(
            (x as i128 - H_WIDTH as i128) as int,
            d as int,
            0x10000,
            0x200_0000_0000,
        );
        crate::math::lemma_mul_congruence(
            (x as i128 - H_WIDTH as i128) as int,
            d as int,
            x - (H_WIDTH as int),
            d as int,
        );
        crate::math::lemma_div_tz_bounds(
            (x - (H_WIDTH as int)) * (d as int),
            crate::consts::FOV as int,
        );
    }
    let cx = div_i128((x as i128 - H_WIDTH as i128) * (d as i128), crate::consts::FOV as i128);
    proof {
        crate::math::lemma_mul_abs_bound(cx as int, c as int, 0x2000_0000_0000_0000, 0x400);
        crate::math::lemma_mul_abs_bound(d as int, s as int, 0x200_0000_0000, 0x400);
        crate::math::lemma_mul_abs_bound(d as int, c as int, 0x200_0000_0000, 0x400);
        crate::math::lemma_mul_abs_bound(cx as int, s as int, 0x2000_0000_0000_0000, 0x400);
        crate::math::lemma_mul_congruence(cx as int, c as int, cx as int, gc);
        crate::math::lemma_mul_congruence(d as int, s as int, d as int, gs);
        crate::math::lemma_mul_congruence(d as int, c as int, d as int, gc);
        crate::math::lemma_mul_congruence(cx as int, s as int, cx as int, gs);
        crate::math::lemma_div_tz_bounds(cx as int * gc + d as int * gs, 1024);
        crate::math::lemma_div_tz_bounds(d as int * gc - cx as int * gs, 1024);
    }
    let wx = div_i128(cx * c + (d as i128) * s, 1024) + (player.position.x as i128);
    let wy = div_i128((d as i128) * c - cx * s, 1024) + (player.position.y as i128);
    proof {
        crate::math::lemma_div_tz_bounds(wx as int, crate::consts::PLANE_TILE as int);
        crate::math::lemma_div_tz_bounds(wy as int, crate::consts::PLANE_TILE as int);
    }
    let u = div_i128(wx, crate::consts::PLANE_TILE as i128);
    let v = div_i128(wy, crate::consts::PLANE_TILE as i128);
    Some((u as i64, v as i64))
}

/// The row span a back face may fill at one column: between the plane edge
/// just projected and the silhouette the front pass recorded. The fill never
/// crosses the silhouette: for a Top sector it ends at it, for a Bottom
/// sector it starts at it.
pub open spec fn spec_back_span(view: SurfaceView, sil: int, y_back: int) -> (int, int) {
    match view {
        SurfaceView::Top => (sil, y_back),
        SurfaceView::Bottom => (y_back, sil),
        SurfaceView::Mid => (0, 0),
    }
}

/// Silhouette occlusion: whatever the back face fills at a column stays on
/// the camera side of the silhouette recorded by the front pass.
pub proof fn lemma_back_span_respects_silhouette(view: SurfaceView, sil: int, y_back: int)
    ensures
        ({
            let (y0, y1) = spec_back_span(view, sil, y_back);
            &&& (view is Top ==> y0 >= sil)
            &&& (view is Bottom ==> y1 <= sil)
        }),
{
}

/// Fills the plane span of one column of a back face, bounded by the
/// silhouette; pixels of other columns, and rows beyond the span, keep their
/// bytes.
fn draw_back_column(
    frame: &mut Frame,
    x: i64,
    sil: i32,
    y_back: i64,
    view: SurfaceView,
    plane_material: &Material,
    plane_dz: i64,
    textures: &TextureSet,
    player: &Player,
    trig: &TrigTable,
)
    requires
        old(frame).wf(),
        old(frame).width <= 0x8000,
        old(frame).height <= 0x8000,
        textures.wf(),
        player.wf(),
        trig.wf(),
        spec_material_ok(*plane_material, *textures),
        -0x1_0000_0000 <= plane_dz <= 0x1_0000_0000,
        -0x400_0000_0000 <= y_back <= 0x400_0000_0000,
        0 <= sil <= 0x8000,
    ensures
        final(frame).wf(),
        final(frame).width == old(frame).width,
        final(frame).height == old(frame).height,
        outside_span_unchanged(
            old(frame).data@,
            final(frame).data@,
            old(frame).width as int,
            old(frame).height as int,
            x as int,
            spec_back_span(view, sil as int, y_back as int).0,
            spec_back_span(view, sil as int, y_back as int).1,
        ),
        plane_material is Color ==> forall|yy: int|
            0 <= x < old(frame).width && spec_back_span(view, sil as int, y_back as int).0 <= yy
                < spec_back_span(view, sil as int, y_back as int).1 && 0 <= yy < old(frame).height
                ==> #[trigger] crate::frame::pixel_bytes(
                final(frame).data@,
                old(frame).width as int,
                x as int,
                yy,
            ) == plane_material->Color_0@,
        plane_material is Texture ==> forall|yy: int|
            0 <= x < old(frame).width && spec_back_span(view, sil as int, y_back as int).0 <= yy
                < spec_back_span(view, sil as int, y_back as int).1 && 0 <= yy < old(frame).height
                ==> #[trigger] crate::frame::pixel_bytes(
                final(frame).data@,
                old(frame).width as int,
                x as int,
                yy,
            ) == (match spec_plane_uv(*player, plane_dz as int, x as int, yy) {
                Some(uv) => textures.set[plane_material->Texture_0.texture as int].spec_sample(
                    uv.0,
                    uv.1,
                    plane_material->Texture_0.shade,
                ),
                None => crate::frame::pixel_bytes(old(frame).data@, old(frame).width as int, x as int, yy),
            }),
{
    let (y0, y1): (i64, i64) = match view {
        SurfaceView::Top => (sil as i64, y_back),
        SurfaceView::Bottom => (y_back, sil as i64),
        SurfaceView::Mid => (0, 0),
    };
    match plane_material {
        Material::Color(color) => {
            draw_vline_color(frame, x, y0, y1, *color);
        },
        Material::Texture(tm) => {
            let tex = &textures.set[tm.texture];
            if x < 0 || x >= frame.width as i64 {
                return;
            }
            let xi = x as i32;
            let h = frame.height as i64;
            let mut yy: i64 = if y0 < 0 {
                0
            } else {
                y0
            };
            let ye: i64 = if y1 > h {
                h
            } else {
                y1
            };
            while yy < ye
                invariant
                    frame.wf(),
                    frame.width == old(frame).width,
                    frame.height == old(frame).height,
                    frame.width <= 0x8000,
                    frame.height <= 0x8000,
                    tex == textures.set[tm.texture as int],
                    tex.wf(),
                    player.wf(),
                    trig.wf(),
                    0 <= x < frame.width,
                    xi == x,
                    h == frame.height,
                    ye <= h,
                    ye <= y1,
                    yy >= 0,
                    yy >= y0,
                    -0x1_0000_0000 <= plane_dz <= 0x1_0000_0000,
                    outside_span_unchanged(
                        old(frame).data@,
                        frame.data@,
                        old(frame).width as int,
                        old(frame).height as int,
                        x as int,
                        y0 as int,
                        y1 as int,
                    ),
                    forall|r: int|
                        y0 <= r < yy && 0 <= r < frame.height ==> #[trigger] crate::frame::pixel_bytes(
                            frame.data@,
                            old(frame).width as int,
                            x as int,
                            r,
                        ) == (match spec_plane_uv(*player, plane_dz as int, x as int, r) {
                            Some(uv) => tex.spec_sample(uv.0, uv.1, tm.shade),
                            None => crate::frame::pixel_bytes(
                                old(frame).data@,
                                old(frame).width as int,
                                x as int,
                                r,
                            ),
                        }),
                    forall|r: int|
                        yy <= r < y1 && 0 <= r < frame.height ==> #[trigger] crate::frame::pixel_bytes(
                            frame.data@,
                            old(frame).width as int,
                            x as int,
                            r,
                        ) == crate::frame::pixel_bytes(
                            old(frame).data@,
                            old(frame).width as int,
                            x as int,
                            r,
                        ),
                decreases ye - yy,
            {
                match plane_uv(player, trig, plane_dz, x, yy) {
                    Some((u, v)) => {
                        let ui = wrap_i128(u as i128, tex.dimensions.x);
                        let vi = wrap_i128(v as i128, tex.dimensions.y);
                        let color = tex.uv_pixel_shade(ui, vi, tm.shade);
                        proof {
                            let guv = spec_plane_uv(*player, plane_dz as int, x as int, yy as int)->Some_0;
                            lemma_sample_wrap_u(*tex, guv.0, vi as int, tm.shade);
                            lemma_sample_wrap_v(*tex, guv.0, guv.1, tm.shade);
                            crate::frame::lemma_write_pixel_effect(*frame, x as int, yy as int, color);
                        }
                        frame.write_pixel(xi, yy as i32, color);
                    },
                    None => {},
                }
                yy = yy + 1;
            }
        },
    }
}

/// A material's texture reference, if any, points into the set.
pub open spec fn spec_material_ok(m: Material, textures: TextureSet) -> bool {
    match m {
        Material::Color(_) => true,
        Material::Texture(tm) => tm.texture < textures.set.len(),
    }
}

/// The quotient of a nonpositive numerator and a negative denominator is
/// nonnegative; symmetrically a nonnegative numerator gives a nonpositive
/// quotient.
pub proof fn lemma_div_tz_sign_neg_den(num: int, den: int)
    requires
        den < 0,
    ensures
        num <= 0 ==> div_tz(num, den) >= 0,
        num >= 0 ==> div_tz(num, den) <= 0,
{
    vstd::arithmetic::div_mod::lemma_div_pos_is_pos(
        vstd::math::abs(num) as int,
        vstd::math::abs(den) as int,
    );
}

/// An exact multiple divides back to its factor, for either divisor sign.
pub proof fn lemma_div_tz_exact_any(p: int, c: int)
    requires
        c != 0,
    ensures
        div_tz(p * c, c) == p,
{
    if c > 0 {
        crate::math::lemma_div_tz_exact(p, c);
    } else {
        // negating both operands leaves the truncating quotient unchanged
        crate::math::lemma_div_tz_exact(p, -c);
        assert(p * c == -(p * (-c))) by (nonlinear_arith);
        assert(vstd::math::abs(-(p * (-c))) == vstd::math::abs(p * (-c)));
        assert(div_tz(p * c, c) == p);
    }
}

/// The interpolated clip offset lands between the two endpoint values.
pub proof fn lemma_clip_interp_between(v1: int, v2: int, d1: int, den: int)
    requires
        d1 <= 0,
        den < 0,
        vstd::math::abs(d1) <= vstd::math::abs(den),
    ensures
        v1 <= v2 ==> v1 <= v1 + div_tz(d1 * (v2 - v1), den) <= v2,
        v2 <= v1 ==> v2 <= v1 + div_tz(d1 * (v2 - v1), den) <= v1,
{
    let dv = v2 - v1;
    crate::math::lemma_abs_mul(d1, dv);
    assert(vstd::math::abs(d1) * vstd::math::abs(dv) <= vstd::math::abs(dv) * vstd::math::abs(den))
        by (nonlinear_arith)
        requires
            vstd::math::abs(d1) <= vstd::math::abs(den),
    ;
    crate::math::lemma_div_tz_quotient_bound(d1 * dv, den, vstd::math::abs(dv) as int);
    lemma_div_tz_sign_neg_den(d1 * dv, den);
    if dv >= 0 {
        assert(d1 * dv <= 0) by (nonlinear_arith)
            requires
                d1 <= 0,
                dv >= 0,
        ;
    } else {
        assert(d1 * dv >= 0) by (nonlinear_arith)
            requires
                d1 <= 0,
                dv <= 0,
        ;
    }
}

/// The near-plane clip law: when exactly the first endpoint lies behind the
/// camera, its clipped depth is exactly zero (so exactly one after the
/// clamp), the clipped point lies on the segment between the two endpoints
/// in every coordinate, and the consumed fraction stays inside the unit.
pub proof fn lemma_near_clip(
    x1: int,
    zb1: int,
    zt1: int,
    d1: int,
    x2: int,
    zb2: int,
    zt2: int,
    d2: int,
)
    requires
        d1 < 1,
        d2 >= 1,
    ensures
        ({
            let (cx, czb, czt, cd, cu) = spec_clip_endpoint(x1, zb1, zt1, d1, x2, zb2, zt2, d2);
            &&& cd == 0
            &&& (if cd < 1 {
                1int
            } else {
                cd
            }) == 1
            &&& (x1 <= x2 ==> x1 <= cx <= x2)
            &&& (x2 <= x1 ==> x2 <= cx <= x1)
            &&& (zb1 <= zb2 ==> zb1 <= czb <= zb2)
            &&& (zb2 <= zb1 ==> zb2 <= czb <= zb1)
            &&& (zt1 <= zt2 ==> zt1 <= czt <= zt2)
            &&& (zt2 <= zt1 ==> zt2 <= czt <= zt1)
            &&& 0 <= cu < 1024
        }),
{
    let den = d1 - d2;
    assert(vstd::math::abs(d1) < vstd::math::abs(den));
    lemma_clip_interp_between(x1, x2, d1, den);
    lemma_clip_interp_between(zb1, zb2, d1, den);
    lemma_clip_interp_between(zt1, zt2, d1, den);
    assert(d1 * (d2 - d1) == (-d1) * den) by (nonlinear_arith)
        requires
            den == d1 - d2,
    ;
    lemma_div_tz_exact_any(-d1, den);
    lemma_div_tz_sign_neg_den(d1 * 1024, den);
    crate::math::lemma_abs_mul(d1, 1024);
    let cu = div_tz(d1 * 1024, den);
    if cu >= 1024 {
        let nm = vstd::math::abs(d1 * 1024) as int;
        let dm = vstd::math::abs(den) as int;
        vstd::arithmetic::div_mod::lemma_fundamental_div_mod(nm, dm);
        vstd::arithmetic::mul::lemma_mul_inequality(1024, nm / dm, dm);
        assert(dm * (nm / dm) == (nm / dm) * dm) by (nonlinear_arith);
        assert(vstd::math::abs(d1) * 1024 < dm * 1024) by (nonlinear_arith)
            requires
                vstd::math::abs(d1) < dm,
        ;
        assert(1024 * dm == dm * 1024) by (nonlinear_arith);
    }
}

/// The near-plane clip at the projection level: when exactly the first
/// endpoint of the face lies behind the camera, its projected depth is
/// exactly one and the other endpoint's depth is untouched.
pub proof fn lemma_project_clip_depth(p: Player, face: Face, w: Wall, height: SectorHeight)
    requires
        p.wf(),
        ({
            let (a1, a2) = spec_oriented(w, face);
            spec_pre_depth(p, a1) < 1 && spec_pre_depth(p, a2) >= 1
        }),
    ensures
        spec_project_wall(p, face, w, height).visible,
        spec_project_wall(p, face, w, height).depth1 == 1,
        spec_project_wall(p, face, w, height).depth2 == spec_pre_depth(
            p,
            spec_oriented(w, face).1,
        ),
{
    let (a1, a2) = spec_oriented(w, face);
    let c = spec_cos_fp(p.angle as int);
    let s = spec_sin_fp(p.angle as int);
    let tx1 = a1.x - p.position.x;
    let ty1 = a1.y - p.position.y;
    let tx2 = a2.x - p.position.x;
    let ty2 = a2.y - p.position.y;
    let rx1 = spec_rot_x(tx1, ty1, c, s);
    let d1 = spec_rot_y(tx1, ty1, c, s);
    let rx2 = spec_rot_x(tx2, ty2, c, s);
    let d2 = spec_rot_y(tx2, ty2, c, s);
    let zb = height.bottom - p.position.z;
    let zt = height.top - p.position.z;
    let zb1 = zb + div_tz(p.updown * d1, UPDOWN_FACTOR as int);
    let zt1 = zt + div_tz(p.updown * d1, UPDOWN_FACTOR as int);
    let zb2 = zb + div_tz(p.updown * d2, UPDOWN_FACTOR as int);
    let zt2 = zt + div_tz(p.updown * d2, UPDOWN_FACTOR as int);
    lemma_near_clip(rx1, zb1, zt1, d1, rx2, zb2, zt2, d2);
    // the unclipped depth fits the stored field
    crate::trig::lemma_cos_fp_bounds(p.angle as int);
    crate::trig::lemma_sin_fp_bounds(p.angle as int);
    crate::math::lemma_mul_abs_bound(ty2, c, 0x1_0000_0000, 0x400);
    crate::math::lemma_mul_abs_bound(tx2, s, 0x1_0000_0000, 0x400);
    crate::math::lemma_div_tz_bounds(ty2 * c + tx2 * s, 1024);
}

/// The columns outside `[xs, xe)` are untouched.
pub open spec fn cols_outside_unchanged(
    oldd: Seq<u8>,
    newd: Seq<u8>,
    w: int,
    h: int,
    xs: int,
    xe: int,
) -> bool {
    &&& newd.len() == oldd.len()
    &&& forall|xx: int, yy: int|
        0 <= xx < w && 0 <= yy < h && !(xs <= xx < xe) ==> #[trigger] crate::frame::pixel_bytes(
            newd,
            w,
            xx,
            yy,
        ) == crate::frame::pixel_bytes(oldd, w, xx, yy)
}

/// A silhouette buffer holds one boundary row per screen column.
pub open spec fn sil_ok(sil: Seq<i32>) -> bool {
    &&& sil.len() == WIDTH
    &&& forall|i: int| 0 <= i < sil.len() ==> 0 <= #[trigger] sil[i] <= HEIGHT
}

/// The texel a textured front face shows at pixel `(xx, yy)`: the
/// perspective-correct texture column between the clip-adjusted u endpoints,
/// and the linearly stepped texture row between the unclamped edges.
pub open spec fn spec_front_tex_pixel(
    proj: WallProjection,
    tm: crate::world::TextureMapping,
    tex: crate::texture::Texture,
    height_diff: int,
    xx: int,
    yy: int,
) -> Seq<u8> {
    let span = sat_proj(proj.width * tm.uv.x);
    let u_l = div_tz(proj.uclip1 * span, 1024);
    let u_r = div_tz((1024 - proj.uclip2) * span, 1024);
    let vspan = sat_proj(height_diff * tm.uv.y);
    let yt = spec_interp(proj.yt1 as int, proj.yt2 as int, xx, proj.x1 as int, proj.x2 as int);
    let yb = spec_interp(proj.yb1 as int, proj.yb2 as int, xx, proj.x1 as int, proj.x2 as int);
    let u = spec_persp_u(
        u_l,
        u_r,
        proj.depth1 as int,
        proj.depth2 as int,
        xx,
        proj.x1 as int,
        proj.x2 as int,
    );
    tex.spec_sample(u, spec_wall_v(yt, yb, vspan, yy), tm.shade)
}

/// What one rasterized face leaves in the pixel at `(xx, yy)`: inside the
/// face's column range, the front face paints its material between the
/// interpolated edges and the back face paints the plane between the
/// recorded silhouette and its own edge; every other pixel keeps its bytes.
pub open spec fn spec_surface_pixel(
    d0: Seq<u8>,
    sil0: Seq<i32>,
    proj: WallProjection,
    face: Face,
    view: SurfaceView,
    wall_material: Material,
    plane_material: Material,
    plane_dz: int,
    height_diff: int,
    textures: TextureSet,
    p: Player,
    w: int,
    xx: int,
    yy: int,
) -> Seq<u8> {
    let unchanged = crate::frame::pixel_bytes(d0, w, xx, yy);
    if !(proj.x1 <= xx < proj.x2) {
        unchanged
    } else {
        let yt = spec_interp(proj.yt1 as int, proj.yt2 as int, xx, proj.x1 as int, proj.x2 as int);
        let yb = spec_interp(proj.yb1 as int, proj.yb2 as int, xx, proj.x1 as int, proj.x2 as int);
        match face {
            Face::Front => {
                if yt <= yy < yb {
                    match wall_material {
                        Material::Color(c) => c@,
                        Material::Texture(tm) => spec_front_tex_pixel(
                            proj,
                            tm,
                            textures.set[tm.texture as int],
                            height_diff,
                            xx,
                            yy,
                        ),
                    }
                } else {
                    unchanged
                }
            },
            Face::Back => {
                let y_back = match view {
                    SurfaceView::Top => yt,
                    SurfaceView::Bottom => yb,
                    SurfaceView::Mid => 0,
                };
                let (s0, s1) = spec_back_span(view, sil0[xx] as int, y_back);
                if s0 <= yy < s1 {
                    match plane_material {
                        Material::Color(c) => c@,
                        Material::Texture(tm) => match spec_plane_uv(p, plane_dz, xx, yy) {
                            Some(uv) => textures.set[tm.texture as int].spec_sample(
                                uv.0,
                                uv.1,
                                tm.shade,
                            ),
                            None => unchanged,
                        },
                    }
                } else {
                    unchanged
                }
            },
        }
    }
}

/// Rasterizes one projected face across its column range. The front face
/// draws the wall material and records its occluding edge in the silhouette;
/// the back face fills the plane between its edge and the recorded
/// silhouette. Pixels outside the face's column range keep their bytes.
#[verifier::rlimit(60)]
pub fn draw_surface(
    frame: &mut Frame,
    proj: &WallProjection,
    face: Face,
    view: SurfaceView,
    wall_material: &Material,
    plane_material: &Material,
    plane_dz: i64,
    height_diff: i64,
    silhouette: &mut Vec<i32>,
    textures: &TextureSet,
    player: &Player,
    trig: &TrigTable,
)
    requires
        old(frame).wf(),
        old(frame).width == WIDTH,
        old(frame).height == HEIGHT,
        proj_in_range(*proj),
        sil_ok(old(silhouette)@),
        spec_material_ok(*wall_material, *textures),
        spec_material_ok(*plane_material, *textures),
        textures.wf(),
        player.wf(),
        trig.wf(),
        -0x1_0000_0000 <= plane_dz <= 0x1_0000_0000,
        -0x1_0000_0000 <= height_diff <= 0x1_0000_0000,
    ensures
        final(frame).wf(),
        final(frame).width == old(frame).width,
        final(frame).height == old(frame).height,
        sil_ok(final(silhouette)@),
        cols_outside_unchanged(
            old(frame).data@,
            final(frame).data@,
            old(frame).width as int,
            old(frame).height as int,
            proj.x1 as int,
            proj.x2 as int,
        ),
        face is Back ==> final(silhouette)@ == old(silhouette)@,
        face is Front && view is Mid ==> final(silhouette)@ == old(silhouette)@,
        face is Front && view is Top ==> forall|xx: int|
            0 <= xx < WIDTH ==> final(silhouette)@[xx] == (if proj.x1 <= xx < proj.x2 {
                spec_clip_row(
                    spec_interp(
                        proj.yt1 as int,
                        proj.yt2 as int,
                        xx,
                        proj.x1 as int,
                        proj.x2 as int,
                    ),
                )
            } else {
                old(silhouette)@[xx] as int
            }),
        face is Front && view is Bottom ==> forall|xx: int|
            0 <= xx < WIDTH ==> final(silhouette)@[xx] == (if proj.x1 <= xx < proj.x2 {
                spec_clip_row(
                    spec_interp(
                        proj.yb1 as int,
                        proj.yb2 as int,
                        xx,
                        proj.x1 as int,
                        proj.x2 as int,
                    ),
                )
            } else {
                old(silhouette)@[xx] as int
            }),
        face is Front && wall_material is Color ==> forall|xx: int, yy: int|
            proj.x1 <= xx < proj.x2 && 0 <= xx < WIDTH && 0 <= yy < HEIGHT && spec_interp(
                proj.yt1 as int,
                proj.yt2 as int,
                xx,
                proj.x1 as int,
                proj.x2 as int,
            ) <= yy < spec_interp(
                proj.yb1 as int,
                proj.yb2 as int,
                xx,
                proj.x1 as int,
                proj.x2 as int,
            ) ==> #[trigger] crate::frame::pixel_bytes(
                final(frame).data@,
                old(frame).width as int,
                xx,
                yy,
            ) == wall_material->Color_0@,
        face is Front && wall_material is Texture ==> forall|xx: int, yy: int|
            proj.x1 <= xx < proj.x2 && 0 <= xx < WIDTH && 0 <= yy < HEIGHT && spec_interp(
                proj.yt1 as int,
                proj.yt2 as int,
                xx,
                proj.x1 as int,
                proj.x2 as int,
            ) <= yy < spec_interp(
                proj.yb1 as int,
                proj.yb2 as int,
                xx,
                proj.x1 as int,
                proj.x2 as int,
            ) ==> #[trigger] crate::frame::pixel_bytes(
                final(frame).data@,
                old(frame).width as int,
                xx,
                yy,
            ) == spec_front_tex_pixel(
                *proj,
                wall_material->Texture_0,
                textures.set[wall_material->Texture_0.texture as int],
                height_diff as int,
                xx,
                yy,
            ),
        forall|xx: int, yy: int|
            0 <= xx < WIDTH && 0 <= yy < HEIGHT ==> #[trigger] crate::frame::pixel_bytes(
                final(frame).data@,
                old(frame).width as int,
                xx,
                yy,
            ) == spec_surface_pixel(
                old(frame).data@,
                old(silhouette)@,
                *proj,
                face,
                view,
                *wall_material,
                *plane_material,
                plane_dz as int,
                height_diff as int,
                *textures,
                *player,
                old(frame).width as int,
                xx,
                yy,
            ),
{
    let x1 = proj.x1;
    let x2 = proj.x2;
    if x2 <= x1 {
        proof {
            assert forall|xx: int, yy: int| 0 <= xx < WIDTH && 0 <= yy < HEIGHT implies #[trigger]
            crate::frame::pixel_bytes(frame.data@, old(frame).width as int, xx, yy)
                == spec_surface_pixel(
                old(frame).data@,
                old(silhouette)@,
                *proj,
                face,
                view,
                *wall_material,
                *plane_material,
                plane_dz as int,
                height_diff as int,
                *textures,
                *player,
                old(frame).width as int,
                xx,
                yy,
            ) by {}
        }
        return;
    }
    // Texture u endpoints for a textured front face, scaled by the material
    // tiling and narrowed by the clip fractions.
    let mut u_l: i64 = 0;
    let mut u_r: i64 = 0;
    let mut vspan: i64 = 0;
    match wall_material {
        Material::Texture(tm) => {
            proof {
                crate::math::lemma_mul_abs_bound(
                    proj.width as int,
                    tm.uv.x as int,
                    0x2_0000_0000,
                    0x8000_0000,
                );
                crate::math::lemma_mul_abs_bound(
                    height_diff as int,
                    tm.uv.y as int,
                    0x1_0000_0000,
                    0x8000_0000,
                );
            }
            proof {
                crate::math::lemma_mul_congruence(
                    (proj.width as i128) as int,
                    (tm.uv.x as i128) as int,
                    proj.width as int,
                    tm.uv.x as int,
                );
            }
            let span = sat_proj_exec((proj.width as i128) * (tm.uv.x as i128));
            proof {
                crate::math::lemma_abs_mul(proj.uclip1 as int, span as int);
                crate::math::lemma_abs_mul(1024 - proj.uclip2 as int, span as int);
                assert(vstd::math::abs(proj.uclip1 as int) * vstd::math::abs(span as int)
                    <= vstd::math::abs(span as int) * 1024 && vstd::math::abs(
                    1024 - proj.uclip2 as int,
                ) * vstd::math::abs(span as int) <= vstd::math::abs(span as int) * 1024)
                    by (nonlinear_arith)
                    requires
                        0 <= proj.uclip1 <= 1024,
                        0 <= proj.uclip2 <= 1024,
                ;
                crate::math::lemma_div_tz_quotient_bound(
                    (proj.uclip1 as int) * (span as int),
                    1024,
                    vstd::math::abs(span as int) as int,
                );
                crate::math::lemma_div_tz_quotient_bound(
                    (1024 - proj.uclip2 as int) * (span as int),
                    1024,
                    vstd::math::abs(span as int) as int,
                );
                crate::math::lemma_mul_abs_bound(
                    proj.uclip1 as int,
                    span as int,
                    0x400,
                    0x100_0000_0000,
                );
                crate::math::lemma_mul_abs_bound(
                    (1024 - proj.uclip2) as int,
                    span as int,
                    0x400,
                    0x100_0000_0000,
                );
            }
            proof {
                crate::math::lemma_mul_congruence(
                    (proj.uclip1 as i128) as int,
                    (span as i128) as int,
                    proj.uclip1 as int,
                    sat_proj(proj.width * tm.uv.x),
                );
                crate::math::lemma_mul_congruence(
                    ((1024 - proj.uclip2) as i128) as int,
                    (span as i128) as int,
                    1024 - proj.uclip2 as int,
                    sat_proj(proj.width * tm.uv.x),
                );
                crate::math::lemma_mul_congruence(
                    (height_diff as i128) as int,
                    (tm.uv.y as i128) as int,
                    height_diff as int,
                    tm.uv.y as int,
                );
            }
            u_l = div_i128((proj.uclip1 as i128) * (span as i128), 1024) as i64;
            u_r = div_i128(((1024 - proj.uclip2) as i128) * (span as i128), 1024) as i64;
            vspan = sat_proj_exec((height_diff as i128) * (tm.uv.y as i128));
        },
        Material::Color(_) => {},
    }
    let xs: i64 = if x1 < 0 {
        0
    } else {
        x1
    };
    let xe: i64 = if x2 > WIDTH as i64 {
        WIDTH as i64
    } else {
        x2
    };
    let mut x: i64 = xs;
    while x < xe
        invariant
            frame.wf(),
            frame.width == old(frame).width,
            frame.height == old(frame).height,
            frame.width == WIDTH,
            frame.height == HEIGHT,
            proj_in_range(*proj),
            sil_ok(silhouette@),
            spec_material_ok(*wall_material, *textures),
            spec_material_ok(*plane_material, *textures),
            textures.wf(),
            player.wf(),
            trig.wf(),
            -0x1_0000_0000 <= plane_dz <= 0x1_0000_0000,
            x1 == proj.x1,
            x2 == proj.x2,
            x1 < x2,
            xs == if x1 < 0 { 0 } else { x1 as int },
            xe == if x2 > WIDTH { WIDTH as int } else { x2 as int },
            xs <= x,
            x <= xe || x == xs,
            -0x100_0000_0000 <= u_l <= 0x100_0000_0000,
            -0x100_0000_0000 <= u_r <= 0x100_0000_0000,
            -0x100_0000_0000 <= vspan <= 0x100_0000_0000,
            wall_material is Texture ==> {
                let tm = wall_material->Texture_0;
                let span = sat_proj(proj.width * tm.uv.x);
                u_l == div_tz(proj.uclip1 * span, 1024) && u_r == div_tz(
                    (1024 - proj.uclip2) * span,
                    1024,
                ) && vspan == sat_proj(height_diff * tm.uv.y)
            },
            cols_outside_unchanged(
                old(frame).data@,
                frame.data@,
                old(frame).width as int,
                old(frame).height as int,
                proj.x1 as int,
                proj.x2 as int,
            ),
            face is Back ==> silhouette@ == old(silhouette)@,
            forall|xx: int, yy: int|
                0 <= xx < WIDTH && 0 <= yy < HEIGHT ==> #[trigger] crate::frame::pixel_bytes(
                    frame.data@,
                    old(frame).width as int,
                    xx,
                    yy,
                ) == (if xs <= xx < x {
                    spec_surface_pixel(
                        old(frame).data@,
                        old(silhouette)@,
                        *proj,
                        face,
                        view,
                        *wall_material,
                        *plane_material,
                        plane_dz as int,
                        height_diff as int,
                        *textures,
                        *player,
                        old(frame).width as int,
                        xx,
                        yy,
                    )
                } else {
                    crate::frame::pixel_bytes(old(frame).data@, old(frame).width as int, xx, yy)
                }),
            face is Front && view is Mid ==> silhouette@ == old(silhouette)@,
            face is Front && view is Top ==> forall|xx: int|
                0 <= xx < WIDTH ==> silhouette@[xx] == (if xs <= xx < x {
                    spec_clip_row(
                        spec_interp(
                            proj.yt1 as int,
                            proj.yt2 as int,
                            xx,
                            proj.x1 as int,
                            proj.x2 as int,
                        ),
                    )
                } else {
                    old(silhouette)@[xx] as int
                }),
            face is Front && view is Bottom ==> forall|xx: int|
                0 <= xx < WIDTH ==> silhouette@[xx] == (if xs <= xx < x {
                    spec_clip_row(
                        spec_interp(
                            proj.yb1 as int,
                            proj.yb2 as int,
                            xx,
                            proj.x1 as int,
                            proj.x2 as int,
                        ),
                    )
                } else {
                    old(silhouette)@[xx] as int
                }),
            face is Front && wall_material is Color ==> forall|xx: int, yy: int|
                xs <= xx < x && 0 <= yy < HEIGHT && spec_interp(
                    proj.yt1 as int,
                    proj.yt2 as int,
                    xx,
                    proj.x1 as int,
                    proj.x2 as int,
                ) <= yy < spec_interp(
                    proj.yb1 as int,
                    proj.yb2 as int,
                    xx,
                    proj.x1 as int,
                    proj.x2 as int,
                ) ==> #[trigger] crate::frame::pixel_bytes(
                    frame.data@,
                    old(frame).width as int,
                    xx,
                    yy,
                ) == wall_material->Color_0@,
            face is Front && wall_material is Texture ==> forall|xx: int, yy: int|
                xs <= xx < x && 0 <= yy < HEIGHT && spec_interp(
                    proj.yt1 as int,
                    proj.yt2 as int,
                    xx,
                    proj.x1 as int,
                    proj.x2 as int,
                ) <= yy < spec_interp(
                    proj.yb1 as int,
                    proj.yb2 as int,
                    xx,
                    proj.x1 as int,
                    proj.x2 as int,
                ) ==> #[trigger] crate::frame::pixel_bytes(
                    frame.data@,
                    old(frame).width as int,
                    xx,
                    yy,
                ) == spec_front_tex_pixel(
                    *proj,
                    wall_material->Texture_0,
                    textures.set[wall_material->Texture_0.texture as int],
                    height_diff as int,
                    xx,
                    yy,
                ),
        decreases xe - x,
    {
        let yt = interp_edge(proj.yt1, proj.yt2, x, x1, x2);
        let yb = interp_edge(proj.yb1, proj.yb2, x, x1, x2);
        let ghost data_before = frame.data@;
        match face {
            Face::Front => {
                match wall_material {
                    Material::Color(color) => {
                        draw_vline_color(frame, x, yt, yb, *color);
                    },
                    Material::Texture(tm) => {
                        let tex = &textures.set[tm.texture];
                        let u = persp_u(u_l, u_r, proj.depth1, proj.depth2, x, x1, x2);
                        let ui = wrap_i128(u, tex.dimensions.x);
                        draw_vline_tex(frame, x, yt, yb, tex, ui, vspan, tm.shade);
                        proof {
                            assert forall|yy: int|
                                0 <= yy < HEIGHT && yt <= yy < yb implies #[trigger]
                            crate::frame::pixel_bytes(
                                frame.data@,
                                old(frame).width as int,
                                x as int,
                                yy,
                            ) == spec_front_tex_pixel(
                                *proj,
                                *tm,
                                textures.set[tm.texture as int],
                                height_diff as int,
                                x as int,
                                yy,
                            ) by {
                                lemma_sample_wrap_u(
                                    *tex,
                                    u as int,
                                    spec_wall_v(yt as int, yb as int, vspan as int, yy),
                                    tm.shade,
                                );
                            }
                        }
                    },
                }
                // Record this column's occluding edge for the back pass.
                match view {
                    SurfaceView::Top => {
                        let v = crate::math::clamp(clip_row(yt), 0, HEIGHT as i32);
                        silhouette[x as usize] = v;
                    },
                    SurfaceView::Bottom => {
                        let v = crate::math::clamp(clip_row(yb), 0, HEIGHT as i32);
                        silhouette[x as usize] = v;
                    },
                    SurfaceView::Mid => {},
                }
            },
            Face::Back => {
                let silx = silhouette[x as usize];
                let y_back = match view {
                    SurfaceView::Top => yt,
                    SurfaceView::Bottom => yb,
                    SurfaceView::Mid => 0,
                };
                draw_back_column(
                    frame,
                    x,
                    silx,
                    y_back,
                    view,
                    plane_material,
                    plane_dz,
                    textures,
                    player,
                    trig,
                );
            },
        }
        proof {
            assert forall|xx: int, yy: int|
                0 <= xx < frame.width && 0 <= yy < frame.height && !(proj.x1 <= xx < proj.x2)
                    implies #[trigger] crate::frame::pixel_bytes(
                    frame.data@,
                    old(frame).width as int,
                    xx,
                    yy,
                ) == crate::frame::pixel_bytes(old(frame).data@, old(frame).width as int, xx, yy) by {
                assert(crate::frame::pixel_bytes(frame.data@, old(frame).width as int, xx, yy)
                    == crate::frame::pixel_bytes(data_before, old(frame).width as int, xx, yy));
            }
            assert forall|xx: int, yy: int|
                0 <= xx < WIDTH && 0 <= yy < HEIGHT implies #[trigger] crate::frame::pixel_bytes(
                frame.data@,
                old(frame).width as int,
                xx,
                yy,
            ) == (if xs <= xx < x + 1 {
                spec_surface_pixel(
                    old(frame).data@,
                    old(silhouette)@,
                    *proj,
                    face,
                    view,
                    *wall_material,
                    *plane_material,
                    plane_dz as int,
                    height_diff as int,
                    *textures,
                    *player,
                    old(frame).width as int,
                    xx,
                    yy,
                )
            } else {
                crate::frame::pixel_bytes(old(frame).data@, old(frame).width as int, xx, yy)
            }) by {
                if xx != x {
                    assert(crate::frame::pixel_bytes(frame.data@, old(frame).width as int, xx, yy)
                        == crate::frame::pixel_bytes(data_before, old(frame).width as int, xx, yy));
                } else {
                    assert(crate::frame::pixel_bytes(data_before, old(frame).width as int, xx, yy)
                        == crate::frame::pixel_bytes(
                        old(frame).data@,
                        old(frame).width as int,
                        xx,
                        yy,
                    ));
                }
            }
            if face is Front && wall_material is Texture {
                let tm = wall_material->Texture_0;
                assert forall|xx: int, yy: int|
                    xs <= xx < x + 1 && 0 <= yy < HEIGHT && spec_interp(
                        proj.yt1 as int,
                        proj.yt2 as int,
                        xx,
                        proj.x1 as int,
                        proj.x2 as int,
                    ) <= yy < spec_interp(
                        proj.yb1 as int,
                        proj.yb2 as int,
                        xx,
                        proj.x1 as int,
                        proj.x2 as int,
                    ) implies #[trigger] crate::frame::pixel_bytes(
                    frame.data@,
                    old(frame).width as int,
                    xx,
                    yy,
                ) == spec_front_tex_pixel(
                    *proj,
                    tm,
                    textures.set[tm.texture as int],
                    height_diff as int,
                    xx,
                    yy,
                ) by {
                    if xx < x {
                        assert(crate::frame::pixel_bytes(frame.data@, old(frame).width as int, xx, yy)
                            == crate::frame::pixel_bytes(data_before, old(frame).width as int, xx, yy));
                    }
                }
            }
            if face is Front && wall_material is Color {
                assert forall|xx: int, yy: int|
                    xs <= xx < x + 1 && 0 <= yy < HEIGHT && spec_interp(
                        proj.yt1 as int,
                        proj.yt2 as int,
                        xx,
                        proj.x1 as int,
                        proj.x2 as int,
                    ) <= yy < spec_interp(
                        proj.yb1 as int,
                        proj.yb2 as int,
                        xx,
                        proj.x1 as int,
                        proj.x2 as int,
                    ) implies #[trigger] crate::frame::pixel_bytes(
                    frame.data@,
                    old(frame).width as int,
                    xx,
                    yy,
                ) == wall_material->Color_0@ by {
                    if xx < x {
                        assert(crate::frame::pixel_bytes(frame.data@, old(frame).width as int, xx, yy)
                            == crate::frame::pixel_bytes(data_before, old(frame).width as int, xx, yy));
                    }
                }
            }
        }
        x = x + 1;
    }
    proof {
        assert forall|xx: int, yy: int|
            0 <= xx < WIDTH && 0 <= yy < HEIGHT implies #[trigger] crate::frame::pixel_bytes(
            frame.data@,
            old(frame).width as int,
            xx,
            yy,
        ) == spec_surface_pixel(
            old(frame).data@,
            old(silhouette)@,
            *proj,
            face,
            view,
            *wall_material,
            *plane_material,
            plane_dz as int,
            height_diff as int,
            *textures,
            *player,
            old(frame).width as int,
            xx,
            yy,
        ) by {
            if proj.x1 <= xx < proj.x2 {
                assert(xs <= xx && xx < xe);
            }
        }
    }
}

/// A projected row narrowed to the screen's band.
pub open spec fn spec_clip_row(y: int) -> int {
    if y < 0 {
        0
    } else if y > HEIGHT {
        HEIGHT as int
    } else {
        y
    }
}

/// Narrows a projected row to the screen's band for silhouette bookkeeping.
fn clip_row(y: i64) -> (r: i32)
    ensures
        r == spec_clip_row(y as int),
{
    if y < 0 {
        0
    } else if y > HEIGHT as i64 {
        HEIGHT as i32
    } else {
        y as i32
    }
}

/// Projects one wall face and rasterizes it when visible. A wall whose
/// endpoints both lie behind the near plane is invisible and paints
/// nothing: the framebuffer and the silhouette keep their bytes.
pub fn render_wall(
    frame: &mut Frame,
    player: &Player,
    trig: &TrigTable,
    face: Face,
    wall: &Wall,
    height: &SectorHeight,
    view: SurfaceView,
    plane_material: &Material,
    plane_dz: i64,
    height_diff: i64,
    silhouette: &mut Vec<i32>,
    textures: &TextureSet,
)
    requires
        old(frame).wf(),
        old(frame).width == WIDTH,
        old(frame).height == HEIGHT,
        sil_ok(old(silhouette)@),
        spec_material_ok(wall.material, *textures),
        spec_material_ok(*plane_material, *textures),
        textures.wf(),
        player.wf(),
        trig.wf(),
        -0x1_0000_0000 <= plane_dz <= 0x1_0000_0000,
        -0x1_0000_0000 <= height_diff <= 0x1_0000_0000,
    ensures
        final(frame).wf(),
        final(frame).width == old(frame).width,
        final(frame).height == old(frame).height,
        sil_ok(final(silhouette)@),
        ({
            let (a1, a2) = spec_oriented(*wall, face);
            spec_pre_depth(*player, a1) < 1 && spec_pre_depth(*player, a2) < 1
                ==> final(frame).data@ == old(frame).data@ && final(silhouette)@ == old(
                silhouette,
            )@
        }),
        final(frame).data@ == spec_render_wall_frame(
            old(frame).data@,
            old(silhouette)@,
            *player,
            face,
            *wall,
            *height,
            view,
            *plane_material,
            plane_dz as int,
            height_diff as int,
            *textures,
            WIDTH as int,
            HEIGHT as int,
        ),
        final(silhouette)@ == spec_render_wall_sils(
            old(silhouette)@,
            *player,
            face,
            *wall,
            *height,
            view,
        ),
        ({
            let proj = spec_project_wall(*player, face, *wall, *height);
            &&& (!proj.visible ==> final(frame).data@ == old(frame).data@ && final(silhouette)@
                == old(silhouette)@)
            &&& (face is Back || view is Mid ==> final(silhouette)@ == old(silhouette)@)
            &&& (proj.visible && face is Front && view is Top ==> forall|xx: int|
                0 <= xx < WIDTH ==> final(silhouette)@[xx] == (if proj.x1 <= xx < proj.x2 {
                    spec_clip_row(
                        spec_interp(
                            proj.yt1 as int,
                            proj.yt2 as int,
                            xx,
                            proj.x1 as int,
                            proj.x2 as int,
                        ),
                    )
                } else {
                    old(silhouette)@[xx] as int
                }))
            &&& (proj.visible && face is Front && view is Bottom ==> forall|xx: int|
                0 <= xx < WIDTH ==> final(silhouette)@[xx] == (if proj.x1 <= xx < proj.x2 {
                    spec_clip_row(
                        spec_interp(
                            proj.yb1 as int,
                            proj.yb2 as int,
                            xx,
                            proj.x1 as int,
                            proj.x2 as int,
                        ),
                    )
                } else {
                    old(silhouette)@[xx] as int
                }))
        }),
{
    let proj = project_wall(player, face, wall, height, trig);
    proof {
        lemma_visibility(*player, face, *wall, *height);
    }
    if proj.visible {
        draw_surface(
            frame,
            &proj,
            face,
            view,
            &wall.material,
            plane_material,
            plane_dz,
            height_diff,
            silhouette,
            textures,
            player,
            trig,
        );
    }
    proof {
        let w = WIDTH as int;
        let h = HEIGHT as int;
        let target = spec_render_wall_frame(
            old(frame).data@,
            old(silhouette)@,
            *player,
            face,
            *wall,
            *height,
            view,
            *plane_material,
            plane_dz as int,
            height_diff as int,
            *textures,
            w,
            h,
        );
        assert(frame.data@.len() == w * h * 4);
        assert forall|i: int| 0 <= i < frame.data@.len() implies frame.data@[i] == target[i] by {
            lemma_frame_byte_decode(w, i);
            lemma_frame_byte_in_area(w, h, i);
            let xx = (i / 4) % w;
            let yy = (i / 4) / w;
            let c = i % 4;
            assert(crate::frame::pixel_bytes(frame.data@, w, xx, yy)[c] == frame.data@[i]);
            assert(crate::frame::pixel_bytes(old(frame).data@, w, xx, yy)[c] == old(
                frame,
            ).data@[i]);
        }
        assert(frame.data@ =~= target);
        let sil_target = spec_render_wall_sils(
            old(silhouette)@,
            *player,
            face,
            *wall,
            *height,
            view,
        );
        assert forall|xx: int| 0 <= xx < silhouette@.len() implies silhouette@[xx]
            == sil_target[xx] by {}
        assert(silhouette@ =~= sil_target);
    }
}

/// A byte index of the framebuffer names one channel of one pixel.
proof fn lemma_frame_byte_decode(w: int, i: int)
    requires
        w >= 1,
        0 <= i,
    ensures
        0 <= i % 4 < 4,
        0 <= (i / 4) % w < w,
        0 <= (i / 4) / w,
        i == (((i / 4) / w) * w + (i / 4) % w) * 4 + i % 4,
{
    let px = i / 4;
    vstd::arithmetic::div_mod::lemma_fundamental_div_mod(i, 4);
    vstd::arithmetic::div_mod::lemma_fundamental_div_mod(px, w);
    vstd::arithmetic::div_mod::lemma_mod_division_less_than_divisor(i, 4);
    vstd::arithmetic::div_mod::lemma_mod_division_less_than_divisor(px, w);
    vstd::arithmetic::div_mod::lemma_div_pos_is_pos(i, 4);
    vstd::arithmetic::div_mod::lemma_div_pos_is_pos(px, w);
    assert(((px / w) * w + px % w) * 4 + i % 4 == 4 * (w * (px / w) + px % w) + i % 4)
        by (nonlinear_arith);
}

/// A byte index inside the pixel area names a row inside the screen.
proof fn lemma_frame_byte_in_area(w: int, h: int, i: int)
    requires
        w >= 1,
        h >= 1,
        0 <= i < w * h * 4,
    ensures
        0 <= (i / 4) / w < h,
{
    vstd::arithmetic::div_mod::lemma_div_pos_is_pos(i, 4);
    assert(i < 4 * (w * h)) by (nonlinear_arith)
        requires
            i < w * h * 4,
    ;
    vstd::arithmetic::div_mod::lemma_multiply_divide_lt(i, 4, w * h);
    vstd::arithmetic::div_mod::lemma_div_pos_is_pos(i / 4, w);
    vstd::arithmetic::div_mod::lemma_multiply_divide_lt(i / 4, w, h);
}

/// What rendering one wall face leaves in the pixel at `(xx, yy)`: nothing
/// when the projection is invisible, the rasterized face otherwise.
pub open spec fn spec_render_wall_pixel(
    d0: Seq<u8>,
    sil0: Seq<i32>,
    p: Player,
    face: Face,
    wall: Wall,
    height: SectorHeight,
    view: SurfaceView,
    plane_material: Material,
    plane_dz: int,
    height_diff: int,
    textures: TextureSet,
    w: int,
    xx: int,
    yy: int,
) -> Seq<u8> {
    let proj = spec_project_wall(p, face, wall, height);
    if !proj.visible {
        crate::frame::pixel_bytes(d0, w, xx, yy)
    } else {
        spec_surface_pixel(
            d0,
            sil0,
            proj,
            face,
            view,
            wall.material,
            plane_material,
            plane_dz,
            height_diff,
            textures,
            p,
            w,
            xx,
            yy,
        )
    }
}

/// What rendering one wall face leaves in column `xx` of the silhouette:
/// only a visible front face of a Top or Bottom sector records its edge.
pub open spec fn spec_render_wall_sil(
    sil0: Seq<i32>,
    p: Player,
    face: Face,
    wall: Wall,
    height: SectorHeight,
    view: SurfaceView,
    xx: int,
) -> int {
    let proj = spec_project_wall(p, face, wall, height);
    if !proj.visible || face is Back || !(proj.x1 <= xx < proj.x2) {
        sil0[xx] as int
    } else {
        match view {
            SurfaceView::Top => spec_clip_row(
                spec_interp(proj.yt1 as int, proj.yt2 as int, xx, proj.x1 as int, proj.x2 as int),
            ),
            SurfaceView::Bottom => spec_clip_row(
                spec_interp(proj.yb1 as int, proj.yb2 as int, xx, proj.x1 as int, proj.x2 as int),
            ),
            SurfaceView::Mid => sil0[xx] as int,
        }
    }
}

/// The whole framebuffer after rendering one wall face.
pub open spec fn spec_render_wall_frame(
    d0: Seq<u8>,
    sil0: Seq<i32>,
    p: Player,
    face: Face,
    wall: Wall,
    height: SectorHeight,
    view: SurfaceView,
    plane_material: Material,
    plane_dz: int,
    height_diff: int,
    textures: TextureSet,
    w: int,
    h: int,
) -> Seq<u8> {
    Seq::new(
        d0.len(),
        |i: int|
            {
                let xx = (i / 4) % w;
                let yy = (i / 4) / w;
                if 1 <= w && 0 <= yy < h {
                    spec_render_wall_pixel(
                        d0,
                        sil0,
                        p,
                        face,
                        wall,
                        height,
                        view,
                        plane_material,
                        plane_dz,
                        height_diff,
                        textures,
                        w,
                        xx,
                        yy,
                    )[i % 4]
                } else {
                    d0[i]
                }
            },
    )
}

/// The whole silhouette after rendering one wall face.
pub open spec fn spec_render_wall_sils(
    sil0: Seq<i32>,
    p: Player,
    face: Face,
    wall: Wall,
    height: SectorHeight,
    view: SurfaceView,
) -> Seq<i32> {
    Seq::new(
        sil0.len(),
        |xx: int| spec_render_wall_sil(sil0, p, face, wall, height, view, xx) as i32,
    )
}

/// How the camera sees a sector this frame.
pub open spec fn spec_classify(p: Player, h: SectorHeight) -> SurfaceView {
    if p.position.z > h.top {
        SurfaceView::Top
    } else if p.position.z < h.bottom {
        SurfaceView::Bottom
    } else {
        SurfaceView::Mid
    }
}

/// The sorting distance of one wall: the camera-space distance to its
/// pre-clip midpoint. It depends on the camera and the wall alone.
pub open spec fn spec_wall_dist(p: Player, w: Wall) -> int {
    spec_project_wall(p, Face::Front, w, SectorHeight { top: 0, bottom: 0 }).distance as int
}

/// Sum of the wall distances over the index range `[from, to)`.
pub open spec fn spec_dist_sum(world: World, p: Player, from: int, to: int) -> int
    decreases to - from,
{
    if from >= to {
        0
    } else {
        spec_wall_dist(p, world.walls[from]) + spec_dist_sum(world, p, from + 1, to)
    }
}

/// Appending one wall to a distance sum.
pub proof fn lemma_dist_sum_snoc(world: World, p: Player, from: int, to: int)
    requires
        from <= to,
    ensures
        spec_dist_sum(world, p, from, to + 1) == spec_dist_sum(world, p, from, to)
            + spec_wall_dist(p, world.walls[to]),
    decreases to - from,
{
    if from < to {
        lemma_dist_sum_snoc(world, p, from + 1, to);
    } else {
        assert(spec_dist_sum(world, p, from + 1, to + 1) == 0);
        assert(spec_dist_sum(world, p, from, to) == 0);
    }
}

/// The average wall distance of a sector: the sorting key the painter's
/// ordering uses the next frame.
pub open spec fn spec_sector_distance(world: World, si: int, p: Player) -> int {
    let lo = world.sectors[si].wall.x as int;
    let hi = world.sectors[si].wall.y as int;
    if hi <= lo {
        0
    } else {
        div_tz(spec_dist_sum(world, p, lo, hi), hi - lo)
    }
}

/// The projected distance ignores the face and the height range.
pub proof fn lemma_distance_uniform(p: Player, face: Face, w: Wall, h: SectorHeight)
    ensures
        spec_project_wall(p, face, w, h).distance as int == spec_wall_dist(p, w),
{
}

/// Every texture reference in the world points into the set.
pub open spec fn spec_world_textures_ok(world: World, textures: TextureSet) -> bool {
    &&& forall|i: int|
        0 <= i < world.walls.len() ==> spec_material_ok(
            (#[trigger] world.walls[i]).material,
            textures,
        )
    &&& forall|i: int|
        0 <= i < world.sectors.len() ==> spec_material_ok(
            (#[trigger] world.sectors[i]).material[0],
            textures,
        ) && spec_material_ok(world.sectors[i].material[1], textures)
}

/// The unobstructed sentinel silhouette a sector's own pass starts from:
/// the screen bottom for a Top sector, the screen top otherwise.
pub open spec fn spec_sentinel_sil(view: SurfaceView) -> Seq<i32> {
    Seq::new(
        WIDTH as nat,
        |xx: int|
            match view {
                SurfaceView::Top => HEIGHT as i32,
                SurfaceView::Bottom => 0i32,
                SurfaceView::Mid => 0i32,
            },
    )
}

/// The framebuffer and silhouette after the front faces of the wall range
/// `[wi, hi)` are drawn in order.
pub open spec fn spec_front_pass(
    d: Seq<u8>,
    sil: Seq<i32>,
    world: World,
    wi: int,
    hi: int,
    height: SectorHeight,
    view: SurfaceView,
    plane_material: Material,
    plane_dz: int,
    height_diff: int,
    p: Player,
    textures: TextureSet,
) -> (Seq<u8>, Seq<i32>)
    decreases hi - wi,
{
    if wi >= hi {
        (d, sil)
    } else {
        let wall = world.walls[wi];
        let d2 = spec_render_wall_frame(
            d,
            sil,
            p,
            Face::Front,
            wall,
            height,
            view,
            plane_material,
            plane_dz,
            height_diff,
            textures,
            WIDTH as int,
            HEIGHT as int,
        );
        let sil2 = spec_render_wall_sils(sil, p, Face::Front, wall, height, view);
        spec_front_pass(
            d2,
            sil2,
            world,
            wi + 1,
            hi,
            height,
            view,
            plane_material,
            plane_dz,
            height_diff,
            p,
            textures,
        )
    }
}

/// The framebuffer after the back faces of the wall range `[wi, hi)` are
/// drawn in order; the back pass reads the silhouette and never writes it.
pub open spec fn spec_back_pass(
    d: Seq<u8>,
    sil: Seq<i32>,
    world: World,
    wi: int,
    hi: int,
    height: SectorHeight,
    view: SurfaceView,
    plane_material: Material,
    plane_dz: int,
    height_diff: int,
    p: Player,
    textures: TextureSet,
) -> Seq<u8>
    decreases hi - wi,
{
    if wi >= hi {
        d
    } else {
        let wall = world.walls[wi];
        let d2 = spec_render_wall_frame(
            d,
            sil,
            p,
            Face::Back,
            wall,
            height,
            view,
            plane_material,
            plane_dz,
            height_diff,
            textures,
            WIDTH as int,
            HEIGHT as int,
        );
        spec_back_pass(
            d2,
            sil,
            world,
            wi + 1,
            hi,
            height,
            view,
            plane_material,
            plane_dz,
            height_diff,
            p,
            textures,
        )
    }
}

/// The framebuffer after one sector's whole pass: the silhouette reset to
/// its sentinel, the front faces drawn, and, for a sector seen from above
/// or below, the plane infill of the back faces.
pub open spec fn spec_sector_frame(
    d: Seq<u8>,
    world: World,
    si: int,
    p: Player,
    textures: TextureSet,
) -> Seq<u8> {
    let sector = world.sectors[si];
    let view = spec_classify(p, sector.height);
    let lo = sector.wall.x as int;
    let hi = sector.wall.y as int;
    let plane_material = match view {
        SurfaceView::Top => sector.material[0],
        SurfaceView::Bottom => sector.material[1],
        SurfaceView::Mid => sector.material[0],
    };
    let plane_dz = match view {
        SurfaceView::Top => sector.height.top - p.position.z,
        SurfaceView::Bottom => sector.height.bottom - p.position.z,
        SurfaceView::Mid => 0int,
    };
    let height_diff = sector.height.top - p.position.z - (sector.height.bottom - p.position.z);
    let passes = spec_front_pass(
        d,
        spec_sentinel_sil(view),
        world,
        lo,
        hi,
        sector.height,
        view,
        plane_material,
        plane_dz,
        height_diff,
        p,
        textures,
    );
    if view is Mid {
        passes.0
    } else {
        spec_back_pass(
            passes.0,
            passes.1,
            world,
            lo,
            hi,
            sector.height,
            view,
            plane_material,
            plane_dz,
            height_diff,
            p,
            textures,
        )
    }
}

/// The framebuffer after the sectors from position `k` of the draw order
/// are painted back to front.
pub open spec fn spec_draw_frame(
    d: Seq<u8>,
    world: World,
    order: Seq<usize>,
    k: int,
    p: Player,
    textures: TextureSet,
) -> Seq<u8>
    decreases order.len() - k,
{
    if k < 0 || k >= order.len() {
        d
    } else {
        spec_draw_frame(
            spec_sector_frame(d, world, order[k] as int, p, textures),
            world,
            order,
            k + 1,
            p,
            textures,
        )
    }
}

/// The position of a value in a sequence: the first index holding it, or
/// the length when it is absent.
pub open spec fn pos_in(s: Seq<usize>, v: usize) -> int
    decreases s.len(),
{
    if s.len() == 0 {
        0
    } else if s[0] == v {
        0
    } else {
        1 + pos_in(s.skip(1), v)
    }
}

/// In a sequence without repeats, every element's position is its index.
pub proof fn lemma_pos_in_distinct(s: Seq<usize>, t: int)
    requires
        forall|p: int, q: int| 0 <= p < q < s.len() ==> s[p] != s[q],
        0 <= t < s.len(),
    ensures
        pos_in(s, s[t]) == t,
    decreases s.len(),
{
    if t > 0 {
        assert(s[0] != s[t]);
        assert(forall|p: int, q: int|
            0 <= p < q < s.skip(1).len() ==> s.skip(1)[p] != s.skip(1)[q]);
        lemma_pos_in_distinct(s.skip(1), t - 1);
        assert(s.skip(1)[t - 1] == s[t]);
    }
}

/// Per-sector render state: the sector it belongs to, the distance estimate
/// from the last frame, this frame's view classification and the silhouette
/// buffer its back pass consumes.
pub struct SectorContext {
    pub sector_index: usize,
    pub distance: i64,
    pub view: SurfaceView,
    pub silhouette: Vec<i32>,
}

/// One context per sector, in sector order, plus the draw order from the
/// previous frame's sort.
pub struct Render3D {
    pub contexts: Vec<SectorContext>,
    pub order: Vec<usize>,
}

impl Render3D {
    /// Contexts are sector-indexed with well-formed silhouettes, and the
    /// draw order is a permutation of the sectors.
    pub open spec fn wf(self, nsec: int) -> bool {
        &&& self.contexts.len() == nsec
        &&& forall|i: int|
            0 <= i < nsec ==> {
                let c = #[trigger] self.contexts[i];
                c.sector_index == i && sil_ok(c.silhouette@) && 0 <= c.distance < 0x20_0000_0000
            }
        &&& self.order.len() == nsec
        &&& forall|k: int| 0 <= k < nsec ==> (#[trigger] self.order[k]) < nsec
        &&& forall|p: int, q: int| 0 <= p < q < nsec ==> self.order[p] != self.order[q]
    }

    /// Fresh render state: zero distances, identity order, open silhouettes.
    pub fn new(world: &World) -> (r: Render3D)
        ensures
            r.wf(world.sectors.len() as int),
    {
        let n = world.sectors.len();
        let mut contexts: Vec<SectorContext> = Vec::new();
        let mut order: Vec<usize> = Vec::new();
        let mut i: usize = 0;
        while i < n
            invariant
                i <= n,
                contexts.len() == i,
                order.len() == i,
                forall|j: int|
                    0 <= j < i ==> {
                        let c = #[trigger] contexts[j];
                        c.sector_index == j && sil_ok(c.silhouette@) && 0 <= c.distance
                            < 0x20_0000_0000
                    },
                forall|k: int| 0 <= k < i ==> (#[trigger] order[k]) < i,
                forall|p: int, q: int| 0 <= p < q < i ==> order[p] != order[q],
                forall|k: int| 0 <= k < i ==> (#[trigger] order[k]) == k,
            decreases n - i,
        {
            let sil = new_silhouette(0);
            contexts.push(
                SectorContext { sector_index: i, distance: 0, view: SurfaceView::Mid, silhouette: sil },
            );
            order.push(i);
            i = i + 1;
        }
        Render3D { contexts, order }
    }
}

impl Render3D {
    /// Renders one frame: classifies every sector and resets its silhouette,
    /// re-sorts the draw order by the previous frame's distances (farthest
    /// first, ties keeping their previous order), draws every sector's walls
    /// front-then-back, and refreshes the per-sector distances, which depend
    /// only on the camera and the world. The resulting framebuffer is
    /// exactly the fold of the per-sector passes over the sorted order.
    pub fn draw(
        &mut self,
        frame: &mut Frame,
        world: &World,
        textures: &TextureSet,
        player: &Player,
        trig: &TrigTable,
    )
        requires
            old(self).wf(world.sectors.len() as int),
            world.wf(),
            spec_world_textures_ok(*world, *textures),
            textures.wf(),
            old(frame).wf(),
            old(frame).width == WIDTH,
            old(frame).height == HEIGHT,
            player.wf(),
            trig.wf(),
        ensures
            final(self).wf(world.sectors.len() as int),
            final(frame).wf(),
            final(frame).width == WIDTH,
            final(frame).height == HEIGHT,
            forall|i: int|
                0 <= i < world.sectors.len() ==> (#[trigger] final(self).contexts[i]).distance
                    == spec_sector_distance(*world, i, *player),
            forall|i: int|
                0 <= i < world.sectors.len() ==> (#[trigger] final(self).contexts[i]).view
                    == spec_classify(*player, world.sectors[i].height),
            final(self).order@.len() == world.sectors.len(),
            forall|pp: int, qq: int|
                0 <= pp < qq < world.sectors.len() ==> ({
                    let sp = #[trigger] final(self).order@[pp];
                    let sq = #[trigger] final(self).order@[qq];
                    let dp = old(self).contexts[sp as int].distance;
                    let dq = old(self).contexts[sq as int].distance;
                    dp > dq || (dp == dq && pos_in(old(self).order@, sp) < pos_in(
                        old(self).order@,
                        sq,
                    ))
                }),
            final(frame).data@ == spec_draw_frame(
                old(frame).data@,
                *world,
                final(self).order@,
                0,
                *player,
                *textures,
            ),
    {
        let n = world.sectors.len();
        let ghost nn = n as int;
        // Classify each sector against the camera height and reset its
        // silhouette to the unobstructed sentinel.
        let mut i: usize = 0;
        while i < n
            invariant
                nn == n == world.sectors.len(),
                self.contexts.len() == n,
                self.order.len() == n,
                self.order@ == old(self).order@,
                forall|k: int| 0 <= k < nn ==> (#[trigger] self.order[k]) < nn,
                forall|p: int, q: int| 0 <= p < q < nn ==> self.order[p] != self.order[q],
                player.wf(),
                i <= n,
                forall|j: int|
                    0 <= j < nn ==> {
                        let c = #[trigger] self.contexts[j];
                        c.sector_index == j && sil_ok(c.silhouette@) && 0 <= c.distance
                            < 0x20_0000_0000
                    },
                forall|j: int|
                    0 <= j < i ==> (#[trigger] self.contexts[j]).view == spec_classify(
                        *player,
                        world.sectors[j].height,
                    ),
                forall|j: int|
                    0 <= j < i ==> (#[trigger] self.contexts[j]).silhouette@ == spec_sentinel_sil(
                        self.contexts[j].view,
                    ),
                forall|j: int|
                    0 <= j < i ==> (#[trigger] self.contexts[j]).distance == old(
                        self,
                    ).contexts[j].distance,
                forall|j: int|
                    i <= j < nn ==> (#[trigger] self.contexts[j]).distance == old(
                        self,
                    ).contexts[j].distance,
            decreases n - i,
        {
            let sector = world.sectors[i];
            let view = if player.position.z > sector.height.top {
                SurfaceView::Top
            } else if player.position.z < sector.height.bottom {
                SurfaceView::Bottom
            } else {
                SurfaceView::Mid
            };
            let sentinel: i32 = match view {
                SurfaceView::Top => HEIGHT as i32,
                SurfaceView::Bottom => 0,
                SurfaceView::Mid => 0,
            };
            self.contexts[i].view = view;
            reset_silhouette(&mut self.contexts[i].silhouette, sentinel);
            proof {
                assert(self.contexts[i as int].silhouette@ =~= spec_sentinel_sil(
                    self.contexts[i as int].view,
                ));
            }
            i = i + 1;
        }
        // Sort the draw order by the previous frame's distances, farthest
        // first; ties keep their previous relative order.
        let mut pairs: Vec<(i64, usize)> = Vec::new();
        let mut k: usize = 0;
        while k < n
            invariant
                nn == n == world.sectors.len(),
                self.contexts.len() == n,
                self.order.len() == n,
                self.order@ == old(self).order@,
                forall|m: int| 0 <= m < nn ==> (#[trigger] self.order[m]) < nn,
                forall|j: int|
                    0 <= j < nn ==> (#[trigger] self.contexts[j]).distance == old(
                        self,
                    ).contexts[j].distance,
                k <= n,
                pairs.len() == k,
                forall|m: int| 0 <= m < k ==> (#[trigger] pairs[m]).1 == m,
                forall|m: int|
                    0 <= m < k ==> (#[trigger] pairs[m]).0 == old(self).contexts[self.order@[m] as int].distance,
            decreases n - k,
        {
            let si = self.order[k];
            pairs.push((self.contexts[si].distance, k));
            k = k + 1;
        }
        sort_pairs(&mut pairs);
        proof {
            assert forall|p: int| 0 <= p < nn implies (#[trigger] pairs@[p]).0 == old(
                self,
            ).contexts[self.order@[pairs@[p].1 as int] as int].distance by {}
        }
        let mut new_order: Vec<usize> = Vec::new();
        let mut m: usize = 0;
        while m < n
            invariant
                nn == n == world.sectors.len(),
                self.order.len() == n,
                self.order@ == old(self).order@,
                forall|a: int| 0 <= a < nn ==> (#[trigger] self.order[a]) < nn,
                forall|p: int, q: int| 0 <= p < q < nn ==> self.order[p] != self.order[q],
                pairs.len() == n,
                forall|p: int| 0 <= p < nn ==> (#[trigger] pairs[p]).1 < nn,
                forall|p: int, q: int| 0 <= p < q < nn ==> pairs[p].1 != pairs[q].1,
                forall|p: int|
                    0 <= p < nn ==> (#[trigger] pairs@[p]).0 == old(self).contexts[self.order@[pairs@[p].1 as int] as int].distance,
                forall|p: int, q: int|
                    0 <= p < q < nn ==> (#[trigger] pairs@[p]).0 > (#[trigger] pairs@[q]).0 || (
                    pairs@[p].0 == pairs@[q].0 && pairs@[p].1 < pairs@[q].1),
                m <= n,
                new_order.len() == m,
                forall|p: int|
                    0 <= p < m ==> (#[trigger] new_order[p]) == self.order[pairs[p].1 as int],
                forall|p: int| 0 <= p < m ==> (#[trigger] new_order[p]) < nn,
            decreases n - m,
        {
            let t = pairs[m].1;
            new_order.push(self.order[t]);
            m = m + 1;
        }
        proof {
            assert forall|p: int, q: int| 0 <= p < q < nn implies new_order[p] != new_order[q] by {
                assert(pairs[p].1 != pairs[q].1);
                let a = pairs[p].1 as int;
                let b = pairs[q].1 as int;
                if a < b {
                    assert(self.order[a] != self.order[b]);
                } else {
                    assert(self.order[b] != self.order[a]);
                }
            }
            // the drawn order is the previous order stably sorted by the
            // previous distances
            assert forall|pp: int, qq: int| 0 <= pp < qq < nn implies ({
                let sp = #[trigger] new_order@[pp];
                let sq = #[trigger] new_order@[qq];
                let dp = old(self).contexts[sp as int].distance;
                let dq = old(self).contexts[sq as int].distance;
                dp > dq || (dp == dq && pos_in(old(self).order@, sp) < pos_in(
                    old(self).order@,
                    sq,
                ))
            }) by {
                lemma_pos_in_distinct(old(self).order@, pairs@[pp].1 as int);
                lemma_pos_in_distinct(old(self).order@, pairs@[qq].1 as int);
            }
        }
        self.order = new_order;
        let ghost osorted: Seq<usize> = self.order@;
        let ghost frame0: Seq<u8> = frame.data@;
        let ghost fgoal: Seq<u8> = spec_draw_frame(
            frame.data@,
            *world,
            osorted,
            0,
            *player,
            *textures,
        );
        // Draw every sector in sorted order: front faces first (recording
        // the silhouette), then, for sectors seen from above or below, the
        // back faces filling the visible plane.
        let mut k: usize = 0;
        while k < n
            invariant
                nn == n == world.sectors.len(),
                world.wf(),
                spec_world_textures_ok(*world, *textures),
                textures.wf(),
                player.wf(),
                trig.wf(),
                frame.wf(),
                frame.width == WIDTH,
                frame.height == HEIGHT,
                self.contexts.len() == n,
                self.order.len() == n,
                forall|a: int| 0 <= a < nn ==> (#[trigger] self.order[a]) < nn,
                forall|p: int, q: int| 0 <= p < q < nn ==> self.order[p] != self.order[q],
                self.order@ == osorted,
                forall|pp: int, qq: int|
                    0 <= pp < qq < nn ==> ({
                        let sp = #[trigger] osorted[pp];
                        let sq = #[trigger] osorted[qq];
                        let dp = old(self).contexts[sp as int].distance;
                        let dq = old(self).contexts[sq as int].distance;
                        dp > dq || (dp == dq && pos_in(old(self).order@, sp) < pos_in(
                            old(self).order@,
                            sq,
                        ))
                    }),
                k <= n,
                fgoal == spec_draw_frame(frame.data@, *world, osorted, k as int, *player, *textures),
                forall|m: int|
                    k <= m < nn ==> (#[trigger] self.contexts[osorted[m] as int]).silhouette@
                        == spec_sentinel_sil(self.contexts[osorted[m] as int].view),
                forall|j: int|
                    0 <= j < nn ==> {
                        let c = #[trigger] self.contexts[j];
                        c.sector_index == j && sil_ok(c.silhouette@) && 0 <= c.distance
                            < 0x20_0000_0000
                    },
                forall|j: int|
                    0 <= j < nn ==> (#[trigger] self.contexts[j]).view == spec_classify(
                        *player,
                        world.sectors[j].height,
                    ),
            decreases n - k,
        {
            let si = self.order[k];
            let sector = world.sectors[si];
            let view = self.contexts[si].view;
            let lo = sector.wall.x;
            let hi = sector.wall.y;
            let plane_mat = match view {
                SurfaceView::Top => sector.material[0],
                SurfaceView::Bottom => sector.material[1],
                SurfaceView::Mid => sector.material[0],
            };
            let plane_dz: i64 = match view {
                SurfaceView::Top => (sector.height.top as i64) - (player.position.z as i64),
                SurfaceView::Bottom => (sector.height.bottom as i64) - (player.position.z as i64),
                SurfaceView::Mid => 0,
            };
            let height_diff: i64 = (sector.height.top as i64) - (sector.height.bottom as i64);
            let ghost d_k = frame.data@;
            let ghost sil0 = self.contexts[si as int].silhouette@;
            proof {
                assert(self.contexts[osorted[k as int] as int].silhouette@ == spec_sentinel_sil(
                    self.contexts[osorted[k as int] as int].view,
                ));
                assert(sil0 == spec_sentinel_sil(view));
            }
            let ghost fp = spec_front_pass(
                d_k,
                sil0,
                *world,
                lo as int,
                hi as int,
                sector.height,
                view,
                plane_mat,
                plane_dz as int,
                height_diff as int,
                *player,
                *textures,
            );
            let mut w = lo;
            while w < hi
                invariant
                    nn == world.sectors.len(),
                    world.wf(),
                    spec_world_textures_ok(*world, *textures),
                    textures.wf(),
                    player.wf(),
                    trig.wf(),
                    frame.wf(),
                    frame.width == WIDTH,
                    frame.height == HEIGHT,
                    self.contexts.len() == nn,
                    self.order.len() == nn,
                    self.order@ == osorted,
                    forall|a: int| 0 <= a < nn ==> (#[trigger] self.order[a]) < nn,
                    forall|p: int, q: int| 0 <= p < q < nn ==> self.order[p] != self.order[q],
                    si < nn,
                    0 <= si < world.sectors.len(),
                    sector == world.sectors[si as int],
                    lo == sector.wall.x,
                    hi == sector.wall.y,
                    0 <= lo <= hi <= world.walls.len(),
                    lo <= w <= hi,
                    plane_mat == (match view {
                        SurfaceView::Top => sector.material[0],
                        SurfaceView::Bottom => sector.material[1],
                        SurfaceView::Mid => sector.material[0],
                    }),
                    -0x1_0000_0000 <= plane_dz <= 0x1_0000_0000,
                    -0x1_0000_0000 <= height_diff <= 0x1_0000_0000,
                    k < nn,
                    si == osorted[k as int],
                    spec_front_pass(
                        frame.data@,
                        self.contexts[si as int].silhouette@,
                        *world,
                        w as int,
                        hi as int,
                        sector.height,
                        view,
                        plane_mat,
                        plane_dz as int,
                        height_diff as int,
                        *player,
                        *textures,
                    ) == fp,
                    forall|m: int|
                        k + 1 <= m < nn ==> (#[trigger] self.contexts[osorted[m] as int]).silhouette@
                            == spec_sentinel_sil(self.contexts[osorted[m] as int].view),
                    forall|j: int|
                        0 <= j < nn ==> {
                            let c = #[trigger] self.contexts[j];
                            c.sector_index == j && sil_ok(c.silhouette@) && 0 <= c.distance
                                < 0x20_0000_0000
                        },
                    forall|j: int|
                        0 <= j < nn ==> (#[trigger] self.contexts[j]).view == spec_classify(
                            *player,
                            world.sectors[j].height,
                        ),
                decreases hi - w,
            {
                let wall = world.walls[w as usize];
                render_wall(
                    frame,
                    player,
                    trig,
                    Face::Front,
                    &wall,
                    &sector.height,
                    view,
                    &plane_mat,
                    plane_dz,
                    height_diff,
                    &mut self.contexts[si].silhouette,
                    textures,
                );
                w = w + 1;
            }
            let ghost d1 = frame.data@;
            let ghost sil1 = self.contexts[si as int].silhouette@;
            proof {
                assert(fp == (d1, sil1));
            }
            let ghost bp = spec_back_pass(
                d1,
                sil1,
                *world,
                lo as int,
                hi as int,
                sector.height,
                view,
                plane_mat,
                plane_dz as int,
                height_diff as int,
                *player,
                *textures,
            );
            let is_mid = match view {
                SurfaceView::Mid => true,
                _ => false,
            };
            if !is_mid {
                let mut w = lo;
                while w < hi
                    invariant
                        nn == world.sectors.len(),
                        world.wf(),
                        spec_world_textures_ok(*world, *textures),
                        textures.wf(),
                        player.wf(),
                        trig.wf(),
                        frame.wf(),
                        frame.width == WIDTH,
                        frame.height == HEIGHT,
                        self.contexts.len() == nn,
                        self.order.len() == nn,
                        self.order@ == osorted,
                        forall|a: int| 0 <= a < nn ==> (#[trigger] self.order[a]) < nn,
                        forall|p: int, q: int| 0 <= p < q < nn ==> self.order[p] != self.order[q],
                        si < nn,
                        0 <= si < world.sectors.len(),
                        sector == world.sectors[si as int],
                        lo == sector.wall.x,
                        hi == sector.wall.y,
                        0 <= lo <= hi <= world.walls.len(),
                        lo <= w <= hi,
                        plane_mat == (match view {
                            SurfaceView::Top => sector.material[0],
                            SurfaceView::Bottom => sector.material[1],
                            SurfaceView::Mid => sector.material[0],
                        }),
                        -0x1_0000_0000 <= plane_dz <= 0x1_0000_0000,
                        -0x1_0000_0000 <= height_diff <= 0x1_0000_0000,
                        k < nn,
                        si == osorted[k as int],
                        self.contexts[si as int].silhouette@ == sil1,
                        spec_back_pass(
                            frame.data@,
                            sil1,
                            *world,
                            w as int,
                            hi as int,
                            sector.height,
                            view,
                            plane_mat,
                            plane_dz as int,
                            height_diff as int,
                            *player,
                            *textures,
                        ) == bp,
                        forall|m: int|
                            k + 1 <= m < nn ==> (#[trigger] self.contexts[osorted[m] as int]).silhouette@
                                == spec_sentinel_sil(self.contexts[osorted[m] as int].view),
                        forall|j: int|
                            0 <= j < nn ==> {
                                let c = #[trigger] self.contexts[j];
                                c.sector_index == j && sil_ok(c.silhouette@) && 0 <= c.distance
                                    < 0x20_0000_0000
                            },
                        forall|j: int|
                            0 <= j < nn ==> (#[trigger] self.contexts[j]).view == spec_classify(
                                *player,
                                world.sectors[j].height,
                            ),
                    decreases hi - w,
                {
                    let wall = world.walls[w as usize];
                    render_wall(
                        frame,
                        player,
                        trig,
                        Face::Back,
                        &wall,
                        &sector.height,
                        view,
                        &plane_mat,
                        plane_dz,
                        height_diff,
                        &mut self.contexts[si].silhouette,
                        textures,
                    );
                    proof {
                        // the back face leaves the silhouette as it was
                        assert(self.contexts[si as int].silhouette@ =~= sil1);
                    }
                    w = w + 1;
                }
                proof {
                    assert(bp == frame.data@);
                }
            }
            proof {
                assert(frame.data@ == spec_sector_frame(d_k, *world, si as int, *player, *textures));
                assert(spec_draw_frame(d_k, *world, osorted, k as int, *player, *textures)
                    == spec_draw_frame(frame.data@, *world, osorted, k + 1, *player, *textures));
            }
            k = k + 1;
        }
        // Refresh the per-sector distance estimates for the next frame's
        // sort; they are a function of the camera and the world alone.
        let mut i: usize = 0;
        while i < n
            invariant
                nn == n == world.sectors.len(),
                world.wf(),
                player.wf(),
                trig.wf(),
                frame.wf(),
                frame.width == WIDTH,
                frame.height == HEIGHT,
                self.contexts.len() == n,
                self.order.len() == n,
                forall|a: int| 0 <= a < nn ==> (#[trigger] self.order[a]) < nn,
                forall|p: int, q: int| 0 <= p < q < nn ==> self.order[p] != self.order[q],
                self.order@ == osorted,
                forall|pp: int, qq: int|
                    0 <= pp < qq < nn ==> ({
                        let sp = #[trigger] osorted[pp];
                        let sq = #[trigger] osorted[qq];
                        let dp = old(self).contexts[sp as int].distance;
                        let dq = old(self).contexts[sq as int].distance;
                        dp > dq || (dp == dq && pos_in(old(self).order@, sp) < pos_in(
                            old(self).order@,
                            sq,
                        ))
                    }),
                i <= n,
                forall|j: int|
                    0 <= j < nn ==> {
                        let c = #[trigger] self.contexts[j];
                        c.sector_index == j && sil_ok(c.silhouette@) && 0 <= c.distance
                            < 0x20_0000_0000
                    },
                forall|j: int|
                    0 <= j < nn ==> (#[trigger] self.contexts[j]).view == spec_classify(
                        *player,
                        world.sectors[j].height,
                    ),
                forall|j: int|
                    0 <= j < i ==> (#[trigger] self.contexts[j]).distance == spec_sector_distance(
                        *world,
                        j,
                        *player,
                    ),
            decreases n - i,
        {
            let sector = world.sectors[i];
            let lo = sector.wall.x;
            let hi = sector.wall.y;
            let mut sum: i128 = 0;
            let mut w = lo;
            while w < hi
                invariant
                    world.wf(),
                    player.wf(),
                    trig.wf(),
                    0 <= i < world.sectors.len(),
                    sector == world.sectors[i as int],
                    lo == sector.wall.x,
                    hi == sector.wall.y,
                    0 <= lo <= hi <= world.walls.len(),
                    lo <= w <= hi,
                    sum == spec_dist_sum(*world, *player, lo as int, w as int),
                    0 <= sum <= (w - lo) * 0x1F_FFFF_FFFF,
                decreases hi - w,
            {
                let wall = world.walls[w as usize];
                let proj = project_wall(player, Face::Front, &wall, &sector.height, trig);
                proof {
                    lemma_distance_uniform(*player, Face::Front, wall, sector.height);
                    lemma_dist_sum_snoc(*world, *player, lo as int, w as int);
                    assert((w - lo) * 0x1F_FFFF_FFFF + 0x1F_FFFF_FFFF == (w + 1 - lo)
                        * 0x1F_FFFF_FFFF) by (nonlinear_arith);
                }
                sum = sum + (proj.distance as i128);
                w = w + 1;
            }
            let cnt = hi - lo;
            let d: i64 = if cnt <= 0 {
                0
            } else {
                proof {
                    assert(sum <= cnt * 0x1F_FFFF_FFFF && cnt * 0x1F_FFFF_FFFF == 0x1F_FFFF_FFFF
                        * vstd::math::abs(cnt as int)) by (nonlinear_arith)
                        requires
                            cnt >= 1,
                            vstd::math::abs(cnt as int) == cnt as int,
                            sum <= (cnt) * 0x1F_FFFF_FFFF,
                    ;
                    crate::math::lemma_div_tz_quotient_bound(sum as int, cnt as int, 0x1F_FFFF_FFFF);
                    crate::math::lemma_div_tz_bounds(sum as int, cnt as int);
                    vstd::arithmetic::div_mod::lemma_div_pos_is_pos(sum as int, cnt as int);
                }
                div_i128(sum, cnt as i128) as i64
            };
            self.contexts[i].distance = d;
            i = i + 1;
        }
    }
}

/// A fresh silhouette buffer holding `v` in every column.
fn new_silhouette(v: i32) -> (r: Vec<i32>)
    requires
        0 <= v <= HEIGHT,
    ensures
        sil_ok(r@),
        forall|i: int| 0 <= i < r@.len() ==> r@[i] == v,
{
    let mut sil: Vec<i32> = Vec::new();
    let mut i: usize = 0;
    while i < WIDTH as usize
        invariant
            0 <= v <= HEIGHT,
            i <= WIDTH,
            sil.len() == i,
            forall|j: int| 0 <= j < i ==> sil@[j] == v,
        decreases WIDTH - i,
    {
        sil.push(v);
        i = i + 1;
    }
    sil
}

/// Overwrites every column of a silhouette buffer with `v`.
fn reset_silhouette(sil: &mut Vec<i32>, v: i32)
    requires
        0 <= v <= HEIGHT,
        old(sil)@.len() == WIDTH,
    ensures
        sil_ok(final(sil)@),
        forall|i: int| 0 <= i < final(sil)@.len() ==> final(sil)@[i] == v,
{
    let n = sil.len();
    let mut i: usize = 0;
    while i < n
        invariant
            0 <= v <= HEIGHT,
            sil@.len() == n == WIDTH,
            i <= n,
            forall|j: int| 0 <= j < i ==> sil@[j] == v,
        decreases n - i,
    {
        sil[i] = v;
        i = i + 1;
    }
}

/// Stable sort of `(distance, tag)` pairs: strictly descending by distance,
/// ties broken by ascending tag. With distinct tags this pins the result
/// completely: the output is a permutation of the input and each element is
/// the input element its tag names.
pub fn sort_pairs(v: &mut Vec<(i64, usize)>)
    requires
        forall|k: int| 0 <= k < old(v)@.len() ==> (#[trigger] old(v)@[k]).1 == k,
    ensures
        final(v)@.len() == old(v)@.len(),
        forall|p: int|
            0 <= p < final(v)@.len() ==> (#[trigger] final(v)@[p]).1 < final(v)@.len()
                && final(v)@[p] == old(v)@[final(v)@[p].1 as int],
        forall|p: int, q: int| 0 <= p < q < final(v)@.len() ==> final(v)@[p].1 != final(v)@[q].1,
        forall|p: int, q: int|
            0 <= p < q < final(v)@.len() ==> (#[trigger] final(v)@[p]).0 > (#[trigger] final(v)@[q]).0
                || (final(v)@[p].0 == final(v)@[q].0 && final(v)@[p].1 < final(v)@[q].1),
{
    let n = v.len();
    if n <= 1 {
        return;
    }
    let mut i: usize = 1;
    while i < n
        invariant
            n == v@.len() == old(v)@.len(),
            1 <= i || n <= 1,
            i <= n,
            forall|k: int| 0 <= k < n ==> (#[trigger] old(v)@[k]).1 == k,
            forall|p: int|
                0 <= p < n ==> (#[trigger] v@[p]).1 < n && v@[p] == old(v)@[v@[p].1 as int],
            forall|p: int, q: int| 0 <= p < q < n ==> v@[p].1 != v@[q].1,
            forall|p: int| 0 <= p < i ==> (#[trigger] v@[p]).1 < i,
            forall|k: int| i <= k < n ==> (#[trigger] v@[k]).1 == k,
            forall|p: int, q: int|
                0 <= p < q < i ==> (#[trigger] v@[p]).0 > (#[trigger] v@[q]).0 || (v@[p].0
                    == v@[q].0 && v@[p].1 < v@[q].1),
        decreases n - i,
    {
        let elem = v.remove(i);
        let ghost before = v@;
        let mut j: usize = i;
        while j > 0 && v[j - 1].0 < elem.0
            invariant
                v@ == before,
                v@.len() == n - 1,
                elem.1 == i,
                j <= i,
                i < n,
                forall|k: int| j <= k < i ==> (#[trigger] v@[k]).0 < elem.0,
            decreases j,
        {
            j = j - 1;
        }
        v.insert(j, elem);
        proof {
            assert forall|p: int, q: int|
                0 <= p < q < i + 1 implies (#[trigger] v@[p]).0 > (#[trigger] v@[q]).0 || (v@[p].0
                == v@[q].0 && v@[p].1 < v@[q].1) by {
                if q < j {
                } else if p < j && q == j {
                    // before[p] did not move; elem inserted with before[j-1].0 >= elem.0
                    if p < j - 1 {
                    }
                } else if p < j {
                    // q > j: shifted element
                } else if p == j {
                    // elem before shifted elements, which are strictly smaller
                } else {
                }
            }
        }
        i = i + 1;
    }
}

/// Determinism of rendering: the framebuffer a draw leaves behind is a
/// function of the starting buffer, the world, the textures, the camera and
/// the draw order alone — two renders from equal inputs are byte-identical.
pub proof fn lemma_frame_determinism(
    d0: Seq<u8>,
    world: World,
    order: Seq<usize>,
    p: Player,
    textures: TextureSet,
    f1: Seq<u8>,
    f2: Seq<u8>,
)
    requires
        f1 == spec_draw_frame(d0, world, order, 0, p, textures),
        f2 == spec_draw_frame(d0, world, order, 0, p, textures),
    ensures
        f1 == f2,
{
}

/// Determinism of the frame-to-frame state: after a draw, the per-sector
/// distances depend on the world and the camera alone, so two renders from
/// the same camera feed identical inputs to the next sort.
pub proof fn lemma_distance_state_converges(a: Render3D, b: Render3D, world: World, p: Player)
    requires
        a.contexts.len() == world.sectors.len(),
        b.contexts.len() == world.sectors.len(),
        forall|i: int|
            0 <= i < world.sectors.len() ==> (#[trigger] a.contexts[i]).distance
                == spec_sector_distance(world, i, p),
        forall|i: int|
            0 <= i < world.sectors.len() ==> (#[trigger] b.contexts[i]).distance
                == spec_sector_distance(world, i, p),
    ensures
        forall|i: int|
            0 <= i < world.sectors.len() ==> (#[trigger] a.contexts[i]).distance
                == b.contexts[i].distance,
{
}

} // verus!
