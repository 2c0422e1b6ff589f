//! The map model: materials, walls, sectors and the world that owns them.

use vstd::prelude::*;
use crate::math::{Vec2, div_tz};

verus! {

/// How a textured surface samples its texture: which texture, the tiling
/// scale for u/v, and a brightness bias subtracted from each channel.
#[derive(Debug, Clone, Copy, PartialEq, Eq, Structural)]
pub struct TextureMapping {
    pub texture: usize,
    pub uv: Vec2,
    pub shade: u8,
}

/// A surface is either a flat RGBA color or a texture mapping.
#[derive(Debug, Clone, Copy)]
pub enum Material {
    Color([u8; 4]),
    Texture(TextureMapping),
}

impl Material {
    /// The color payload, or `default` for a textured material.
    pub fn color_or<'a>(&'a self, default: &'a [u8; 4]) -> (r: &'a [u8; 4])
        ensures
            *r == (match *self {
                Material::Color(color) => color,
                Material::Texture(_) => *default,
            }),
    {
        match self {
            Material::Color(color) => color,
            _ => default,
        }
    }
}

/// An oriented line segment in map space; the orientation decides which side
/// is the front face.
#[derive(Debug, Clone, Copy)]
pub struct Wall {
    pub point1: Vec2,
    pub point2: Vec2,
    pub material: Material,
}

impl Wall {
    pub fn new(point1: &Vec2, point2: &Vec2) -> (w: Self)
        ensures
            w.point1 == *point1,
            w.point2 == *point2,
            w.material == Material::Color([0xffu8, 0xffu8, 0xffu8, 0xffu8]),
    {
        Wall { point1: *point1, point2: *point2, material: Material::Color(
            [0xff, 0xff, 0xff, 0xff],
        ) }
    }

    pub fn new_with_material(point1: &Vec2, point2: &Vec2, material: Material) -> (w: Self)
        ensures
            w.point1 == *point1,
            w.point2 == *point2,
            w.material == material,
    {
        Wall { point1: *point1, point2: *point2, material }
    }
}

/// The vertical extent of a sector. `top >= bottom` is expected but not
/// validated; inverted values produce an inside-out sector.
#[derive(Debug, Clone, Copy, PartialEq, Eq, Structural)]
pub struct SectorHeight {
    pub top: i32,
    pub bottom: i32,
}

impl SectorHeight {
    pub fn new(top: i32, bottom: i32) -> (h: Self)
        ensures
            h.top == top,
            h.bottom == bottom,
    {
        SectorHeight { top, bottom }
    }

    pub fn height(&self) -> (r: i32)
        requires
            i32::MIN <= self.top - self.bottom <= i32::MAX,
        ensures
            r == self.top - self.bottom,
    {
        let d = (self.top as i64) - (self.bottom as i64);
        d as i32
    }

    /// The midpoint of the height range, rounded toward zero.
    pub fn center(&self) -> (r: i32)
        ensures
            r == div_tz(self.top + self.bottom, 2),
    {
        let s = (self.top as i64) + (self.bottom as i64);
        let c = crate::math::div_i64(s, 2);
        proof {
            crate::math::lemma_div_tz_ordered(s as int, 0xFFFF_FFFE, 2);
            crate::math::lemma_div_tz_ordered(-0x1_0000_0000, s as int, 2);
        }
        c as i32
    }
}

/// A convex region bounded by the contiguous wall range `[wall.x, wall.y)`,
/// with a height range and two surface materials (`material[0]` for the top
/// plane, `material[1]` for the bottom one).
#[derive(Debug, Clone, Copy)]
pub struct Sector {
    pub wall: Vec2,
    pub height: SectorHeight,
    pub material: [Material; 2],
}

impl Sector {
    pub fn new(wall: &Vec2, height: &SectorHeight) -> (s: Self)
        ensures
            s.wall == *wall,
            s.height == *height,
            s.material[0] == Material::Color([0xffu8, 0xffu8, 0xffu8, 0xffu8]),
            s.material[1] == Material::Color([0xffu8, 0xffu8, 0xffu8, 0xffu8]),
    {
        Sector {
            wall: *wall,
            height: *height,
            material: [
                Material::Color([0xff, 0xff, 0xff, 0xff]),
                Material::Color([0xff, 0xff, 0xff, 0xff]),
            ],
        }
    }

    pub fn new_with_colors(wall: &Vec2, height: &SectorHeight, colors: [[u8; 4]; 2]) -> (s: Self)
        ensures
            s.wall == *wall,
            s.height == *height,
            s.material[0] == Material::Color(colors[0]),
            s.material[1] == Material::Color(colors[1]),
    {
        Sector {
            wall: *wall,
            height: *height,
            material: [Material::Color(colors[0]), Material::Color(colors[1])],
        }
    }

    pub fn new_with_material(wall: &Vec2, height: &SectorHeight, material: Material) -> (s: Self)
        ensures
            s.wall == *wall,
            s.height == *height,
            s.material[0] == material,
            s.material[1] == material,
    {
        Sector { wall: *wall, height: *height, material: [material, material] }
    }

    pub fn new_with_materials(wall: &Vec2, height: &SectorHeight, materials: [Material; 2]) -> (s:
        Self)
        ensures
            s.wall == *wall,
            s.height == *height,
            s.material == materials,
    {
        Sector { wall: *wall, height: *height, material: materials }
    }
}

/// The world owns all walls and sectors; it is immutable after map load and
/// shared read-only by the renderers.
pub struct World {
    pub walls: Vec<Wall>,
    pub sectors: Vec<Sector>,
}

impl World {
    /// Every sector's wall range is an ordered sub-range of the wall list.
    pub open spec fn wf(self) -> bool {
        forall|i: int|
            0 <= i < self.sectors.len() ==> {
                let s = #[trigger] self.sectors[i];
                0 <= s.wall.x && s.wall.x <= s.wall.y && s.wall.y <= self.walls.len()
            }
    }
}

} // verus!
