use doom_demo::consts::{HEIGHT, WIDTH};
use doom_demo::frame::Frame;
use doom_demo::math::{Vec2, Vec3};
use doom_demo::player::Player;
use doom_demo::render_3d::{project_wall, sort_pairs, Face, Render3D, SurfaceView};
use doom_demo::texture::{Texture, TextureSet};
use doom_demo::trig::TrigTable;
use doom_demo::world::{Material, Sector, SectorHeight, Wall, World};

const RED: [u8; 4] = [255, 0, 0, 255];
const GREEN: [u8; 4] = [0, 255, 0, 255];
const YELLOW: [u8; 4] = [255, 255, 0, 255];
const BACKGROUND: [u8; 4] = [0x22, 0x22, 0xff, 0xff];

/// A closed square sector over (0,0)-(32,32), walls wound so the inside
/// faces are the front faces, height range [0, 40].
fn square_world() -> World {
    let walls = vec![
        Wall::new_with_material(&Vec2::new(0, 0), &Vec2::new(0, 32), Material::Color(RED)),
        Wall::new_with_material(&Vec2::new(0, 32), &Vec2::new(32, 32), Material::Color(RED)),
        Wall::new_with_material(&Vec2::new(32, 32), &Vec2::new(32, 0), Material::Color(RED)),
        Wall::new_with_material(&Vec2::new(32, 0), &Vec2::new(0, 0), Material::Color(RED)),
    ];
    let sector = Sector::new_with_materials(
        &Vec2::new(0, 4),
        &SectorHeight::new(40, 0),
        [Material::Color(GREEN), Material::Color(YELLOW)],
    );
    World { walls, sectors: vec![sector] }
}

fn render_once(world: &World, player: &Player) -> Frame {
    let trig = TrigTable::new();
    let textures = TextureSet::new();
    let mut renderer = Render3D::new(world);
    let mut frame = Frame::new(WIDTH, HEIGHT);
    frame.clear(BACKGROUND);
    renderer.draw(&mut frame, world, &textures, player, &trig);
    frame
}

fn column_count(frame: &Frame, x: u32, color: [u8; 4]) -> usize {
    let mut n = 0;
    for y in 0..HEIGHT {
        if frame.pixel(x, y) == color {
            n += 1;
        }
    }
    n
}

#[test]
fn projection_is_deterministic() {
    let trig = TrigTable::new();
    let player = Player::new_with_position_angles(Vec3::new(16, 16, 10), 30, 5);
    let wall = Wall::new(&Vec2::new(0, 32), &Vec2::new(32, 32));
    let h = SectorHeight::new(40, 0);
    let a = project_wall(&player, Face::Front, &wall, &h, &trig);
    let b = project_wall(&player, Face::Front, &wall, &h, &trig);
    assert_eq!(a, b);
    let c = project_wall(&player, Face::Back, &wall, &h, &trig);
    let d = project_wall(&player, Face::Back, &wall, &h, &trig);
    assert_eq!(c, d);
}

#[test]
fn near_clip_lands_on_depth_one() {
    let trig = TrigTable::new();
    // camera at the origin facing +y; one endpoint 10 units behind, one 10
    // in front
    let player = Player::new_with_position_angles(Vec3::new(0, 0, 10), 0, 0);
    let wall = Wall::new(&Vec2::new(0, -10), &Vec2::new(0, 10));
    let h = SectorHeight::new(40, 0);
    let p = project_wall(&player, Face::Front, &wall, &h, &trig);
    assert!(p.visible);
    assert_eq!(p.depth1, 1);
    assert_eq!(p.depth2, 10);
    // the consumed fraction is strictly inside the unit
    assert!(p.uclip1 > 0 && p.uclip1 < 1024);
    assert_eq!(p.uclip2, 0);
}

#[test]
fn wall_behind_the_camera_is_invisible_and_draws_nothing() {
    let trig = TrigTable::new();
    let player = Player::new_with_position_angles(Vec3::new(16, 16, 10), 0, 0);
    // the wall at y = 0 lies 16 units behind the camera
    let wall = Wall::new_with_material(&Vec2::new(32, 0), &Vec2::new(0, 0), Material::Color(RED));
    let h = SectorHeight::new(40, 0);
    let p = project_wall(&player, Face::Front, &wall, &h, &trig);
    assert!(!p.visible);
    // rendering a world holding only that wall leaves the frame untouched
    let sector = Sector::new_with_materials(
        &Vec2::new(0, 1),
        &SectorHeight::new(40, 0),
        [Material::Color(GREEN), Material::Color(YELLOW)],
    );
    let world = World { walls: vec![wall], sectors: vec![sector] };
    let frame = render_once(&world, &player);
    for x in 0..WIDTH {
        for y in 0..HEIGHT {
            assert_eq!(frame.pixel(x, y), BACKGROUND);
        }
    }
}

#[test]
fn sector_sort_is_stable_and_descending() {
    let mut pairs: Vec<(i64, usize)> = vec![(5, 0), (7, 1), (5, 2), (9, 3)];
    sort_pairs(&mut pairs);
    assert_eq!(pairs, vec![(9, 3), (7, 1), (5, 0), (5, 2)]);
    // all-equal distances keep the previous arrangement entirely
    let mut ties: Vec<(i64, usize)> = vec![(4, 0), (4, 1), (4, 2)];
    sort_pairs(&mut ties);
    assert_eq!(ties, vec![(4, 0), (4, 1), (4, 2)]);
}

#[test]
fn silhouette_bounds_the_plane_fill() {
    // camera outside the square, above its top plane: the roof fills
    // between the far wall's top edge (the recorded silhouette) and the
    // near wall's top edge, never above the silhouette.
    let world = square_world();
    let player = Player::new_with_position_angles(Vec3::new(16, -40, 50), 0, 0);
    let frame = render_once(&world, &player);
    // above the silhouette row (87 at the center column): untouched sky
    assert_eq!(frame.pixel(80, 40), BACKGROUND);
    assert_eq!(frame.pixel(80, 86), BACKGROUND);
    // the plane fill starts exactly at the silhouette
    assert_eq!(frame.pixel(80, 87), GREEN);
    assert_eq!(frame.pixel(80, 100), GREEN);
    assert_eq!(frame.pixel(80, 109), GREEN);
    // below the near wall's top edge the far wall's face shows
    assert_eq!(frame.pixel(80, 110), RED);
    assert_eq!(frame.pixel(80, 115), RED);
}

#[test]
fn square_scene_band_and_height_falloff() {
    let world = square_world();
    // camera inside the sector: the facing wall fills a band centered on
    // the screen
    let player = Player::new_with_position_angles(Vec3::new(16, 16, 10), 0, 0);
    let frame = render_once(&world, &player);
    assert_eq!(frame.pixel(80, 60), RED);
    // symmetric about the center column
    for k in [1u32, 20, 60] {
        assert_eq!(frame.pixel(80 - k, 60), frame.pixel(80 + k - 1, 60));
    }
    // the rasterized height strictly decreases as the camera height moves
    // away from the sector's vertical center
    let mut heights = Vec::new();
    for z in [20, -2, -4, -6] {
        let p = Player::new_with_position_angles(Vec3::new(16, 16, z), 0, 0);
        let f = render_once(&world, &p);
        heights.push(column_count(&f, 80, RED));
    }
    assert!(heights[0] > heights[1]);
    assert!(heights[1] > heights[2]);
    assert!(heights[2] > heights[3]);
}

#[test]
fn camera_at_wall_endpoint_renders() {
    // depth 0 before the clip: must not panic, and clamps to depth 1
    let world = square_world();
    let trig = TrigTable::new();
    let player = Player::new_with_position_angles(Vec3::new(0, 0, 10), 0, 0);
    let wall = &world.walls[0];
    let p = project_wall(&player, Face::Front, wall, &world.sectors[0].height, &trig);
    assert!(p.visible);
    assert_eq!(p.depth1, 1);
    let frame = render_once(&world, &player);
    assert_eq!(frame.width, WIDTH);
    assert_eq!(frame.height, HEIGHT);
}

#[test]
fn repeated_renders_are_byte_identical() {
    let world = square_world();
    let player = Player::new_with_position_angles(Vec3::new(16, -40, 50), 0, 0);
    let trig = TrigTable::new();
    let textures = TextureSet::new();
    let mut renderer = Render3D::new(&world);
    let mut shots: Vec<Vec<u8>> = Vec::new();
    for _ in 0..3 {
        let mut frame = Frame::new(WIDTH, HEIGHT);
        frame.clear(BACKGROUND);
        renderer.draw(&mut frame, &world, &textures, &player, &trig);
        shots.push(frame.data);
    }
    // once the distance state has settled (after the first frame), renders
    // with the same camera are byte-identical
    assert_eq!(shots[1], shots[2]);
    assert_eq!(shots[0], shots[1]);
}

#[test]
fn classification_follows_camera_height() {
    let world = square_world();
    let trig = TrigTable::new();
    let textures = TextureSet::new();
    for (z, expected) in [
        (50, SurfaceView::Top),
        (-5, SurfaceView::Bottom),
        (10, SurfaceView::Mid),
    ] {
        let player = Player::new_with_position_angles(Vec3::new(16, -40, z), 0, 0);
        let mut renderer = Render3D::new(&world);
        let mut frame = Frame::new(WIDTH, HEIGHT);
        frame.clear(BACKGROUND);
        renderer.draw(&mut frame, &world, &textures, &player, &trig);
        assert_eq!(renderer.contexts[0].view, expected);
    }
}

#[test]
fn width_on_fov_matches_the_projection_constants() {
    assert_eq!(doom_demo::render::width_on_fov(), 400);
}

#[test]
fn textured_surfaces_sample_their_textures() {
    // single-texel textures make the expected colors exact whatever the
    // interpolated coordinates are
    let purple = Texture {
        dimensions: Vec2::new(1, 1),
        channels: 4,
        data: vec![200, 0, 200, 255],
    };
    let cyan = Texture {
        dimensions: Vec2::new(1, 1),
        channels: 4,
        data: vec![0, 200, 200, 255],
    };
    let textures = TextureSet { set: vec![purple, cyan] };
    let wall_tex = Material::Texture(doom_demo::world::TextureMapping {
        texture: 0,
        uv: Vec2::new(1, 1),
        shade: 0,
    });
    let plane_tex = Material::Texture(doom_demo::world::TextureMapping {
        texture: 1,
        uv: Vec2::new(1, 1),
        shade: 0,
    });
    let walls = vec![
        Wall::new_with_material(&Vec2::new(0, 0), &Vec2::new(0, 32), wall_tex),
        Wall::new_with_material(&Vec2::new(0, 32), &Vec2::new(32, 32), wall_tex),
        Wall::new_with_material(&Vec2::new(32, 32), &Vec2::new(32, 0), wall_tex),
        Wall::new_with_material(&Vec2::new(32, 0), &Vec2::new(0, 0), wall_tex),
    ];
    let sector = Sector::new_with_materials(
        &Vec2::new(0, 4),
        &SectorHeight::new(40, 0),
        [plane_tex, plane_tex],
    );
    let world = World { walls, sectors: vec![sector] };
    let player = Player::new_with_position_angles(Vec3::new(16, -40, 50), 0, 0);
    let trig = TrigTable::new();
    let mut renderer = Render3D::new(&world);
    let mut frame = Frame::new(WIDTH, HEIGHT);
    frame.clear(BACKGROUND);
    renderer.draw(&mut frame, &world, &textures, &player, &trig);
    // the far wall face shows the wall texture, the roof fill the plane one
    assert_eq!(frame.pixel(80, 115), [200, 0, 200, 255]);
    assert_eq!(frame.pixel(80, 100), [0, 200, 200, 255]);
}

#[test]
fn rotated_camera_faces_the_side_wall() {
    // at angle 90 the camera inside the square faces the x = 32 wall; the
    // view fills the same centered band
    let world = square_world();
    let player = Player::new_with_position_angles(Vec3::new(16, 16, 10), 90, 0);
    let frame = render_once(&world, &player);
    assert_eq!(frame.pixel(80, 60), RED);
    assert_eq!(frame.pixel(10, 60), RED);
    assert_eq!(frame.pixel(150, 60), RED);
}

#[test]
fn vertical_shear_moves_the_scene() {
    // a nonzero updown shears every projected row; the frame must change
    // but rendering stays total
    let world = square_world();
    let level = Player::new_with_position_angles(Vec3::new(16, -40, 50), 0, 0);
    let sheared = Player::new_with_position_angles(Vec3::new(16, -40, 50), 0, -60);
    let a = render_once(&world, &level);
    let b = render_once(&world, &sheared);
    assert_eq!(a.width, b.width);
    assert!(a.data != b.data);
}
