use doom_demo::math::Vec2;
use doom_demo::world::{Material, Sector, SectorHeight, Wall};

#[test]
fn wall_constructors() {
    let w = Wall::new(&Vec2::new(1, 2), &Vec2::new(3, 4));
    assert_eq!(w.point1, Vec2::new(1, 2));
    assert_eq!(w.point2, Vec2::new(3, 4));
    assert!(matches!(w.material, Material::Color([0xff, 0xff, 0xff, 0xff])));
    let c = Wall::new_with_material(
        &Vec2::new(0, 0),
        &Vec2::new(1, 1),
        Material::Color([1, 2, 3, 4]),
    );
    assert!(matches!(c.material, Material::Color([1, 2, 3, 4])));
}

#[test]
fn sector_height_arithmetic() {
    let h = SectorHeight::new(40, 10);
    assert_eq!(h.top, 40);
    assert_eq!(h.bottom, 10);
    assert_eq!(h.height(), 30);
    assert_eq!(h.center(), 25);
    // the center rounds toward zero
    assert_eq!(SectorHeight::new(0, -5).center(), -2);
}

#[test]
fn sector_constructors() {
    let wall = Vec2::new(0, 4);
    let h = SectorHeight::new(40, 0);
    let s = Sector::new(&wall, &h);
    assert_eq!(s.wall, wall);
    assert_eq!(s.height, h);
    assert!(matches!(s.material[0], Material::Color([0xff, 0xff, 0xff, 0xff])));
    let s2 = Sector::new_with_colors(&wall, &h, [[1, 2, 3, 4], [5, 6, 7, 8]]);
    assert!(matches!(s2.material[0], Material::Color([1, 2, 3, 4])));
    assert!(matches!(s2.material[1], Material::Color([5, 6, 7, 8])));
    let m = Material::Color([9, 9, 9, 9]);
    let s3 = Sector::new_with_material(&wall, &h, m);
    assert!(matches!(s3.material[1], Material::Color([9, 9, 9, 9])));
    let s4 = Sector::new_with_materials(&wall, &h, [m, Material::Color([1, 1, 1, 1])]);
    assert!(matches!(s4.material[1], Material::Color([1, 1, 1, 1])));
}

#[test]
fn color_or_picks_the_payload() {
    let default = [7, 7, 7, 7];
    let c = Material::Color([1, 2, 3, 4]);
    assert_eq!(*c.color_or(&default), [1, 2, 3, 4]);
    let t = Material::Texture(doom_demo::world::TextureMapping {
        texture: 0,
        uv: Vec2::new(1, 1),
        shade: 0,
    });
    assert_eq!(*t.color_or(&default), [7, 7, 7, 7]);
}
