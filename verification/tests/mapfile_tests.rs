use doom_demo::mapfile::{parse_i32, tokenize_i32_line, MapFile};
use doom_demo::math::Vec3;
use doom_demo::world::Material;

const GOOD_MAP: &str = "1\n0 4 40 0\n4\n0 0 0 32\n0 32 32 32 255 0 0\n32 32 32 0\n32 0 0 0\n\n16 16 10 0 0\n";

#[test]
fn integer_tokens() {
    assert_eq!(parse_i32(b"123"), Some(123));
    assert_eq!(parse_i32(b"-45"), Some(-45));
    assert_eq!(parse_i32(b"0"), Some(0));
    assert_eq!(parse_i32(b"2147483647"), Some(i32::MAX));
    assert_eq!(parse_i32(b"-2147483648"), Some(i32::MIN));
    assert_eq!(parse_i32(b"2147483648"), None);
    assert_eq!(parse_i32(b"+5"), Some(5));
    assert_eq!(parse_i32(b"0000000000000000042"), Some(42));
    assert_eq!(parse_i32(b"-00000000002147483648"), Some(i32::MIN));
    assert_eq!(parse_i32(b"99999999999999999999"), None);
    assert_eq!(parse_i32(b"12a"), None);
    assert_eq!(parse_i32(b""), None);
    assert_eq!(parse_i32(b"-"), None);
    assert_eq!(parse_i32(b"+"), None);
}

#[test]
fn line_tokenization() {
    assert_eq!(tokenize_i32_line(b"1 2  -3\t4\r"), Some(vec![1, 2, -3, 4]));
    assert_eq!(tokenize_i32_line(b""), Some(vec![]));
    assert_eq!(tokenize_i32_line(b"1 x 3"), None);
}

#[test]
fn good_map_loads() {
    let m = MapFile::from(GOOD_MAP.as_bytes()).unwrap();
    assert_eq!(m.world.sectors.len(), 1);
    assert_eq!(m.world.walls.len(), 4);
    assert_eq!(m.world.sectors[0].wall, doom_demo::math::Vec2::new(0, 4));
    assert_eq!(m.world.sectors[0].height.top, 40);
    assert_eq!(m.world.sectors[0].height.bottom, 0);
    assert!(matches!(m.world.walls[1].material, Material::Color([255, 0, 0, 0xff])));
    assert_eq!(m.player.position, Vec3::new(16, 16, 10));
    assert_eq!(m.player.angle, 0);
    assert_eq!(m.player.updown, 0);
}

#[test]
fn malformed_maps_fail() {
    // a sector line with a non-integer token
    assert!(MapFile::from(b"1\n0 4 zz 0\n0\n\n0 0 0 0 0\n").is_none());
    // a sector line with too few integers
    assert!(MapFile::from(b"1\n0 4 40\n0\n\n0 0 0 0 0\n").is_none());
    // missing blank separator line
    assert!(MapFile::from(b"0\n0\n0 0 0 0 0\n").is_none());
    // camera line too short
    assert!(MapFile::from(b"0\n0\n\n0 0 0\n").is_none());
    // camera angle outside the table range
    assert!(MapFile::from(b"0\n0\n\n0 0 0 720 0\n").is_none());
    // a wall range pointing past the wall list
    assert!(MapFile::from(b"1\n0 9 40 0\n1\n0 0 32 0\n\n0 0 0 0 0\n").is_none());
    // truncated file
    assert!(MapFile::from(b"2\n0 4 40 0\n").is_none());
}

#[test]
fn malformed_counts_read_as_zero() {
    // an unparsable count means zero entries of that kind
    let m = MapFile::from(b"zz\nzz\n\n1 2 3 4 5\n").unwrap();
    assert_eq!(m.world.sectors.len(), 0);
    assert_eq!(m.world.walls.len(), 0);
    assert_eq!(m.player.position, Vec3::new(1, 2, 3));
    assert_eq!(m.player.angle, 4);
    assert_eq!(m.player.updown, 5);
}
