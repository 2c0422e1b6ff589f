use doom_demo::math::Vec2;
use doom_demo::texture::{Texture, TextureSet};

fn test_texture() -> Texture {
    // 2x2 RGBA texture; texel (x, y) holds distinct channel values.
    Texture {
        dimensions: Vec2::new(2, 2),
        channels: 4,
        data: vec![
            10, 20, 30, 40, // (0,0)
            50, 60, 70, 80, // (1,0)
            90, 100, 110, 120, // (0,1)
            130, 140, 150, 160, // (1,1)
        ],
    }
}

#[test]
fn indexing_helpers() {
    let t = test_texture();
    assert_eq!(t.row_size(), 8);
    assert_eq!(t.pixel_index(1, 1), 12);
    assert_eq!(t.pixel(1, 0), &[50, 60, 70, 80]);
    let fixed: [u8; 4] = t.fix_pixel(0, 1);
    assert_eq!(fixed, [90, 100, 110, 120]);
}

#[test]
fn fix_pixel_pads_missing_channels() {
    let t = Texture { dimensions: Vec2::new(1, 1), channels: 1, data: vec![33] };
    let fixed: [u8; 4] = t.fix_pixel(0, 0);
    assert_eq!(fixed, [33, 0xff, 0xff, 0xff]);
}

#[test]
fn sampling_flips_v_to_bottom_left_origin() {
    let t = test_texture();
    // v = 0 addresses the bottom row of the stored image.
    assert_eq!(t.uv_pixel_shade(0, 0, 0), [90, 100, 110, 120]);
    assert_eq!(t.uv_pixel_shade(1, 0, 0), [130, 140, 150, 160]);
    assert_eq!(t.uv_pixel_shade(0, 1, 0), [10, 20, 30, 40]);
    assert_eq!(t.uv_pixel(1, 1), &[50, 60, 70, 80]);
}

#[test]
fn sampling_wraps_in_both_axes() {
    let t = test_texture();
    for u in -3i32..4 {
        for v in -3i32..4 {
            let base = t.uv_pixel_shade(u, v, 0);
            assert_eq!(t.uv_pixel_shade(u + 2, v, 0), base);
            assert_eq!(t.uv_pixel_shade(u, v + 2, 0), base);
            assert_eq!(t.uv_pixel_shade(u - 2, v - 2, 0), base);
        }
    }
}

#[test]
fn shade_subtracts_and_clamps() {
    let t = test_texture();
    // shade dims RGB, alpha keeps the stored value
    assert_eq!(t.uv_pixel_shade(0, 0, 100), [0, 0, 10, 120]);
    assert_eq!(t.uv_pixel_shade(1, 0, 25), [105, 115, 125, 160]);
}

#[test]
fn empty_texture_set() {
    let s = TextureSet::new();
    assert_eq!(s.set.len(), 0);
}
