use doom_demo::math::{clamp, max, min, no_negative, Vec2, Vec3};

#[test]
fn vec2_constructors() {
    let v = Vec2::new(3, -4);
    assert_eq!(v.x, 3);
    assert_eq!(v.y, -4);
    assert_eq!(Vec2::new_x(7), Vec2::new(7, 0));
    assert_eq!(Vec2::new_y(7), Vec2::new(0, 7));
    assert_eq!(Vec2::zeros(), Vec2::new(0, 0));
    assert_eq!(v.yx(), Vec2::new(-4, 3));
}

#[test]
fn vec2_products() {
    let a = Vec2::new(1, 2);
    let b = Vec2::new(3, 4);
    assert_eq!(a.dot(&b), 11);
    assert_eq!(a.cross(&b), -2);
}

#[test]
fn vec2_distance_is_euclidean_floor() {
    let a = Vec2::new(0, 0);
    let b = Vec2::new(3, 4);
    assert_eq!(a.distance(&b), 5);
    let c = Vec2::new(1, 1);
    // sqrt(2) rounds down to 1
    assert_eq!(a.distance(&c), 1);
}

#[test]
fn vec2_normalize_fixed_point() {
    let v = Vec2::new(3, 4);
    let n = v.normalize();
    assert_eq!(n, Vec2::new(614, 819));
    assert_eq!(Vec2::zeros().normalize(), Vec2::new(0, 0));
}

#[test]
fn vec3_constructors_and_swizzles() {
    let v = Vec3::new(1, 2, 3);
    assert_eq!(v.xy(), Vec2::new(1, 2));
    assert_eq!(v.xz(), Vec2::new(1, 3));
    assert_eq!(v.yx(), Vec2::new(2, 1));
    assert_eq!(v.yz(), Vec2::new(2, 3));
    assert_eq!(v.zx(), Vec2::new(3, 1));
    assert_eq!(v.zy(), Vec2::new(3, 2));
    assert_eq!(Vec3::new_vec2_z(&Vec2::new(5, 6), 7), Vec3::new(5, 6, 7));
    assert_eq!(Vec3::new_x(4), Vec3::new(4, 0, 0));
    assert_eq!(Vec3::new_y(4), Vec3::new(0, 4, 0));
    assert_eq!(Vec3::new_z(4), Vec3::new(0, 0, 4));
    assert_eq!(Vec3::zeros(), Vec3::new(0, 0, 0));
}

#[test]
fn vec3_products_and_distance() {
    let a = Vec3::new(1, 2, 3);
    let b = Vec3::new(4, 5, 6);
    assert_eq!(a.dot(&b), 32);
    assert_eq!(a.cross(&b), Vec3::new(-3, 6, -3));
    assert_eq!(Vec3::new(0, 0, 0).distance(&Vec3::new(2, 3, 6)), 7);
}

#[test]
fn vec3_normalize_fixed_point() {
    let n = Vec3::new(0, 0, 9).normalize();
    assert_eq!(n, Vec3::new(0, 0, 1024));
}

#[test]
fn scalar_helpers() {
    assert_eq!(max(3, 5), 5);
    assert_eq!(max(5, 3), 5);
    assert_eq!(min(3, 5), 3);
    assert_eq!(clamp(7, 0, 5), 5);
    assert_eq!(clamp(-1, 0, 5), 0);
    assert_eq!(clamp(3, 0, 5), 3);
    assert_eq!(no_negative(-4), 0);
    assert_eq!(no_negative(4), 4);
}
