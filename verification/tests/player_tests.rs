use doom_demo::math::Vec3;
use doom_demo::player::{InputState, Player};
use doom_demo::trig::TrigTable;

#[test]
fn construction() {
    let p = Player::new();
    assert_eq!(p.position, Vec3::new(0, 0, 0));
    assert_eq!(p.angle, 0);
    assert_eq!(p.updown, 0);
    let q = Player::new_with_position(Vec3::new(1, 2, 3));
    assert_eq!(q.position, Vec3::new(1, 2, 3));
    let r = Player::new_with_position_angles(Vec3::new(4, 5, 6), 90, -7);
    assert_eq!(r.position, Vec3::new(4, 5, 6));
    assert_eq!(r.angle, 90);
    assert_eq!(r.updown, -7);
}

#[test]
fn rotation_wraps() {
    let mut p = Player::new();
    p.left();
    assert_eq!(p.angle, 359);
    p.right();
    assert_eq!(p.angle, 0);
    let mut q = Player::new_with_position_angles(Vec3::new(0, 0, 0), 359, 0);
    q.right();
    assert_eq!(q.angle, 0);
}

#[test]
fn trig_lookup_through_player() {
    let trig = TrigTable::new();
    let p = Player::new_with_position_angles(Vec3::new(0, 0, 0), 0, 0);
    assert_eq!(p.cos(&trig), 1024);
    assert_eq!(p.sin(&trig), 0);
    let q = Player::new_with_position_angles(Vec3::new(0, 0, 0), 90, 0);
    assert_eq!(q.cos(&trig), 0);
    assert_eq!(q.sin(&trig), 1024);
}

#[test]
fn look_up_and_down() {
    let mut p = Player::new();
    p.up();
    assert_eq!(p.updown, -1);
    p.down();
    p.down();
    assert_eq!(p.updown, 1);
}

#[test]
fn translate_moves_whole_units() {
    let mut p = Player::new();
    p.translate(&Vec3::new(1, -2, 3));
    assert_eq!(p.position, Vec3::new(1, -2, 3));
}

#[test]
fn dirmove_rotates_by_the_view_angle() {
    let trig = TrigTable::new();
    let mut p = Player::new();
    // facing angle 0: a forward step moves along +y
    p.dirmove(&Vec3::new(0, 2, 0), &trig);
    assert_eq!(p.position, Vec3::new(0, 2, 0));
    // facing angle 90: a forward step moves along +x
    let mut q = Player::new_with_position_angles(Vec3::new(0, 0, 0), 90, 0);
    q.dirmove(&Vec3::new(0, 2, 0), &trig);
    assert_eq!(q.position, Vec3::new(2, 0, 0));
}

#[test]
fn fractional_motion_accumulates() {
    let trig = TrigTable::new();
    // at 45 degrees each step moves by sqrt(1/2) * 2 in both axes; single
    // truncation would lose the fraction, the accumulator keeps it.
    let mut p = Player::new_with_position_angles(Vec3::new(0, 0, 0), 45, 0);
    for _ in 0..10 {
        p.dirmove(&Vec3::new(0, 2, 0), &trig);
    }
    assert!(p.position.x >= 13 && p.position.x <= 15);
    assert!(p.position.y >= 13 && p.position.y <= 15);
}

#[test]
fn execute_input_standard_moves_and_turns() {
    let mut p = Player::new();
    let mut input = InputState::new();
    input.w = true;
    input.right = true;
    input.down = true;
    p.execute_input_standard(&input);
    assert_eq!(p.position, Vec3::new(0, 2, 0));
    assert_eq!(p.angle, 1);
    assert_eq!(p.updown, 1);
    // opposing keys cancel
    let mut q = Player::new();
    let mut both = InputState::new();
    both.w = true;
    both.s = true;
    q.execute_input_standard(&both);
    assert_eq!(q.position, Vec3::new(0, 0, 0));
}

#[test]
fn execute_input_classic_is_view_relative() {
    let trig = TrigTable::new();
    let mut p = Player::new_with_position_angles(Vec3::new(0, 0, 0), 90, 0);
    let mut input = InputState::new();
    input.w = true;
    p.execute_input_classic(&input, &trig);
    assert_eq!(p.position, Vec3::new(2, 0, 0));
    let mut r_key = InputState::new();
    r_key.r = true;
    p.execute_input_classic(&r_key, &trig);
    assert_eq!(p.position, Vec3::new(2, 0, 2));
}
