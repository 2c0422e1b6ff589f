use doom_demo::trig::{sin_fp, TrigTable};

#[test]
fn cardinal_angles_are_exact() {
    let t = TrigTable::new();
    assert_eq!(t.sin[0], 0);
    assert_eq!(t.sin[90], 1024);
    assert_eq!(t.sin[180], 0);
    assert_eq!(t.sin[270], -1024);
    assert_eq!(t.cos[0], 1024);
    assert_eq!(t.cos[90], 0);
    assert_eq!(t.cos[180], -1024);
    assert_eq!(t.cos[270], 0);
}

#[test]
fn thirty_degrees_is_half() {
    assert_eq!(sin_fp(30), 512);
    assert_eq!(sin_fp(150), 512);
    assert_eq!(sin_fp(210), -512);
}

#[test]
fn table_is_bounded_and_symmetric() {
    let t = TrigTable::new();
    assert_eq!(t.sin.len(), 360);
    assert_eq!(t.cos.len(), 360);
    for d in 0..360usize {
        assert!(-1024 <= t.sin[d] && t.sin[d] <= 1024);
        assert!(-1024 <= t.cos[d] && t.cos[d] <= 1024);
        // cosine is the quarter-turn shifted sine
        assert_eq!(t.cos[d], t.sin[(d + 90) % 360]);
        if d < 180 {
            // the lower half-turn mirrors the upper one
            assert_eq!(t.sin[d + 180], -t.sin[d]);
        }
    }
}
