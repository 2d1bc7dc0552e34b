const P0: [f32; 2] = [349.81598, 1118.0];
const P1: [f32; 2] = [443.707, 827.80835];
const P2: [f32; 2] = [537.598, 537.61664];

#[test]
fn the_control_point_is_a_hair_off_the_midpoint() {

    let a = P0[1] - 2.0 * P1[1] + P2[1];
    assert_ne!(a, 0.0, "the segment is exactly straight; nothing to test");
    assert!(
        a.abs() < 1e-3,
        "a = {a}, far enough from zero that the naive formula is stable"
    );

    assert!(a.abs() > 1e-6, "the old `a.abs() < 1e-6` guard would have caught this");
}
