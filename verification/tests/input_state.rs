use single_player_game_physics::input_state::{
    InputState, HELD_BACK, HELD_FORWARD, HELD_LEFT, HELD_RIGHT,
};

#[test]
fn held_bits_are_set_and_cleared_alone() {
    let mut s = InputState::new();
    assert_eq!(s, InputState::default());
    s.set_held(HELD_FORWARD, true);
    s.set_held(HELD_RIGHT, true);
    assert_eq!(s.held(), 9);
    s.set_held(HELD_FORWARD, false);
    assert_eq!(s.held(), HELD_RIGHT);
    s.set_held(HELD_BACK | HELD_LEFT, true);
    assert_eq!(s.held(), 14);
    s.set_held(15, false);
    assert_eq!(s.held(), 0);
}

#[test]
fn movement_bits_do_not_overlap() {
    assert_eq!([HELD_FORWARD, HELD_BACK, HELD_LEFT, HELD_RIGHT], [1, 2, 4, 8]);
}

#[test]
fn jump_counter_counts_presses() {
    let mut s = InputState::new();
    s.bump_jump();
    s.bump_jump();
    assert_eq!(s.jump_seq(), 2);
    s.jump_seq = u32::MAX;
    s.bump_jump();
    assert_eq!(s.jump_seq(), 0);
}

#[test]
fn poll_gives_the_last_swipe_once() {
    let mut s = InputState::new();
    let mut last = s.fling_seq();
    assert_eq!(s.poll_fling(&mut last), None);
    s.bump_fling(1, 2);
    s.bump_fling(3, 4);
    assert_eq!(s.poll_fling(&mut last), Some((3, 4)));
    assert_eq!(last, 2);
    assert_eq!(s.poll_fling(&mut last), None);
}

#[test]
fn yaw_is_kept_as_bits() {
    let mut s = InputState::new();
    s.set_camera_yaw(1.5f32.to_bits());
    assert_eq!(f32::from_bits(s.camera_yaw()), 1.5);
}
