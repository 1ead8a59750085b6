use single_player_game_physics::body_motion::BodyMotion;

fn motion() -> BodyMotion {
    BodyMotion::new([1, 2, 3], [4, 5, 6, 7])
}

#[test]
fn new_motion_rests() {
    let m = motion();
    assert_eq!(m.frame_tick(), 0);
    assert_eq!(m.frame_work_us(), 0);
    assert_eq!(m.step_work_us(), 0);
    assert_eq!(m.display_lag(), 0);
    assert_eq!(m.latest_step(), 0);
    assert_eq!(m.read_latest(), ([1, 2, 3], [4, 5, 6, 7]));
    assert_eq!(m.ring().read_step(0), Some(([1, 2, 3], [4, 5, 6, 7])));
}

#[test]
fn greatest_sync_error_is_taken_once() {
    let mut m = motion();
    for e in [0.5f32, 2.25, 1.0] {
        m.note_sync_err(e.to_bits());
    }
    assert_eq!(f32::from_bits(m.take_sync_err()), 2.25);
    assert_eq!(m.take_sync_err(), 0);
}

#[test]
fn work_times_add_up_and_wrap() {
    let mut m = motion();
    m.add_frame_work_us(u32::MAX);
    m.add_frame_work_us(3);
    assert_eq!(m.frame_work_us(), 2);
    m.add_step_work_us(10);
    m.add_step_work_us(20);
    assert_eq!(m.step_work_us(), 30);
    m.set_display_lag(2.0f32.to_bits());
    assert_eq!(f32::from_bits(m.display_lag()), 2.0);
}

#[test]
fn wait_ends_with_the_next_frame() {
    let mut m = motion();
    let last = m.frame_tick();
    assert_eq!(m.wait_frame(last), None);
    m.bump_frame();
    m.bump_frame();
    assert_eq!(m.wait_frame(last), Some(2));
    m.frame_tick = u32::MAX;
    m.bump_frame();
    assert_eq!(m.wait_frame(u32::MAX), Some(0));
}

#[test]
fn motion_publishes_through_its_ring() {
    let mut m = motion();
    m.publish(1, [9, 9, 9], [8, 8, 8, 8]);
    assert_eq!(m.latest_step(), 1);
    assert_eq!(m.read_step(1), Some(([9, 9, 9], [8, 8, 8, 8])));
    m.publish_snap(2, [7, 7, 7], [6, 6, 6, 6]);
    assert_eq!(m.read_step(1), Some(([7, 7, 7], [6, 6, 6, 6])));
    assert_eq!(m.read_latest(), ([7, 7, 7], [6, 6, 6, 6]));
}
