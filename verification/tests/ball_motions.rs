use single_player_game_physics::ball_motions::{BallMotions, MAX_BALLS, ONE_BITS};

#[test]
fn new_block_has_no_balls() {
    let b = BallMotions::new();
    assert_eq!(b, BallMotions::default());
    assert_eq!(b.count(), 0);
    assert_eq!(b.slots.len(), MAX_BALLS);
    assert_eq!(ONE_BITS, 1.0f32.to_bits());
    assert_eq!(b.slot(199).read_latest(), ([0, 0, 0], [0, 0, 0, ONE_BITS]));
}

#[test]
fn later_request_wins() {
    let mut b = BallMotions::new();
    let mut last = 0;
    assert_eq!(b.poll_drop(&mut last), None);
    b.request_drop(1, 2);
    b.request_drop(3, 4);
    assert_eq!(b.poll_drop(&mut last), Some((3, 4)));
    assert_eq!(last, 2);
    assert_eq!(b.poll_drop(&mut last), None);
}

#[test]
fn seeded_ball_is_counted_with_its_pose() {
    let mut b = BallMotions::new();
    b.seed_ball(0, 17, [1, 2, 3], [0, 0, 0, ONE_BITS]);
    assert_eq!(b.count(), 1);
    assert_eq!(b.slot(0).latest_step(), 17);
    assert_eq!(b.slot(0).read_step(16), Some(([1, 2, 3], [0, 0, 0, ONE_BITS])));
    b.slot_mut(0).publish(18, [4, 5, 6], [0, 0, 0, ONE_BITS]);
    assert_eq!(b.slot(0).read_latest(), ([4, 5, 6], [0, 0, 0, ONE_BITS]));
    b.set_count(200);
    assert_eq!(b.count(), 200);
}
