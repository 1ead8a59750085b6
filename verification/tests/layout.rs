use single_player_game_physics::blocks::{BallsBlock, InputBlock, MotionBlock};
use single_player_game_physics::layout::{
    append_balls, append_input, append_motion, append_pool, append_ring, session_words, BALLS_AT,
    INPUT_AT, MOTION_AT, POOL_AT, SESSION_WORDS,
};
use single_player_game_physics::ball_motions::BallMotions;
use single_player_game_physics::body_motion::BodyMotion;
use single_player_game_physics::input_state::InputState;
use single_player_game_physics::physics_tasks::TaskPool;
use single_player_game_physics::pose_ring::PoseRing;
use single_player_game_physics::shared::Port;
use single_player_game_physics::shared_pool::PoolBlock;
use single_player_game_physics::shared_ring::read_latest;
use single_player_game_physics::words::SharedWords;

#[test]
fn session_starts_at_rest() {
    assert_eq!([INPUT_AT, MOTION_AT, BALLS_AT, POOL_AT], [0, 6, 300, 58104]);
    let words = session_words([1, 2, 3], [4, 5, 6, 7]);
    assert_eq!(words.len(), SESSION_WORDS);
    let block = SharedWords::new(&words);
    let mut port = Port::new(&block);
    assert_eq!(InputBlock { at: INPUT_AT }.held(&mut port), 0);
    let motion = MotionBlock { at: MOTION_AT };
    assert_eq!(motion.read_latest(&mut port), Some(([1, 2, 3], [4, 5, 6, 7])));
    assert_eq!(motion.frame_tick(&mut port), 0);
    let balls = BallsBlock { at: BALLS_AT };
    assert_eq!(balls.count(&mut port), 0);
    let one = 1.0f32.to_bits();
    assert_eq!(read_latest(&mut port, balls.slot(199)), Some(([0; 3], [0, 0, 0, one])));
    let pool = PoolBlock { at: POOL_AT };
    assert_eq!(pool.execute_one(&mut port, 0, |_, _| unreachable!()), None);
    assert_eq!(pool.enqueue_task(&mut port, 1, 2), Some(0));
}

#[test]
fn session_rings_hold_only_published_steps() {
    let block = SharedWords::new(&session_words([1, 2, 3], [4, 5, 6, 7]));
    let mut port = Port::new(&block);
    let motion = MotionBlock { at: MOTION_AT };
    assert_eq!(motion.read_step(&mut port, 0), Some(([1, 2, 3], [4, 5, 6, 7])));
    for step in [1, 31, 32, u32::MAX - 1, u32::MAX] {
        assert_eq!(motion.read_step(&mut port, step), None);
    }
    let balls = BallsBlock { at: BALLS_AT };
    balls.seed_ball(&mut port, 0, 40, [9; 3], [8; 4]);
    balls.seed_ball(&mut port, 1, 41, [7; 3], [6; 4]);
    assert_eq!(balls.count(&mut port), 2);
    assert_eq!(read_latest(&mut port, balls.slot(0)), Some(([9; 3], [8; 4])));
    assert_eq!(read_latest(&mut port, balls.slot(1)), Some(([7; 3], [6; 4])));
}

#[test]
fn words_of_a_value_are_those_of_its_block() {
    let mut ring = PoseRing::new([1; 3], [2; 4]);
    ring.publish(5, [3; 3], [4; 4]);
    let mut words = vec![9];
    append_ring(&mut words, &ring);
    assert_eq!(words.len(), 290);
    let block = SharedWords::new(&words);
    let mut port = Port::new(&block);
    assert_eq!(read_latest(&mut port, 1), Some(([3; 3], [4; 4])));

    let mut input = InputState::new();
    input.set_held(5, true);
    input.bump_fling(7, 8);
    let mut words = vec![];
    append_input(&mut words, &input);
    assert_eq!(words, vec![5, 0, 0, 1, 7, 8]);

    let mut motion = BodyMotion::new([1; 3], [2; 4]);
    motion.bump_frame();
    let mut words = vec![];
    append_motion(&mut words, &motion);
    assert_eq!(words.len(), 294);
    assert_eq!(&words[289..], &[1, 0, 0, 0, 0]);

    let mut balls = BallMotions::new();
    balls.seed_ball(0, 4, [1; 3], [2; 4]);
    let mut words = vec![];
    append_balls(&mut words, &balls);
    assert_eq!(words.len(), 57804);
    assert_eq!(&words[..5], &[0, 0, 0, 1, 4]);

    let mut pool = TaskPool::new();
    pool.enqueue_task(11, 12);
    let mut words = vec![];
    append_pool(&mut words, &pool);
    assert_eq!(words.len(), 802);
    assert_eq!(&words[..2], &[1, 1]);
    assert_eq!(&words[34..37], &[1, 11, 12]);
}
