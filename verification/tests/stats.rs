use single_player_game_physics::blocks::{BallsBlock, MotionBlock, BALLS_WORDS, MOTION_WORDS};
use single_player_game_physics::shared::Port;
use single_player_game_physics::shared_pool::{PoolBlock, POOL_WORDS};
use single_player_game_physics::stats::{StatsReadings, StatsRefs, StatsSample};
use single_player_game_physics::words::SharedWords;

#[test]
fn panel_before_the_workers_are_up() {
    let mut s = StatsSample::new();
    let text = s.panel_text(StatsReadings { motion: None, claims: None, balls: None });
    assert_eq!(
        text,
        "workers\n  main      ui · audio · input\n  render    starting…\n  physics   starting…"
    );
}

#[test]
fn panel_shows_rates() {
    let mut s = StatsSample::new();
    let first = StatsReadings {
        motion: Some((u32::MAX, 100)),
        claims: Some(vec![5, 6]),
        balls: Some(0),
    };
    s.panel_text(first);
    let text = s.panel_text(StatsReadings {
        motion: Some((59, 340)),
        claims: Some(vec![15, 6, 7]),
        balls: Some(12),
    });
    assert_eq!(
        text,
        "workers\n  main      ui · audio · input\n  render    60 fps\n  physics   240 steps/s\
         \n  physics⤷ 10 tasks/s\n  task 1    idle\n  task 2    7 tasks/s\
         \n\nballs dropped  12"
    );
    assert_eq!(s.claims, vec![15, 6, 7]);
    assert_eq!((s.frame, s.step), (59, 340));
}

#[test]
fn counters_are_read_from_shared_memory() {
    let words = MOTION_WORDS + BALLS_WORDS + POOL_WORDS;
    let block = SharedWords::new(&vec![0u32; words]);
    let mut port = Port::new(&block);
    assert_eq!(
        StatsRefs::new().read(&mut port),
        StatsReadings { motion: None, claims: None, balls: None }
    );
    let motion = MotionBlock { at: 0 };
    let balls = BallsBlock { at: MOTION_WORDS };
    let pool = PoolBlock { at: MOTION_WORDS + BALLS_WORDS };
    motion.bump_frame(&mut port);
    motion.publish(&mut port, 9, [0; 3], [0; 4]);
    balls.set_count(&mut port, 4);
    pool.count_claim(&mut port, 2);
    let refs = StatsRefs { motion: Some(motion), balls: Some(balls), pool: Some((pool, 2)) };
    assert_eq!(
        refs.read(&mut port),
        StatsReadings { motion: Some((1, 9)), claims: Some(vec![0, 0, 1]), balls: Some(4) }
    );
}
