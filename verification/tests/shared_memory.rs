use single_player_game_physics::blocks::{
    BallsBlock, InputBlock, MotionBlock, BALLS_WORDS, INPUT_WORDS, MOTION_WORDS,
};
use single_player_game_physics::edge::Edge;
use single_player_game_physics::render_thread::sample_pair;
use single_player_game_physics::seqlock::{read_slot, write_slot, READ_TRIES, SLOT_WORDS};
use single_player_game_physics::shared::Port;
use single_player_game_physics::shared_ring::{
    latest_step, publish, publish_snap, read_latest, read_step, RING_WORDS,
};
use single_player_game_physics::words::{Order, SharedWords};

fn memory(words: usize) -> SharedWords {
    SharedWords::new(&vec![0u32; words])
}

fn empty_ring(at: usize, words: &mut [u32]) {
    for i in 0..32 {
        words[at + 1 + 9 * i + 1] = if i == 31 { 0 } else { u32::MAX };
    }
}

#[test]
fn block_starts_with_its_words() {
    let block = SharedWords::new(&vec![7, 8, 9]);
    assert_eq!(block.len(), 3);
    let mut port = Port::new(&block);
    assert_eq!(port.load(2, Order::Acquire), 9);
}

#[test]
fn accesses_do_what_they_say() {
    let block = memory(4);
    let mut port = Port::new(&block);
    port.store(0, Order::Release, 5);
    assert_eq!(port.load(0, Order::Relaxed), 5);
    assert_eq!(port.add(0, Order::AcqRel, u32::MAX), 5);
    assert_eq!(port.or(0, Order::Relaxed, 3), 4);
    assert_eq!(port.and(0, Order::Relaxed, 6), 7);
    assert_eq!(port.max(0, Order::Relaxed, 2), 6);
    assert_eq!(port.max(0, Order::Relaxed, 20), 6);
    assert_eq!(port.swap(0, Order::Relaxed, 1), 20);
    assert_eq!(port.exchange(0, Order::Acquire, 9, 2), 1);
    assert_eq!(port.exchange(0, Order::Acquire, 1, 2), 1);
    port.barrier(Order::Release);
    port.barrier(Order::Acquire);
    port.barrier(Order::AcqRel);
    assert_eq!(port.load(0, Order::Relaxed), 2);
    assert_eq!(port.load(1, Order::Relaxed), 0);
}

#[test]
fn word_to_sleep_on_is_the_word_of_the_block() {
    let block = memory(3);
    Port::new(&block).store(1, Order::Release, 6);
    assert_eq!(block.word(1).load(std::sync::atomic::Ordering::Acquire), 6);
    assert_eq!(block.word(2).load(std::sync::atomic::Ordering::Acquire), 0);
}

#[test]
fn two_ports_see_the_same_words() {
    let block = memory(2);
    let mut a = Port::new(&block);
    let mut b = Port::new(&block);
    a.store(1, Order::Release, 42);
    assert_eq!(b.load(1, Order::Acquire), 42);
}

#[test]
fn slot_write_is_read_back_whole() {
    assert_eq!(SLOT_WORDS, 9);
    assert_eq!(READ_TRIES, 64);
    let block = memory(20);
    let mut port = Port::new(&block);
    write_slot(&mut port, 5, 77, [1, 2, 3], [4, 5, 6, 7]);
    assert_eq!(port.load(5, Order::Relaxed), 2);
    assert_eq!(read_slot(&mut port, 5, 77), Some(([1, 2, 3], [4, 5, 6, 7])));
    assert_eq!(read_slot(&mut port, 5, 78), None);
    assert_eq!(port.load(4, Order::Relaxed), 0);
    assert_eq!(port.load(14, Order::Relaxed), 0);
}

#[test]
fn read_gives_up_on_a_write_in_flight() {
    let block = memory(9);
    let mut port = Port::new(&block);
    write_slot(&mut port, 0, 1, [1; 3], [1; 4]);
    port.store(0, Order::Relaxed, 3);
    assert_eq!(read_slot(&mut port, 0, 1), None);
}

#[test]
fn ring_in_shared_memory() {
    let mut words = vec![0u32; RING_WORDS + 3];
    empty_ring(3, &mut words);
    let block = SharedWords::new(&words);
    let mut port = Port::new(&block);
    assert_eq!(read_latest(&mut port, 3), None);
    publish(&mut port, 3, 1, [1; 3], [2; 4]);
    publish(&mut port, 3, 2, [3; 3], [4; 4]);
    assert_eq!(latest_step(&mut port, 3), 2);
    assert_eq!(read_step(&mut port, 3, 1), Some(([1; 3], [2; 4])));
    assert_eq!(read_latest(&mut port, 3), Some(([3; 3], [4; 4])));
    assert_eq!(sample_pair(&mut port, 3, 1), Some((([1; 3], [2; 4]), ([3; 3], [4; 4]))));
    assert_eq!(sample_pair(&mut port, 3, 2), None);
    publish_snap(&mut port, 3, 34, [9; 3], [9; 4]);
    assert_eq!(read_step(&mut port, 3, 33), Some(([9; 3], [9; 4])));
    assert_eq!(read_step(&mut port, 3, 1), None);
    assert_eq!(read_latest(&mut port, 3), Some(([9; 3], [9; 4])));
}

#[test]
fn edge_is_polled_once_with_its_last_values() {
    let edge = Edge { seq_at: 0, x_at: 1, z_at: 2 };
    let block = memory(3);
    let mut port = Port::new(&block);
    let mut last = 0;
    assert_eq!(edge.poll(&mut port, &mut last), None);
    edge.post(&mut port, 10, 20);
    edge.post(&mut port, 30, 40);
    assert_eq!(edge.poll(&mut port, &mut last), Some((30, 40)));
    assert_eq!(last, 2);
    assert_eq!(edge.poll(&mut port, &mut last), None);
}

#[test]
fn motion_block_in_shared_memory() {
    let mut words = vec![0u32; MOTION_WORDS];
    empty_ring(0, &mut words);
    let block = SharedWords::new(&words);
    let mut port = Port::new(&block);
    let m = MotionBlock { at: 0 };
    m.note_sync_err(&mut port, 5);
    m.note_sync_err(&mut port, 3);
    assert_eq!(m.take_sync_err(&mut port), 5);
    assert_eq!(m.take_sync_err(&mut port), 0);
    m.set_display_lag(&mut port, 8);
    assert_eq!(m.display_lag(&mut port), 8);
    m.add_frame_work_us(&mut port, 4);
    m.add_frame_work_us(&mut port, 5);
    assert_eq!(m.frame_work_us(&mut port), 9);
    m.add_step_work_us(&mut port, 6);
    assert_eq!(m.step_work_us(&mut port), 6);
    assert_eq!(m.wait_frame(&mut port, 0), None);
    m.bump_frame(&mut port);
    assert_eq!(m.wait_frame(&mut port, 0), Some(1));
    assert_eq!(m.frame_tick(&mut port), 1);
    m.publish(&mut port, 1, [1; 3], [2; 4]);
    assert_eq!(m.latest_step(&mut port), 1);
    assert_eq!(m.read_step(&mut port, 1), Some(([1; 3], [2; 4])));
    m.publish_snap(&mut port, 2, [5; 3], [6; 4]);
    assert_eq!(m.read_latest(&mut port), Some(([5; 3], [6; 4])));
    assert_eq!(m.read_step(&mut port, 1), Some(([5; 3], [6; 4])));
    // The counters lie behind the ring, in the order of the block's fields.
    let tail: Vec<u32> = (289..294).map(|i| port.load(i, Order::Relaxed)).collect();
    assert_eq!(tail, vec![1, 9, 6, 0, 8]);
}

#[test]
fn input_block_in_shared_memory() {
    let block = memory(INPUT_WORDS);
    let mut port = Port::new(&block);
    let input = InputBlock { at: 0 };
    input.set_held(&mut port, 5, true);
    input.set_held(&mut port, 1, false);
    assert_eq!(input.held(&mut port), 4);
    input.bump_jump(&mut port);
    assert_eq!(input.jump_seq(&mut port), 1);
    input.set_camera_yaw(&mut port, 99);
    assert_eq!(input.camera_yaw(&mut port), 99);
    let mut last = input.fling_seq(&mut port);
    input.bump_fling(&mut port, 7, 8);
    assert_eq!(input.poll_fling(&mut port, &mut last), Some((7, 8)));
    assert_eq!(input.poll_fling(&mut port, &mut last), None);
    let all: Vec<u32> = (0..6).map(|i| port.load(i, Order::Relaxed)).collect();
    assert_eq!(all, vec![4, 1, 99, 1, 7, 8]);
}

#[test]
fn drop_block_in_shared_memory() {
    let block = memory(BALLS_WORDS + 2);
    let mut port = Port::new(&block);
    let balls = BallsBlock { at: 2 };
    let mut last = 0;
    balls.request_drop(&mut port, 11, 12);
    assert_eq!(balls.poll_drop(&mut port, &mut last), Some((11, 12)));
    assert_eq!(balls.poll_drop(&mut port, &mut last), None);
    assert_eq!(balls.count(&mut port), 0);
    balls.seed_ball(&mut port, 0, 9, [1; 3], [2; 4]);
    assert_eq!(balls.count(&mut port), 1);
    assert_eq!(balls.slot(0), 6);
    assert_eq!(balls.slot(199) + RING_WORDS, BALLS_WORDS + 2);
    assert_eq!(read_latest(&mut port, balls.slot(0)), Some(([1; 3], [2; 4])));
    assert_eq!(read_step(&mut port, balls.slot(0), 8), Some(([1; 3], [2; 4])));
    balls.set_count(&mut port, 3);
    assert_eq!(balls.count(&mut port), 3);
}
