use single_player_game_physics::pose_ring::{PoseRing, PoseSlot, POSE_RING};

fn pose(n: u32) -> ([u32; 3], [u32; 4]) {
    ([n, n + 1, n + 2], [n + 3, n + 4, n + 5, n + 6])
}

#[test]
fn seeded_ring_reads_its_resting_pose() {
    let ring = PoseRing::new([1, 2, 3], [4, 5, 6, 7]);
    assert_eq!(ring.latest_step(), 0);
    assert_eq!(ring.read_latest(), ([1, 2, 3], [4, 5, 6, 7]));
    assert_eq!(ring.read_step(0), Some(([1, 2, 3], [4, 5, 6, 7])));
    assert_eq!(ring.read_step(1), None);
    for step in [2, 31, 32, 63, u32::MAX - 1, u32::MAX] {
        assert_eq!(ring.read_step(step), None);
    }
}

#[test]
fn slot_tells_steps_apart() {
    let mut slot = PoseSlot::new(31);
    assert_eq!(slot.read(0), None);
    slot.write(7, [1, 2, 3], [4, 5, 6, 7]);
    assert_eq!(slot.version, 2);
    assert_eq!(slot.read(7), Some(([1, 2, 3], [4, 5, 6, 7])));
    assert_eq!(slot.read(8), None);
    slot.version = 3;
    assert_eq!(slot.read(7), None);
}

#[test]
fn published_pose_is_read_back() {
    let mut ring = PoseRing::new([0; 3], [0; 4]);
    let (p, q) = pose(10);
    ring.publish(5, p, q);
    assert_eq!(ring.latest_step(), 5);
    assert_eq!(ring.read_step(5), Some((p, q)));
    assert_eq!(ring.read_step(4), None);
    // The slot of step 0 is not that of step 5, so its pose is still there.
    assert_eq!(ring.read_step(0), Some(([0; 3], [0; 4])));
    ring.publish(32, p, q);
    assert_eq!(ring.read_step(0), None);
}

#[test]
fn snap_stands_for_both_steps() {
    let mut ring = PoseRing::new([0; 3], [0; 4]);
    for step in 1..=9 {
        let (p, q) = pose(step);
        ring.publish(step, p, q);
    }
    let (p, q) = pose(500);
    ring.publish_snap(10, p, q);
    assert_eq!(ring.latest_step(), 10);
    assert_eq!(ring.read_step(9), Some((p, q)));
    assert_eq!(ring.read_step(10), Some((p, q)));
    assert_eq!(ring.read_step(8), Some(pose(8)));
    ring.publish_snap(0, p, q);
    assert_eq!(ring.read_step(u32::MAX), Some((p, q)));
}

#[test]
fn ring_keeps_the_last_poses_only() {
    let mut ring = PoseRing::new([0; 3], [0; 4]);
    let n = 100u32;
    for step in 0..n {
        let (p, q) = pose(step * 10);
        ring.publish(step, p, q);
    }
    for step in 0..n {
        let read = ring.read_step(step);
        if step + POSE_RING as u32 >= n {
            assert_eq!(read, Some(pose(step * 10)));
        } else {
            assert_eq!(read, None);
        }
    }
    assert_eq!(ring.read_latest(), pose(990));
}

#[test]
fn ring_survives_the_wrap_of_the_step_counter() {
    let mut ring = PoseRing::new([0; 3], [0; 4]);
    let first = u32::MAX - 20;
    for i in 0..40u32 {
        let (p, q) = pose(i);
        ring.publish(first.wrapping_add(i), p, q);
    }
    for i in 8..40u32 {
        assert_eq!(ring.read_step(first.wrapping_add(i)), Some(pose(i)));
    }
    assert_eq!(ring.latest_step(), first.wrapping_add(39));
}
