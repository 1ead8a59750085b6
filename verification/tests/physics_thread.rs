use single_player_game_physics::blocks::{
    BallsBlock, InputBlock, MotionBlock, BALLS_WORDS, MOTION_WORDS,
};
use single_player_game_physics::physics_thread::{
    ball_collider, create_shape, dropped_radius, has_escaped, has_mass, held_direction, intensity,
    pool_workers, publish_ball, publish_player, roll_speed, static_colliders, worker_count, CatchUp,
    Controls, DropOrder, Impact, Parting, ShapeKey, ShapePlan, Sim, Touch, DEFAULT_RADIUS,
    FALL_LIMIT, IMPACT_COOLDOWN, MAX_SUBSTEPS, PARITY_TICK, ROLL_EVERY, TELEMETRY_EVERY,
};
use single_player_game_physics::protocol::{
    ColliderInit, ColliderShapeMsg, ROLE_BALL, ROLE_FLOOR, ROLE_WALL,
};
use single_player_game_physics::shared::Port;
use single_player_game_physics::shared_ring::read_step;
use single_player_game_physics::words::SharedWords;

fn key(index1: i32) -> ShapeKey {
    ShapeKey { index1, world0: 1, generation: 2 }
}

fn collider(dynamic: bool, role: u8, shape: ColliderShapeMsg) -> ColliderInit {
    ColliderInit { shape, translation: [0; 3], rotation: [0; 4], dynamic, role }
}

#[test]
fn rates_follow_the_step_rate() {
    assert_eq!(MAX_SUBSTEPS, 24);
    assert_eq!(ROLL_EVERY, 12);
    assert_eq!(IMPACT_COOLDOWN, 31);
    assert_eq!(PARITY_TICK, 4800);
    assert_eq!(TELEMETRY_EVERY, 14400);
}

#[test]
fn pool_leaves_room_for_the_other_threads() {
    let sizes: Vec<u32> = [-1, 0, 3, 4, 6, 7, 64].iter().map(|h| pool_workers(*h)).collect();
    assert_eq!(sizes, vec![0, 0, 0, 1, 3, 4, 4]);
    assert_eq!(worker_count(4), 5);
    assert_eq!(worker_count(0), 1);
}

#[test]
fn ball_is_the_first_dynamic_collider() {
    let floor = collider(false, ROLE_FLOOR, ColliderShapeMsg::Cuboid { half_extents: [1; 3] });
    let ball = collider(true, ROLE_BALL, ColliderShapeMsg::Ball { radius: 9 });
    let other = collider(true, ROLE_BALL, ColliderShapeMsg::Ball { radius: 8 });
    let all = vec![floor, ball, other];
    assert_eq!(static_colliders(&all), vec![floor]);
    assert_eq!(ball_collider(&all), Ok(ball));
    assert_eq!(
        ball_collider(&vec![floor]),
        Err("physics: no dynamic collider (ball) in scene")
    );
    assert_eq!(dropped_radius(&ball), 9);
    assert_eq!(dropped_radius(&floor), DEFAULT_RADIUS);
    assert_eq!(f32::from_bits(DEFAULT_RADIUS), 0.5);
}

#[test]
fn shapes_are_planned_in_the_body_frame() {
    let h = 1.5f32.to_bits();
    let minus_h = (-1.5f32).to_bits();
    let double = 3.0f32.to_bits();
    assert_eq!(
        create_shape(&ColliderShapeMsg::Cuboid { half_extents: [1, 2, 3] }),
        ShapePlan::BoxHull { x: 1, y: 2, z: 3 }
    );
    assert_eq!(
        create_shape(&ColliderShapeMsg::Ball { radius: 4 }),
        ShapePlan::Sphere { center: [0; 3], radius: 4 }
    );
    assert_eq!(
        create_shape(&ColliderShapeMsg::Capsule { half_height: h, radius: 5 }),
        ShapePlan::Capsule { center1: [0, minus_h, 0], center2: [0, h, 0], radius: 5 }
    );
    assert_eq!(
        create_shape(&ColliderShapeMsg::Cylinder { half_height: h, radius: 5 }),
        ShapePlan::Cylinder { height: double, radius: 5, y_offset: minus_h, sides: 16 }
    );
    assert_eq!(
        create_shape(&ColliderShapeMsg::Cone { half_height: h, radius: 5 }),
        ShapePlan::Cone { height: double, radius: 5, sides: 16 }
    );
}

#[test]
fn mass_has_to_be_finite_and_positive() {
    assert!(has_mass(0.25f32.to_bits()));
    for bad in [0.0f32, -0.0, -1.0, f32::INFINITY, f32::NEG_INFINITY, f32::NAN] {
        assert!(!has_mass(bad.to_bits()));
    }
}

#[test]
fn frame_stops_at_the_cap() {
    let mut c = CatchUp::new();
    let mut steps = 0;
    while c.next_step(true) {
        steps += 1;
    }
    assert_eq!(steps, 24);
    assert!(c.drops_backlog());
    let mut c = CatchUp::new();
    assert!(c.next_step(true));
    assert!(!c.next_step(false));
    assert!(!c.drops_backlog());
}

#[test]
fn keys_ask_for_directions() {
    assert_eq!(held_direction(0), (0, 0));
    assert_eq!(held_direction(1), (0, -1));
    assert_eq!(held_direction(2), (0, 1));
    assert_eq!(held_direction(4), (-1, 0));
    assert_eq!(held_direction(9), (1, -1));
    assert_eq!(held_direction(15), (0, 0));
    assert_eq!(held_direction(16), (0, 0));
}

#[test]
fn escape_and_loudness() {
    assert_eq!(f32::from_bits(FALL_LIMIT), -2.0);
    assert!(has_escaped((-2.5f32).to_bits()));
    assert!(!has_escaped((-2.0f32).to_bits()));
    assert!(!has_escaped(0.0f32.to_bits()));
    assert!(!has_escaped(f32::NAN.to_bits()));
    assert_eq!(f32::from_bits(intensity(0.01f32.to_bits())), 0.12);
    assert_eq!(f32::from_bits(intensity(0.5f32.to_bits())), 0.5);
    assert_eq!(f32::from_bits(intensity(7.0f32.to_bits())), 1.0);
    assert_eq!(f32::from_bits(roll_speed(true, 0.5f32.to_bits())), 0.5);
    assert_eq!(f32::from_bits(roll_speed(true, 3.0f32.to_bits())), 1.0);
    assert_eq!(f32::from_bits(roll_speed(true, 0.03f32.to_bits())), 0.0);
    assert_eq!(f32::from_bits(roll_speed(true, 0.04f32.to_bits())), 0.04);
    assert_eq!(f32::from_bits(roll_speed(false, 0.5f32.to_bits())), 0.0);
}

#[test]
fn balls_run_out() {
    let mut sim = Sim::new(key(1), 0, 0);
    assert_eq!(sim.order_drop(None), DropOrder::Nothing);
    for i in 0..200 {
        assert_eq!(sim.order_drop(Some((1, 2))), DropOrder::Spawn { index: i, x: 1, z: 2 });
    }
    assert_eq!(sim.order_drop(Some((1, 2))), DropOrder::Ignored);
    assert_eq!(sim.dropped, 200);
}

#[test]
fn drop_requests_are_polled_from_the_block() {
    let block = SharedWords::new(&vec![0u32; BALLS_WORDS]);
    let mut port = Port::new(&block);
    let balls = BallsBlock { at: 0 };
    let mut sim = Sim::new(key(1), 0, 0);
    assert_eq!(sim.poll_drop(&mut port, &balls), DropOrder::Nothing);
    balls.request_drop(&mut port, 3, 4);
    assert_eq!(sim.poll_drop(&mut port, &balls), DropOrder::Spawn { index: 0, x: 3, z: 4 });
    assert_eq!(sim.poll_drop(&mut port, &balls), DropOrder::Nothing);
}

#[test]
fn input_is_polled_from_the_block() {
    let block = SharedWords::new(&vec![0u32; 6]);
    let mut port = Port::new(&block);
    let input = InputBlock { at: 0 };
    let mut sim = Sim::new(key(1), 0, 0);
    let still = Controls { roll: None, jump: false, fling: None };
    assert_eq!(sim.poll_input(&mut port, &input), still);
    input.set_camera_yaw(&mut port, 77);
    input.set_held(&mut port, 1, true);
    input.bump_jump(&mut port);
    input.bump_jump(&mut port);
    input.bump_fling(&mut port, 5, 6);
    assert_eq!(
        sim.poll_input(&mut port, &input),
        Controls { roll: Some((0, -1, 77)), jump: true, fling: Some((5, 6, 77)) }
    );
    assert_eq!(
        sim.poll_input(&mut port, &input),
        Controls { roll: Some((0, -1, 77)), jump: false, fling: None }
    );
    input.set_held(&mut port, 2, true);
    assert_eq!(sim.poll_input(&mut port, &input), still);
    assert_eq!(sim.control(8, 2, None, 3, 4).roll, Some((1, 0, 3)));
}

#[test]
fn press_is_one_hop() {
    let mut sim = Sim::new(key(1), u32::MAX, 0);
    assert!(sim.control(0, 1, None, 0, 0).jump);
    assert!(!sim.control(0, 1, None, 0, 0).jump);
    assert!(sim.control(0, 2, None, 0, 0).jump);
}

#[test]
fn contacts_tell_whether_the_ball_is_grounded() {
    let mut sim = Sim::new(key(1), 0, 0);
    assert!(!sim.grounded());
    let wall = Touch { a: key(1), b: key(5), role_a: ROLE_BALL, role_b: ROLE_WALL };
    let floor = Touch { a: key(6), b: key(1), role_a: ROLE_FLOOR, role_b: ROLE_BALL };
    let foreign = Touch { a: key(7), b: key(8), role_a: ROLE_FLOOR, role_b: ROLE_FLOOR };
    sim.note_contacts(&vec![wall, foreign], &vec![]);
    assert_eq!(sim.contacts.len(), 1);
    assert!(!sim.grounded());
    sim.note_contacts(&vec![floor], &vec![]);
    assert_eq!(sim.contacts.get(&6), Some(&ROLE_FLOOR));
    assert!(sim.grounded());
    sim.note_contacts(&vec![floor], &vec![Parting { a: key(1), b: key(6) }]);
    assert!(!sim.grounded());
    sim.note_contacts(&vec![], &vec![Parting { a: key(5), b: key(1) }]);
    assert!(sim.contacts.is_empty());
    sim.note_contacts(&vec![floor], &vec![]);
    sim.respawn();
    assert!(sim.contacts.is_empty());
}

#[test]
fn impacts_sound_once_per_cooldown_and_kind() {
    let mut sim = Sim::new(key(1), 0, 0);
    for _ in 0..30 {
        sim.begin_step();
    }
    assert_eq!(sim.hit(ROLE_BALL, ROLE_WALL), None);
    assert_eq!(sim.begin_step(), 31);
    assert_eq!(sim.hit(ROLE_BALL, ROLE_WALL), Some(Impact::WallHit));
    assert_eq!(sim.hit(ROLE_WALL, ROLE_BALL), None);
    assert_eq!(sim.hit(ROLE_FLOOR, ROLE_BALL), Some(Impact::Land));
    assert_eq!(sim.hit(ROLE_FLOOR, ROLE_BALL), None);
    assert_eq!(sim.hit(ROLE_BALL, ROLE_BALL), Some(Impact::BallClack));
    assert_eq!(sim.hit(ROLE_BALL, ROLE_BALL), None);
    assert_eq!(sim.hit(ROLE_FLOOR, ROLE_WALL), None);
    for _ in 0..31 {
        sim.begin_step();
    }
    assert_eq!(sim.hit(ROLE_FLOOR, ROLE_WALL), Some(Impact::WallHit));
}

#[test]
fn cues_come_at_their_ticks() {
    let mut sim = Sim::new(key(1), 0, 0);
    let mut rolls = 0;
    let mut reports = 0;
    let mut parities = 0;
    for _ in 0..14400 {
        sim.begin_step();
        rolls += sim.roll_due() as u32;
        reports += sim.telemetry_due(1) as u32;
        parities += sim.parity_due() as u32;
    }
    assert_eq!((rolls, reports, parities), (1200, 1, 1));
    assert!(!sim.telemetry_due(0));
}

#[test]
fn put_back_balls_are_published_as_snaps() {
    let block = SharedWords::new(&vec![0u32; MOTION_WORDS + BALLS_WORDS]);
    let mut port = Port::new(&block);
    let motion = MotionBlock { at: 0 };
    let balls = BallsBlock { at: MOTION_WORDS };
    publish_player(&mut port, &motion, 5, false, [1; 3], [1; 4]);
    assert_eq!(motion.read_step(&mut port, 4), None);
    publish_player(&mut port, &motion, 6, true, [2; 3], [2; 4]);
    assert_eq!(motion.read_step(&mut port, 5), Some(([2; 3], [2; 4])));
    publish_ball(&mut port, &balls, 3, 5, false, [3; 3], [3; 4]);
    assert_eq!(read_step(&mut port, balls.slot(3), 5), Some(([3; 3], [3; 4])));
    publish_ball(&mut port, &balls, 3, 6, true, [4; 3], [4; 4]);
    assert_eq!(read_step(&mut port, balls.slot(3), 5), Some(([4; 3], [4; 4])));
}
