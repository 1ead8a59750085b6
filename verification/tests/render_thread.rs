use single_player_game_physics::pose_ring::PoseRing;
use single_player_game_physics::protocol::{
    CameraMsg, ColliderInit, ColliderShapeMsg, DropMsg, QualityMsg, RenderMsg, ResizeMsg,
};
use single_player_game_physics::render_thread::{
    aa_config, ball_radius, basis_urls, bundle_base, drop_point, gpu_info, next_to_mint,
    physics_init, player_variant, render_input, renderer_ready_line, sample_ring, scene_load_error,
    scene_url, AaConfig, FrameAction, FrameClock, FrameGate, InputAction, ProgressFilter,
    RenderInput, Sample, SyncStats, TableHit,
};

#[test]
fn frame_blends_two_steps_or_holds_the_newest() {
    let mut ring = PoseRing::new([0; 3], [0; 4]);
    for step in 1..=40u32 {
        ring.publish(step, [step; 3], [step; 4]);
    }
    let pose = |n: u32| ([n; 3], [n; 4]);
    assert_eq!(sample_ring(&ring, 10), Sample::Between { from: pose(10), to: pose(11) });
    assert_eq!(sample_ring(&ring, 39), Sample::Between { from: pose(39), to: pose(40) });
    assert_eq!(sample_ring(&ring, 40), Sample::Newest { pose: pose(40) });
    assert_eq!(sample_ring(&ring, 3), Sample::Newest { pose: pose(40) });
}

#[test]
fn sync_report_every_sixty_frames() {
    let mut stats = SyncStats::default();
    for i in 0..59u32 {
        let steps = if i < 30 { 4 } else if i < 58 { 3 } else { 25 };
        assert_eq!(stats.record(steps, (i as f32 - 30.0).to_bits()), None);
    }
    let report = stats.record(4, 0.5f32.to_bits()).unwrap();
    assert_eq!(report.histogram, "3:28 4:31 10:1");
    assert_eq!(f32::from_bits(report.err_min), -30.0);
    assert_eq!(f32::from_bits(report.err_max), 28.0);
    assert_eq!(stats, SyncStats::new());
}

#[test]
fn frames_wait_for_a_change() {
    let mut gate = FrameGate::new();
    assert_eq!(gate.next_frame(), FrameAction::Render);
    gate.request(true, true);
    gate.request(false, true);
    assert_eq!(gate.next_frame(), FrameAction::Reconfigure { msaa: false, smaa: true });
    assert_eq!(gate.next_frame(), FrameAction::Skip);
    gate.request(true, false);
    assert_eq!(gate.next_frame(), FrameAction::Skip);
    gate.reconfigured();
    assert_eq!(gate.next_frame(), FrameAction::Reconfigure { msaa: true, smaa: false });
    gate.reconfigured();
    assert_eq!(gate.next_frame(), FrameAction::Render);
}

#[test]
fn progress_is_not_repeated() {
    let mut f = ProgressFilter::new(true);
    assert!(!f.passes(""));
    assert!(f.passes("Fetching 1/9"));
    assert!(!f.passes("Fetching 1/9"));
    assert!(!f.passes("Commit 0/0"));
    assert!(!f.passes("Fetching 1/9"));
    assert!(f.passes("Fetching 2/9"));
    let mut all = ProgressFilter::new(false);
    assert!(all.passes("Commit 0/0"));
    assert!(!all.passes("Commit 0/0"));
}

#[test]
fn anti_aliasing_settings() {
    assert_eq!(
        aa_config((true, false)),
        AaConfig { msaa_sample_count: Some(4), smaa: false, mipmap: true }
    );
    assert_eq!(
        aa_config((false, true)),
        AaConfig { msaa_sample_count: None, smaa: true, mipmap: true }
    );
}

#[test]
fn gpu_facts_have_defaults() {
    assert_eq!(
        gpu_info(Some((true, 4096))),
        RenderMsg::GpuInfo { is_fallback: true, max_texture_dim: 4096 }
    );
    assert_eq!(
        gpu_info(None),
        RenderMsg::GpuInfo { is_fallback: false, max_texture_dim: 8192 }
    );
}

#[test]
fn dropped_ball_has_the_players_radius() {
    let c = |dynamic: bool, shape: ColliderShapeMsg| ColliderInit {
        shape,
        translation: [0; 3],
        rotation: [0; 4],
        dynamic,
        role: 0,
    };
    let fixed = c(false, ColliderShapeMsg::Ball { radius: 1 });
    let cone = c(true, ColliderShapeMsg::Cone { half_height: 1, radius: 2 });
    let ball = c(true, ColliderShapeMsg::Ball { radius: 7 });
    assert_eq!(ball_radius(&vec![fixed, ball, cone]), 7);
    assert_eq!(ball_radius(&vec![fixed, cone, ball]), 0.5f32.to_bits());
    assert_eq!(ball_radius(&vec![fixed]), 0.5f32.to_bits());
    let init = physics_init(vec![fixed], [1, 2, 3], 40, 50);
    assert_eq!((init.motion_ptr, init.input_ptr, init.balls_ptr), (40, 0, 50));
    assert_eq!(init.spawn, [1, 2, 3]);
    assert_eq!(init.colliders, vec![fixed]);
}

#[test]
fn messages_become_actions() {
    let floor = Some(([1; 3], [2; 3]));
    let quality = RenderInput::Quality(QualityMsg::AntiAlias { msaa: true, smaa: false });
    assert_eq!(
        render_input(quality, floor),
        InputAction::SetAntiAlias { msaa: true, smaa: false }
    );
    let resize = |width, height| RenderInput::Resize(ResizeMsg::Canvas { width, height });
    assert_eq!(
        render_input(resize(3, 4), floor),
        InputAction::SetCanvas { width: 3, height: 4 }
    );
    assert_eq!(render_input(resize(0, 4), floor), InputAction::Nothing);
    assert_eq!(render_input(resize(3, 0), floor), InputAction::Nothing);
    let click = RenderInput::Drop(DropMsg::Ball { ndc_x: 5, ndc_y: 6 });
    assert_eq!(
        render_input(click, floor),
        InputAction::Unproject { ndc_x: 5, ndc_y: 6, half_extents: [1; 3], translation: [2; 3] }
    );
    assert_eq!(render_input(click, None), InputAction::Nothing);
    let orbit = RenderInput::Camera(CameraMsg::Orbit { dx: 1, dy: 2 });
    assert_eq!(render_input(orbit, None), InputAction::Orbit { dx: 1, dy: 2 });
    let zoom = RenderInput::Camera(CameraMsg::Zoom { dy: 3 });
    assert_eq!(render_input(zoom, None), InputAction::Zoom { dy: 3 });
    assert_eq!(render_input(RenderInput::Unknown, floor), InputAction::Nothing);
}

fn hit(dir_y: f32, t: f32, x: f32, z: f32) -> TableHit {
    TableHit {
        dir_y: dir_y.to_bits(),
        t: t.to_bits(),
        x: x.to_bits(),
        z: z.to_bits(),
        x_range: ((-3.0f32).to_bits(), 3.0f32.to_bits()),
        z_range: ((-2.0f32).to_bits(), 2.0f32.to_bits()),
    }
}

#[test]
fn clicks_drop_inside_the_rails() {
    let at = |h: TableHit| drop_point(&h).map(|(x, z)| (f32::from_bits(x), f32::from_bits(z)));
    assert_eq!(at(hit(-0.5, 4.0, 1.0, -1.5)), Some((1.0, -1.5)));
    assert_eq!(at(hit(-0.5, 4.0, 9.0, -9.0)), Some((3.0, -2.0)));
    assert_eq!(at(hit(0.5e-6, 4.0, 1.0, 1.0)), None);
    assert_eq!(at(hit(-0.5e-6, 4.0, 1.0, 1.0)), None);
    assert_eq!(at(hit(-0.5, 0.0, 1.0, 1.0)), None);
    assert_eq!(at(hit(-0.5, -1.0, 1.0, 1.0)), None);
    assert_eq!(at(hit(1e-6, 4.0, 1.0, 1.0)), Some((1.0, 1.0)));
    assert!(hit(-0.5, 4.0, 1.0, 1.0).is_usable());
    assert!(!hit(-0.5, -0.0, 1.0, 1.0).is_usable());
}

#[test]
fn player_variant_is_found_by_name() {
    let names = |n: &[&str]| n.iter().map(|s| s.to_string()).collect::<Vec<String>>();
    assert_eq!(player_variant(&names(&["a", "Ball_Player_Red", "Ball_Player_Red"])), Some(1));
    assert_eq!(player_variant(&names(&["Ball_Player_red"])), None);
    assert_eq!(next_to_mint(2, 3), Some(2));
    assert_eq!(next_to_mint(3, 3), None);
}

#[test]
fn third_frame_is_ready() {
    let mut clock = FrameClock::new();
    assert_eq!(clock.steps_since(4), 4);
    assert_eq!(clock.steps_since(9), 5);
    clock.last_step = u32::MAX;
    assert_eq!(clock.steps_since(1), 2);
    let ready: Vec<bool> = (0..5).map(|_| clock.presented()).collect();
    assert_eq!(ready, vec![false, false, true, false, false]);
}

#[test]
fn urls_and_lines() {
    assert_eq!(bundle_base("https://host//"), "https://host/bundle");
    assert_eq!(scene_url("https://host/bundle"), "https://host/bundle/scene.toml");
    let (worker, transcoder) = basis_urls("https://host/app/");
    assert_eq!(worker, "https://host/app/workers/basis-worker.js");
    assert_eq!(transcoder, "https://host/app/vendor/basis/basis_transcoder.js");
    assert_eq!(scene_load_error("u", "parse: x"), "load scene u: parse: x");
    assert_eq!(
        renderer_ready_line((true, false)),
        "render worker: WebGPU device + renderer ready (msaa true, smaa false)"
    );
}
