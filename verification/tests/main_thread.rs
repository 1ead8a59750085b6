use single_player_game_physics::blocks::{BallsBlock, MotionBlock};
use single_player_game_physics::boot::{
    boot, role_name, task_worker, worker_error, worker_role, Boot, Role,
};
use single_player_game_physics::main_thread::{
    backing, initial_scale, lines_to_drop, page_base, store_bool, stored_bool, AaToggles,
    MainAction, MainState, Overlay, StartScale,
};
use single_player_game_physics::protocol::{PhysicsInit, PhysicsMsg, QualityMsg, RenderMsg};
use single_player_game_physics::shared_pool::PoolBlock;
use single_player_game_physics::text::{contains, decimal_text, join, same, trim_end_slashes};

fn log(line: &str) -> MainAction {
    MainAction::Log(line.to_string())
}

fn status(line: &str) -> MainAction {
    MainAction::Status(line.to_string())
}

fn state() -> MainState {
    MainState::new(AaToggles::new(None, None), false, 77)
}

#[test]
fn stored_truth_values() {
    assert_eq!(stored_bool(None), None);
    assert_eq!(stored_bool(Some("true")), None);
    assert_eq!(stored_bool(Some("")), None);
    for v in [true, false] {
        assert_eq!(stored_bool(Some(store_bool(v))), Some(v));
    }
    assert_eq!(store_bool(true), "1");
}

#[test]
fn toggles_carry_the_pair() {
    let mut t = AaToggles::new(Some(false), None);
    assert_eq!(t, AaToggles { msaa: false, smaa: true });
    assert_eq!(t.set(true, true), QualityMsg::AntiAlias { msaa: true, smaa: true });
    let built = AaToggles { msaa: true, smaa: false };
    let both = QualityMsg::AntiAlias { msaa: true, smaa: true };
    assert_eq!(t.reconcile(built), Some(both));
    assert_eq!(t.set(false, false), QualityMsg::AntiAlias { msaa: true, smaa: false });
    assert_eq!(t.reconcile(built), None);
}

#[test]
fn scale_starts_from_the_users_choice() {
    assert_eq!(initial_scale(true, true), StartScale::Stored);
    assert_eq!(initial_scale(false, true), StartScale::Coarse);
    assert_eq!(initial_scale(false, false), StartScale::Native);
    assert_eq!(backing((0, 9000), 8192), (1, 8192));
    assert_eq!(backing((640, 480), 8192), (640, 480));
}

#[test]
fn progress_and_errors_are_shown() {
    let mut s = state();
    let msg = RenderMsg::Progress { message: "hello".to_string() };
    assert_eq!(s.on_render_msg(msg, false), vec![log("hello")]);
    let msg = RenderMsg::Error { message: "bad".to_string() };
    assert_eq!(
        s.on_render_msg(msg, false),
        vec![log("ERROR: bad"), status("render error: bad")]
    );
    assert_eq!(s.on_render_msg(RenderMsg::AaCompileDone, false), vec![]);
    assert_eq!(s, state());
}

#[test]
fn physics_is_spawned_with_the_input_block() {
    let mut s = state();
    let init = || PhysicsInit {
        colliders: vec![],
        spawn: [1, 2, 3],
        motion_ptr: 10,
        input_ptr: 0,
        balls_ptr: 20,
    };
    let actions = s.on_render_msg(RenderMsg::PhysicsInit(init()), false);
    let expected = PhysicsInit { input_ptr: 77, ..init() };
    assert_eq!(
        actions,
        vec![log("spawning physics worker…"), MainAction::SpawnPhysics(expected)]
    );
    assert_eq!(s.refs.motion, Some(MotionBlock { at: 10 }));
    assert_eq!(s.refs.balls, Some(BallsBlock { at: 20 }));
}

#[test]
fn ready_reconciles_only_where_needed() {
    let playing = "playing — roll · Space jump · click drops a ball · right-drag orbit";
    let mut s = state();
    assert_eq!(
        s.on_render_msg(RenderMsg::Ready, false),
        vec![
            log("first frames rendered — ready"),
            MainAction::LoadingDone,
            status(playing),
        ]
    );
    s.toggles.set(false, false);
    let actions = s.on_render_msg(RenderMsg::Ready, false);
    assert_eq!(actions.len(), 4);
    assert_eq!(
        actions[3],
        MainAction::PostQuality(QualityMsg::AntiAlias { msaa: true, smaa: false })
    );
}

#[test]
fn chosen_scale_is_kept_and_posted() {
    let mut s = state();
    assert_eq!(s.scale_chosen(), vec![MainAction::PostResize]);
    let mut expected = state();
    expected.user_pref = true;
    assert_eq!(s, expected);
}

#[test]
fn software_gpu_starts_lower() {
    let info = |is_fallback, max_texture_dim| RenderMsg::GpuInfo { is_fallback, max_texture_dim };
    let mut s = state();
    assert_eq!(
        s.on_render_msg(info(true, 4096), true),
        vec![
            MainAction::LowerScale,
            log("software GPU detected — starting at 50% resolution"),
            MainAction::PostResize,
        ]
    );
    assert_eq!(s.max_tex, 4096);
    assert_eq!(s.on_render_msg(info(true, 0), false), vec![MainAction::PostResize]);
    assert_eq!(s.max_tex, 1);
    assert_eq!(s.on_render_msg(info(false, 1), true), vec![MainAction::PostResize]);
    s.user_pref = true;
    assert_eq!(s.on_render_msg(info(true, 1), true), vec![MainAction::PostResize]);
}

#[test]
fn task_workers_are_numbered_from_one() {
    let mut s = state();
    let actions = s.on_physics_msg(PhysicsMsg::SpawnTaskWorkers { pool: 9, count: 2 });
    assert_eq!(
        actions,
        vec![
            log("spawning 2 physics task-pool workers…"),
            MainAction::SpawnTaskWorker { pool: 9, index: 1 },
            MainAction::SpawnTaskWorker { pool: 9, index: 2 },
        ]
    );
    assert_eq!(s.refs.pool, Some((PoolBlock { at: 9 }, 2)));
}

#[test]
fn log_keeps_its_tail() {
    assert_eq!(lines_to_drop(14), 0);
    assert_eq!(lines_to_drop(15), 1);
    assert_eq!(lines_to_drop(0), 0);
}

#[test]
fn overlay_closes_on_backdrop_and_escape() {
    let mut o = Overlay { open: true };
    o.clicked(false);
    o.key("a");
    assert!(o.open);
    o.clicked(true);
    assert!(!o.open);
    o.open = true;
    o.key("Escape");
    assert!(!o.open);
    o.open = true;
    o.close();
    assert!(!o.open);
}

#[test]
fn media_base_has_an_order() {
    let host = "https://host";
    assert_eq!(page_base(Some("http://a//"), Some("b"), host, "/"), "http://a");
    assert_eq!(page_base(Some(""), Some("http://b/"), host, "/"), "http://b");
    assert_eq!(page_base(None, Some(""), host, "/foo/bar/"), "https://host/foo/bar");
    assert_eq!(page_base(None, None, host, "/foo/index.html"), "https://host/foo");
    assert_eq!(page_base(None, None, "https://host/", "/"), "https://host");
    assert_eq!(page_base(None, None, host, "/foo//"), "https://host/foo");
    assert_eq!(page_base(None, None, host, "//"), "https://host");
    assert_eq!(page_base(None, None, host, "x"), "https://hostx");
}

#[test]
fn threads_need_isolation() {
    assert_eq!(boot(true, false, false), Boot::Wait);
    assert_eq!(boot(false, true, true), Boot::Start);
    assert_eq!(boot(false, false, true), Boot::Fatal);
    assert_eq!(boot(false, true, false), Boot::Fatal);
}

#[test]
fn roles_by_name() {
    for role in [Role::Render, Role::Physics, Role::PhysicsTask, Role::Unknown] {
        assert_eq!(worker_role(role_name(role)), role);
    }
    assert_eq!(worker_role("Render"), Role::Unknown);
    assert_eq!(task_worker(Some(5), Some(2)), Ok((5, 2)));
    assert_eq!(task_worker(Some(5), None), Ok((5, 0)));
    assert_eq!(task_worker(None, Some(2)), Err("physics-task: missing pool address"));
    assert_eq!(worker_error("boom", "a.js", 12), "worker error: boom (a.js:12)");
}

#[test]
fn text_pieces() {
    assert!(same("abc", "abc"));
    assert!(!same("abc", "abd"));
    assert!(!same("abc", "ab"));
    assert!(contains("North Wall", "Wall"));
    assert!(contains("Wall", "Wall"));
    assert!(!contains("Wal", "Wall"));
    assert!(!contains("wall", "Wall"));
    assert!(contains("x", ""));
    assert_eq!(trim_end_slashes("a/b///"), "a/b");
    assert_eq!(trim_end_slashes("///"), "");
    assert_eq!(join("a", "…b"), "a…b");
    assert_eq!(decimal_text(0), "0");
    assert_eq!(decimal_text(1234567890), "1234567890");
    assert_eq!(decimal_text(u64::MAX), u64::MAX.to_string());
}
