use single_player_game_physics::blocks::InputBlock;
use single_player_game_physics::controls::{
    key_down, key_mask, key_press, key_up, steer, stop_rolling, Finger, KeyPress, Motion, Pointer,
    Stick, MOVE_MASK,
};
use single_player_game_physics::shared::Port;
use single_player_game_physics::words::SharedWords;

#[test]
fn keys_drive_their_bits() {
    for (keys, mask) in [
        (["w", "W", "ArrowUp"], 1),
        (["s", "S", "ArrowDown"], 2),
        (["a", "A", "ArrowLeft"], 4),
        (["d", "D", "ArrowRight"], 8),
    ] {
        for key in keys {
            assert_eq!(key_mask(key), Some(mask));
            assert_eq!(key_press(key, true), KeyPress::Hold(mask));
        }
    }
    assert_eq!(key_mask("q"), None);
    assert_eq!(key_mask(""), None);
    assert_eq!(key_press("Escape", false), KeyPress::Ignore);
    assert_eq!(key_press(" ", false), KeyPress::Jump);
    assert_eq!(key_press("Spacebar", true), KeyPress::Swallow);
}

#[test]
fn keyboard_writes_the_input_block() {
    let block = SharedWords::new(&vec![0u32; 6]);
    let mut port = Port::new(&block);
    let input = InputBlock { at: 0 };
    assert!(!key_down(&mut port, &input, "w", false));
    assert!(!key_down(&mut port, &input, "ArrowRight", false));
    assert_eq!(input.held(&mut port), 9);
    key_up(&mut port, &input, "W");
    key_up(&mut port, &input, "x");
    assert_eq!(input.held(&mut port), 8);
    assert!(key_down(&mut port, &input, " ", false));
    assert!(key_down(&mut port, &input, " ", true));
    assert!(!key_down(&mut port, &input, "x", false));
    assert_eq!(input.jump_seq(&mut port), 1);
}

#[test]
fn orbit_button_drags() {
    let mut p = Pointer::new();
    p.down(0, false, 1, 0, 0);
    assert_eq!(p.moved(1, 5, 5), Motion::Nothing);
    p.down(2, false, 1, 0, 0);
    assert_eq!(p.moved(1, 5, 5), Motion::Orbit);
    assert!(!p.up(1));
    assert_eq!(p.moved(1, 5, 5), Motion::Nothing);
}

#[test]
fn first_finger_steers() {
    let mut p = Pointer::new();
    p.down(0, true, 7, 100, 100);
    assert_eq!(p.touch, Some(Finger { id: 7, x: 100, y: 100 }));
    let none = Stick { forward: false, back: false, left: false, right: false };
    assert_eq!(p.moved(7, 114, 86), Motion::Steer(none));
    let stick = Stick { forward: true, back: false, left: false, right: true };
    assert_eq!(p.moved(7, 115, 85), Motion::Steer(stick));
    let stick = Stick { forward: false, back: true, left: true, right: false };
    assert_eq!(p.moved(7, i32::MIN, i32::MAX), Motion::Steer(stick));
    // A second finger changes nothing.
    p.down(0, true, 8, 0, 0);
    assert_eq!(p.moved(8, 500, 500), Motion::Nothing);
    assert!(!p.up(8));
    assert_eq!(p.touch, Some(Finger { id: 7, x: 100, y: 100 }));
    assert!(p.up(7));
    assert_eq!(p, Pointer::new());
}

#[test]
fn steering_writes_the_movement_bits() {
    let block = SharedWords::new(&vec![0u32; 6]);
    let mut port = Port::new(&block);
    let input = InputBlock { at: 0 };
    input.set_held(&mut port, 16 | 2, true);
    steer(&mut port, &input, Stick { forward: true, back: false, left: false, right: true });
    assert_eq!(input.held(&mut port), 16 | 9);
    stop_rolling(&mut port, &input);
    assert_eq!(input.held(&mut port), 16);
    assert_eq!(MOVE_MASK, 15);
}
