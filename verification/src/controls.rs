//! Keyboard, pointer and touch: what the user's gestures mean.

use vstd::prelude::*;

use crate::blocks::InputBlock;
use crate::input_state::{HELD_BACK, HELD_FORWARD, HELD_LEFT, HELD_RIGHT};
use crate::shared::Port;
use crate::text::same;

verus! {

/// All movement bits.
pub const MOVE_MASK: u32 = 15;

/// How far, in pixels, a finger has to move along an axis before it steers: what is less is a tap.
pub const DEAD_ZONE: i64 = 14;

/// The button that orbits the camera.
pub const ORBIT_BUTTON: i16 = 2;

/// The movement bit that a key drives: `w`, `s`, `a`, `d` in either case, and the arrows.
pub open spec fn mask_of(key: Seq<char>) -> Option<u32> {
    if key == "w"@ || key == "W"@ || key == "ArrowUp"@ {
        Some(HELD_FORWARD)
    } else if key == "s"@ || key == "S"@ || key == "ArrowDown"@ {
        Some(HELD_BACK)
    } else if key == "a"@ || key == "A"@ || key == "ArrowLeft"@ {
        Some(HELD_LEFT)
    } else if key == "d"@ || key == "D"@ || key == "ArrowRight"@ {
        Some(HELD_RIGHT)
    } else {
        None
    }
}

/// The movement bit that a key drives.
pub fn key_mask(key: &str) -> (mask: Option<u32>)
    ensures
        mask == mask_of(key@),
        mask == Some(1u32) <==> key@ == "w"@ || key@ == "W"@ || key@ == "ArrowUp"@,
        mask == Some(2u32) <==> key@ == "s"@ || key@ == "S"@ || key@ == "ArrowDown"@,
        mask == Some(4u32) <==> key@ == "a"@ || key@ == "A"@ || key@ == "ArrowLeft"@,
        mask == Some(8u32) <==> key@ == "d"@ || key@ == "D"@ || key@ == "ArrowRight"@,
        mask matches Some(bit) ==> bit == 1 || bit == 2 || bit == 4 || bit == 8,
{
    proof {
        keys_drive_their_bits(key@, false);
    }
    if same(key, "w") || same(key, "W") || same(key, "ArrowUp") {
        Some(HELD_FORWARD)
    } else if same(key, "s") || same(key, "S") || same(key, "ArrowDown") {
        Some(HELD_BACK)
    } else if same(key, "a") || same(key, "A") || same(key, "ArrowLeft") {
        Some(HELD_LEFT)
    } else if same(key, "d") || same(key, "D") || same(key, "ArrowRight") {
        Some(HELD_RIGHT)
    } else {
        None
    }
}

/// Each movement key drives the bit of its direction and no other key does, the jump keys drive
/// none, and one press of a jump key is one jump however long it is held: what a key press does does
/// not depend on anything else.
pub proof fn keys_drive_their_bits(key: Seq<char>, repeat: bool)
    ensures
        mask_of(key) == Some(1u32) <==> key == "w"@ || key == "W"@ || key == "ArrowUp"@,
        mask_of(key) == Some(2u32) <==> key == "s"@ || key == "S"@ || key == "ArrowDown"@,
        mask_of(key) == Some(4u32) <==> key == "a"@ || key == "A"@ || key == "ArrowLeft"@,
        mask_of(key) == Some(8u32) <==> key == "d"@ || key == "D"@ || key == "ArrowRight"@,
        mask_of(key) matches Some(bit) ==> bit == 1 || bit == 2 || bit == 4 || bit == 8,
        pressed(key, repeat) is Jump <==> !repeat && (key == " "@ || key == "Spacebar"@),
        pressed(key, repeat) is Swallow <==> repeat && (key == " "@ || key == "Spacebar"@),
        forall|bit: u32|
            pressed(key, repeat) == KeyPress::Hold(bit) <==> #[trigger] mask_of(key) == Some(bit),
        key == " "@ || key == "Spacebar"@ ==> mask_of(key) is None,
{
    reveal_strlit("w");
    reveal_strlit("W");
    reveal_strlit("ArrowUp");
    reveal_strlit("s");
    reveal_strlit("S");
    reveal_strlit("ArrowDown");
    reveal_strlit("a");
    reveal_strlit("A");
    reveal_strlit("ArrowLeft");
    reveal_strlit("d");
    reveal_strlit("D");
    reveal_strlit("ArrowRight");
    reveal_strlit(" ");
    reveal_strlit("Spacebar");
    assert("w"@[0] == 'w' && "W"@[0] == 'W' && "s"@[0] == 's' && "S"@[0] == 'S');
    assert("a"@[0] == 'a' && "A"@[0] == 'A' && "d"@[0] == 'd' && "D"@[0] == 'D');
    assert(" "@[0] == ' ');
    assert("ArrowDown"@[5] == 'D' && "ArrowLeft"@[5] == 'L');
    assert("w"@.len() == 1 && "W"@.len() == 1 && "s"@.len() == 1 && "S"@.len() == 1);
    assert("a"@.len() == 1 && "A"@.len() == 1 && "d"@.len() == 1 && "D"@.len() == 1);
    assert("ArrowUp"@.len() == 7 && "ArrowDown"@.len() == 9 && "ArrowLeft"@.len() == 9);
    assert("ArrowRight"@.len() == 10 && "Spacebar"@.len() == 8 && " "@.len() == 1);
}

/// What a key press does.
#[derive(Clone, Copy, Debug, PartialEq, Eq)]
pub enum KeyPress {
    /// Jump once.
    Jump,
    /// A jump key that repeats: nothing, but the page does not get to see it either.
    Swallow,
    /// Hold a movement bit.
    Hold(u32),
    Ignore,
}

/// The key jumps.
pub open spec fn is_jump(key: Seq<char>) -> bool {
    key == " "@ || key == "Spacebar"@
}

/// What a key press does: one press is one jump, however long it is held.
pub open spec fn pressed(key: Seq<char>, repeat: bool) -> KeyPress {
    if is_jump(key) {
        if repeat {
            KeyPress::Swallow
        } else {
            KeyPress::Jump
        }
    } else {
        match mask_of(key) {
            Some(mask) => KeyPress::Hold(mask),
            None => KeyPress::Ignore,
        }
    }
}

/// What a key press does.
pub fn key_press(key: &str, repeat: bool) -> (press: KeyPress)
    ensures
        press == pressed(key@, repeat),
        press is Jump <==> !repeat && (key@ == " "@ || key@ == "Spacebar"@),
        press is Swallow <==> repeat && (key@ == " "@ || key@ == "Spacebar"@),
        press matches KeyPress::Hold(bit) ==> mask_of(key@) == Some(bit),
        press is Ignore ==> mask_of(key@) is None,
{
    if same(key, " ") || same(key, "Spacebar") {
        if repeat {
            KeyPress::Swallow
        } else {
            KeyPress::Jump
        }
    } else {
        match key_mask(key) {
            Some(mask) => KeyPress::Hold(mask),
            None => KeyPress::Ignore,
        }
    }
}

/// A key went down. Writes what it means into the input block; whether the page's own handling is
/// to be kept off.
pub fn key_down(port: &mut Port, input: &InputBlock, key: &str, repeat: bool) -> (prevent: bool)
    requires
        input.fits(old(port).size()),
    ensures
        prevent == is_jump(key@),
        prevent <==> key@ == " "@ || key@ == "Spacebar"@,
        key_down_traced(*old(port), *final(port), *input, pressed(key@, repeat)),
        prevent && !repeat ==> exists|seen: u32|
            final(port).extends(
                *old(port),
                #[trigger] crate::blocks::one(crate::blocks::added(input.at + 1, 1, seen)),
            ),
        prevent && repeat ==> final(port).extends(*old(port), Seq::empty()),
        !prevent ==> match mask_of(key@) {
            Some(mask) => exists|seen: u32|
                final(port).extends(
                    *old(port),
                    seq![
                        #[trigger] crate::blocks::held_event(input.at as int, mask, true, seen),
                    ],
                ),
            None => final(port).extends(*old(port), Seq::empty()),
        },
{
    match key_press(key, repeat) {
        KeyPress::Jump => {
            input.bump_jump(port);
            true
        },
        KeyPress::Swallow => {
            assert(port.trace() =~= old(port).trace() + Seq::<crate::shared::Event>::empty());
            true
        },
        KeyPress::Hold(mask) => {
            input.set_held(port, mask, true);
            false
        },
        KeyPress::Ignore => {
            assert(port.trace() =~= old(port).trace() + Seq::<crate::shared::Event>::empty());
            false
        },
    }
}

/// The accesses that a key press makes.
pub open spec fn key_down_traced(
    before: Port,
    after: Port,
    input: InputBlock,
    press: KeyPress,
) -> bool {
    match press {
        KeyPress::Jump => exists|seen: u32|
            after.extends(
                before,
                #[trigger] crate::blocks::one(crate::blocks::added(input.at + 1, 1, seen)),
            ),
        KeyPress::Hold(mask) => held_traced(before, after, input, mask, true),
        _ => after.extends(before, Seq::empty()),
    }
}

/// The access that presses or releases movement bits.
pub open spec fn held_traced(
    before: Port,
    after: Port,
    input: InputBlock,
    mask: u32,
    down: bool,
) -> bool {
    exists|seen: u32|
        after.extends(
            before,
            #[trigger] crate::blocks::one(
                crate::blocks::held_event(input.at as int, mask, down, seen),
            ),
        )
}

/// A key went up: its movement bit is released.
pub fn key_up(port: &mut Port, input: &InputBlock, key: &str)
    requires
        input.fits(old(port).size()),
    ensures
        match mask_of(key@) {
            Some(mask) => held_traced(*old(port), *final(port), *input, mask, false),
            None => final(port).extends(*old(port), Seq::empty()),
        },
        mask_of(key@) matches Some(mask) ==> exists|seen: u32|
            final(port).extends(
                *old(port),
                seq![#[trigger] crate::blocks::held_event(input.at as int, mask, false, seen)],
            ),
{
    match key_mask(key) {
        Some(mask) => {
            input.set_held(port, mask, false);
        },
        None => {
            assert(port.trace() =~= old(port).trace() + Seq::<crate::shared::Event>::empty());
        },
    }
}

/// A finger that steers: its pointer and where it came down, in pixels.
#[derive(Clone, Copy, Debug, PartialEq, Eq)]
pub struct Finger {
    pub id: i32,
    pub x: i32,
    pub y: i32,
}

/// The pointer's state.
#[derive(Clone, Copy, Debug, PartialEq, Eq)]
pub struct Pointer {
    /// The orbit button is held.
    pub dragging: bool,
    /// The finger that steers.
    pub touch: Option<Finger>,
}

/// The directions that a steering finger asks for.
#[derive(Clone, Copy, Debug, PartialEq, Eq)]
pub struct Stick {
    pub forward: bool,
    pub back: bool,
    pub left: bool,
    pub right: bool,
}

/// What a pointer's movement means.
#[derive(Clone, Copy, Debug, PartialEq, Eq)]
pub enum Motion {
    /// Steer the ball.
    Steer(Stick),
    /// Orbit the camera.
    Orbit,
    Nothing,
}

/// The directions for a finger that moved from its start to `(x, y)`.
pub open spec fn stick(start: Finger, x: i32, y: i32) -> Stick {
    Stick {
        forward: y - start.y < -DEAD_ZONE,
        back: y - start.y > DEAD_ZONE,
        left: x - start.x < -DEAD_ZONE,
        right: x - start.x > DEAD_ZONE,
    }
}

impl Pointer {
    /// Nothing held, no finger down.
    pub fn new() -> (p: Pointer)
        ensures
            p == (Pointer { dragging: false, touch: None }),
    {
        Pointer { dragging: false, touch: None }
    }

    /// The state after a pointer came down: the orbit button begins a drag, the first finger
    /// begins to steer.
    pub open spec fn after_down(
        self,
        button: i16,
        is_touch: bool,
        id: i32,
        x: i32,
        y: i32,
    ) -> Pointer {
        Pointer {
            dragging: self.dragging || button == ORBIT_BUTTON,
            touch: if is_touch && self.touch is None {
                Some(Finger { id, x, y })
            } else {
                self.touch
            },
        }
    }

    /// The pointer is the finger that steers.
    pub open spec fn steers(self, id: i32) -> bool {
        self.touch matches Some(finger) && finger.id == id
    }

    /// The state after a pointer went up: no drag, and no steering finger if it was that one.
    pub open spec fn after_up(self, id: i32) -> Pointer {
        Pointer {
            dragging: false,
            touch: if self.steers(id) {
                None
            } else {
                self.touch
            },
        }
    }

    /// A pointer came down.
    pub fn down(&mut self, button: i16, is_touch: bool, id: i32, x: i32, y: i32)
        ensures
            *final(self) == old(self).after_down(button, is_touch, id, x, y),
            final(self).dragging == (old(self).dragging || button == 2),
            is_touch && old(self).touch is None ==> final(self).touch == Some(Finger { id, x, y }),
            !is_touch || old(self).touch is Some ==> final(self).touch == old(self).touch,
    {
        if button == ORBIT_BUTTON {
            self.dragging = true;
        }
        if is_touch && self.touch.is_none() {
            self.touch = Some(Finger { id, x, y });
        }
    }

    /// What the movement of a pointer to `(x, y)` means. While a finger steers, no other pointer
    /// means anything.
    pub open spec fn meaning(self, id: i32, x: i32, y: i32) -> Motion {
        match self.touch {
            Some(finger) => if finger.id == id {
                Motion::Steer(stick(finger, x, y))
            } else {
                Motion::Nothing
            },
            None => if self.dragging {
                Motion::Orbit
            } else {
                Motion::Nothing
            },
        }
    }

    /// What the movement of a pointer to `(x, y)` means.
    pub fn moved(&self, id: i32, x: i32, y: i32) -> (motion: Motion)
        ensures
            motion == self.meaning(id, x, y),
            self.touch matches Some(start) ==> start.id == id ==> {
                &&& motion is Steer
                &&& motion->Steer_0.right <==> x - start.x > 14
                &&& motion->Steer_0.left <==> x - start.x < -14
                &&& motion->Steer_0.back <==> y - start.y > 14
                &&& motion->Steer_0.forward <==> y - start.y < -14
            },
            self.touch matches Some(start) ==> start.id != id ==> motion is Nothing,
            self.touch is None ==> (motion is Orbit <==> self.dragging) && (motion is Nothing
                <==> !self.dragging),
    {
        match self.touch {
            Some(finger) => {
                if finger.id == id {
                    let dx: i64 = x as i64 - finger.x as i64;
                    let dy: i64 = y as i64 - finger.y as i64;
                    Motion::Steer(
                        Stick {
                            forward: dy < -DEAD_ZONE,
                            back: dy > DEAD_ZONE,
                            left: dx < -DEAD_ZONE,
                            right: dx > DEAD_ZONE,
                        },
                    )
                } else {
                    Motion::Nothing
                }
            },
            None => {
                if self.dragging {
                    Motion::Orbit
                } else {
                    Motion::Nothing
                }
            },
        }
    }

    /// A pointer went up, or was cancelled: the drag ends, and when it was the steering finger the
    /// ball stops rolling. Whether it was.
    pub fn up(&mut self, id: i32) -> (lifted: bool)
        ensures
            lifted == old(self).steers(id),
            *final(self) == old(self).after_up(id),
            lifted <==> (old(self).touch matches Some(finger) && finger.id == id),
            !final(self).dragging,
            final(self).touch == (if lifted {
                None
            } else {
                old(self).touch
            }),
    {
        self.dragging = false;
        match self.touch {
            Some(finger) => {
                if finger.id == id {
                    self.touch = None;
                    true
                } else {
                    false
                }
            },
            None => false,
        }
    }
}

/// Writes the steering directions into the input block, each its own bit.
pub fn steer(port: &mut Port, input: &InputBlock, stick: Stick)
    requires
        input.fits(old(port).size()),
    ensures
        exists|s: [u32; 4]|
            final(port).extends(*old(port), #[trigger] steer_events(input.at as int, stick, s)),
{
    let ghost at = input.at as int;
    input.set_held(port, HELD_FORWARD, stick.forward);
    let ghost p1 = *port;
    let ghost s0 = choose|seen: u32|
        p1.extends(
            *old(port),
            #[trigger] crate::blocks::one(
                crate::blocks::held_event(at, HELD_FORWARD, stick.forward, seen),
            ),
        );
    input.set_held(port, HELD_BACK, stick.back);
    let ghost p2 = *port;
    let ghost s1 = choose|seen: u32|
        p2.extends(
            p1,
            #[trigger] crate::blocks::one(
                crate::blocks::held_event(at, HELD_BACK, stick.back, seen),
            ),
        );
    input.set_held(port, HELD_LEFT, stick.left);
    let ghost p3 = *port;
    let ghost s2 = choose|seen: u32|
        p3.extends(
            p2,
            #[trigger] crate::blocks::one(
                crate::blocks::held_event(at, HELD_LEFT, stick.left, seen),
            ),
        );
    input.set_held(port, HELD_RIGHT, stick.right);
    proof {
        let s3 = choose|seen: u32|
            port.extends(
                p3,
                #[trigger] crate::blocks::one(
                    crate::blocks::held_event(at, HELD_RIGHT, stick.right, seen),
                ),
            );
        let s = [s0, s1, s2, s3];
        assert(port.trace() =~= old(port).trace() + steer_events(at, stick, s));
        assert(port.extends(*old(port), steer_events(at, stick, s)));
    }
}

/// The accesses that set the four directions; `seen` is what each of them found.
pub open spec fn steer_events(at: int, stick: Stick, seen: [u32; 4]) -> Seq<crate::shared::Event> {
    seq![
        crate::blocks::held_event(at, HELD_FORWARD, stick.forward, seen@[0]),
        crate::blocks::held_event(at, HELD_BACK, stick.back, seen@[1]),
        crate::blocks::held_event(at, HELD_LEFT, stick.left, seen@[2]),
        crate::blocks::held_event(at, HELD_RIGHT, stick.right, seen@[3]),
    ]
}

/// The steering finger was lifted: every movement bit is released.
pub fn stop_rolling(port: &mut Port, input: &InputBlock)
    requires
        input.fits(old(port).size()),
    ensures
        held_traced(*old(port), *final(port), *input, MOVE_MASK, false),
        exists|seen: u32|
            final(port).extends(
                *old(port),
                seq![#[trigger] crate::blocks::held_event(input.at as int, 15, false, seen)],
            ),
{
    input.set_held(port, MOVE_MASK, false);
}

/// The held bits after the stick was written.
pub open spec fn steered(held: u32, stick: Stick) -> u32 {
    let a = if stick.forward { held | HELD_FORWARD } else { held & !HELD_FORWARD };
    let b = if stick.back { a | HELD_BACK } else { a & !HELD_BACK };
    let c = if stick.left { b | HELD_LEFT } else { b & !HELD_LEFT };
    if stick.right { c | HELD_RIGHT } else { c & !HELD_RIGHT }
}

/// Steering writes the four movement bits and no other: each is set exactly when its direction is
/// asked for, whatever was held before.
pub proof fn steering_sets_its_bits(held: u32, stick: Stick)
    ensures
        steered(held, stick) & HELD_FORWARD != 0 <==> stick.forward,
        steered(held, stick) & HELD_BACK != 0 <==> stick.back,
        steered(held, stick) & HELD_LEFT != 0 <==> stick.left,
        steered(held, stick) & HELD_RIGHT != 0 <==> stick.right,
        steered(held, stick) & !MOVE_MASK == held & !MOVE_MASK,
{
    let f = stick.forward;
    let k = stick.back;
    let l = stick.left;
    let r = stick.right;
    let a = if f { held | 1u32 } else { held & !1u32 };
    let b = if k { a | 2u32 } else { a & !2u32 };
    let c = if l { b | 4u32 } else { b & !4u32 };
    let d = if r { c | 8u32 } else { c & !8u32 };
    assert(d == steered(held, stick));
    assert((d & 1u32 != 0 <==> f) && (d & 2u32 != 0 <==> k) && (d & 4u32 != 0 <==> l) && (d & 8u32
        != 0 <==> r) && d & !15u32 == held & !15u32) by (bit_vector)
        requires
            a == (if f { held | 1u32 } else { held & !1u32 }),
            b == (if k { a | 2u32 } else { a & !2u32 }),
            c == (if l { b | 4u32 } else { b & !4u32 }),
            d == (if r { c | 8u32 } else { c & !8u32 }),
    ;
}

/// What the four accesses of a steer that nothing interferes with leave in the block.
pub proof fn undisturbed_steer(
    mem: Seq<u32>,
    block: InputBlock,
    state: crate::input_state::InputState,
    stick: Stick,
    seen: [u32; 4],
)
    requires
        crate::blocks::holds_input(mem, block, state),
    ensures
        crate::blocks::holds_input(
            crate::shared::run(mem, steer_events(block.at as int, stick, seen)),
            block,
            (crate::input_state::InputState { held: steered(state.held, stick), ..state }),
        ),
{
    let at = block.at as int;
    let events = steer_events(at, stick, seen);
    let e0 = events[0];
    let one = seq![e0];
    let two = one.push(events[1]);
    let three = two.push(events[2]);
    assert(events =~= three.push(events[3]));
    crate::shared::run_of_one(mem, e0);
    crate::shared::run_push(mem, one, events[1]);
    crate::shared::run_push(mem, two, events[2]);
    crate::shared::run_push(mem, three, events[3]);
    let m1 = e0.applied(mem);
    let m2 = events[1].applied(m1);
    let m3 = events[2].applied(m2);
    assert(crate::shared::run(mem, events) == events[3].applied(m3));
}

/// After the steering finger was lifted no direction is asked for any more.
pub proof fn lifting_stops_the_roll(held: u32)
    ensures
        crate::physics_thread::axis(held & !MOVE_MASK, HELD_RIGHT, HELD_LEFT) == 0,
        crate::physics_thread::axis(held & !MOVE_MASK, HELD_BACK, HELD_FORWARD) == 0,
{
    assert(held & !15u32 & 1u32 == 0 && held & !15u32 & 2u32 == 0 && held & !15u32 & 4u32 == 0
        && held & !15u32 & 8u32 == 0) by (bit_vector);
}

/// A second finger can neither take over nor end a steer: as long as the first one is down, its
/// coming down, moving and going up leave the steering finger as it is and steer nothing.
pub proof fn second_finger_does_not_interfere(
    p: Pointer,
    finger: Finger,
    button: i16,
    id: i32,
    x: i32,
    y: i32,
)
    requires
        p.touch == Some(finger),
        id != finger.id,
    ensures
        p.after_down(button, true, id, x, y).touch == Some(finger),
        p.meaning(id, x, y) == Motion::Nothing,
        !p.steers(id),
        p.after_up(id).touch == Some(finger),
{
}

/// The first finger steers from where it came down until it is lifted: while it is down its moves
/// steer by how far it is from there, and after it was lifted, as after the orbit button was
/// released, no move means anything until something comes down again. A pointer that is no finger
/// never steers, and only the orbit button orbits.
pub proof fn gestures_begin_and_end(
    p: Pointer,
    button: i16,
    id: i32,
    x: i32,
    y: i32,
    x2: i32,
    y2: i32,
)
    requires
        p == (Pointer { dragging: false, touch: None }),
    ensures
        p.after_down(button, true, id, x, y).touch == Some(Finger { id, x, y }),
        ({
            let motion = p.after_down(button, true, id, x, y).meaning(id, x2, y2);
            &&& motion is Steer
            &&& motion->Steer_0.right <==> x2 - x > 14
            &&& motion->Steer_0.left <==> x2 - x < -14
            &&& motion->Steer_0.back <==> y2 - y > 14
            &&& motion->Steer_0.forward <==> y2 - y < -14
        }),
        p.after_down(button, true, id, x, y).steers(id),
        p.after_down(button, true, id, x, y).after_up(id) == p,
        p.after_down(button, false, id, x, y).touch is None,
        p.after_down(button, false, id, x, y).meaning(id, x2, y2) is Orbit <==> button == 2,
        p.after_down(button, false, id, x, y).meaning(id, x2, y2) is Nothing <==> button != 2,
        p.after_down(button, false, id, x, y).after_up(id) == p,
        p.meaning(id, x2, y2) is Nothing,
{
}

/// A finger steers along each axis on its own: to the right exactly when it moved more than the dead
/// zone of 14 pixels to the right of where it came down, to the left exactly when that far to the
/// left, back and forward likewise by how far it moved down and up. What it did along the other axis
/// does not matter, nor where it came down.
pub proof fn axes_steer_on_their_own(start: Finger, x: i32, y: i32, p: Pointer)
    ensures
        stick(start, x, y).right <==> x - start.x > 14,
        stick(start, x, y).left <==> x - start.x < -14,
        stick(start, x, y).back <==> y - start.y > 14,
        stick(start, x, y).forward <==> y - start.y < -14,
        forall|other: Finger, y2: i32|
            other.x == start.x ==> (#[trigger] stick(other, x, y2)).left == stick(start, x, y).left
                && stick(other, x, y2).right == stick(start, x, y).right,
        forall|other: Finger, x2: i32|
            other.y == start.y ==> (#[trigger] stick(other, x2, y)).forward == stick(
                start,
                x,
                y,
            ).forward && stick(other, x2, y).back == stick(start, x, y).back,
        p.touch == Some(start) ==> p.meaning(start.id, x, y) == Motion::Steer(stick(start, x, y)),
{
}

/// A finger that stays within the dead zone steers nowhere: it is a tap.
pub proof fn tap_does_not_steer(start: Finger, x: i32, y: i32)
    requires
        -DEAD_ZONE <= x - start.x <= DEAD_ZONE,
        -DEAD_ZONE <= y - start.y <= DEAD_ZONE,
    ensures
        stick(start, x, y) == (Stick { forward: false, back: false, left: false, right: false }),
{
}

/// A key that is pressed and released leaves nothing held: the bit that its release takes back is the
/// bit that its press set, whatever the key. A repeated press holds the same bit, and a jump key
/// holds none.
pub proof fn releases_take_back_presses(
    key: &str,
    press: KeyPress,
    again: KeyPress,
    mask: Option<u32>,
)
    requires
        call_ensures(key_press, (key, false), press),
        call_ensures(key_press, (key, true), again),
        call_ensures(key_mask, (key,), mask),
    ensures
        press matches KeyPress::Hold(bit) ==> mask == Some(bit) && again == KeyPress::Hold(bit),
        press is Jump <==> again is Swallow,
        press is Ignore <==> again is Ignore,
        mask matches Some(bit) ==> press == KeyPress::Hold(bit),
        press is Jump <==> key@ == " "@ || key@ == "Spacebar"@,
        press == KeyPress::Hold(1) <==> key@ == "w"@ || key@ == "W"@ || key@ == "ArrowUp"@,
        press == KeyPress::Hold(2) <==> key@ == "s"@ || key@ == "S"@ || key@ == "ArrowDown"@,
        press == KeyPress::Hold(4) <==> key@ == "a"@ || key@ == "A"@ || key@ == "ArrowLeft"@,
        press == KeyPress::Hold(8) <==> key@ == "d"@ || key@ == "D"@ || key@ == "ArrowRight"@,
{
    keys_drive_their_bits(key@, false);
}

/// A finger that moves the opposite way steers the opposite way, and how far it moves along one axis
/// says nothing about the other.
pub proof fn opposite_moves_steer_opposite_ways(
    p: Pointer,
    start: Finger,
    x: i32,
    y: i32,
    x2: i32,
    y2: i32,
    there: Motion,
    back: Motion,
)
    requires
        p.touch == Some(start),
        call_ensures(Pointer::moved, (&p, start.id, x, y), there),
        call_ensures(Pointer::moved, (&p, start.id, x2, y2), back),
    ensures
        there is Steer && back is Steer,
        x2 - start.x == start.x - x ==> there->Steer_0.left == back->Steer_0.right
            && there->Steer_0.right == back->Steer_0.left,
        y2 - start.y == start.y - y ==> there->Steer_0.forward == back->Steer_0.back
            && there->Steer_0.back == back->Steer_0.forward,
        x == x2 ==> there->Steer_0.left == back->Steer_0.left && there->Steer_0.right
            == back->Steer_0.right,
        y == y2 ==> there->Steer_0.forward == back->Steer_0.forward && there->Steer_0.back
            == back->Steer_0.back,
        there->Steer_0.right <==> x - start.x > 14,
        there->Steer_0.back <==> y - start.y > 14,
{
}

/// From coming down to going up: the first finger steers by how far it went, lifting it ends the
/// steer and says so, and what comes after means nothing.
pub proof fn fingers_steer_until_they_lift(
    down: &mut Pointer,
    up: &mut Pointer,
    id: i32,
    at: (i32, i32),
    x: i32,
    y: i32,
    during: Motion,
    lifted: bool,
    after: Motion,
)
    requires
        *old(down) == (Pointer { dragging: false, touch: None }),
        call_ensures(Pointer::down, (down, 0i16, true, id, at.0, at.1), ()),
        call_ensures(Pointer::moved, (&*final(down), id, x, y), during),
        *old(up) == *final(down),
        call_ensures(Pointer::up, (up, id), lifted),
        call_ensures(Pointer::moved, (&*final(up), id, x, y), after),
    ensures
        during is Steer,
        during->Steer_0.left <==> x - at.0 < -14,
        during->Steer_0.right <==> x - at.0 > 14,
        during->Steer_0.forward <==> y - at.1 < -14,
        during->Steer_0.back <==> y - at.1 > 14,
        lifted,
        after is Nothing,
        *final(up) == *old(down),
{
}

/// The orbit button drags from its press to the release of any pointer, and no other button does.
pub proof fn orbit_button_drags(
    down: &mut Pointer,
    up: &mut Pointer,
    button: i16,
    id: i32,
    x: i32,
    y: i32,
    during: Motion,
    lifted: bool,
    after: Motion,
)
    requires
        *old(down) == (Pointer { dragging: false, touch: None }),
        call_ensures(Pointer::down, (down, button, false, id, x, y), ()),
        call_ensures(Pointer::moved, (&*final(down), id, x, y), during),
        *old(up) == *final(down),
        call_ensures(Pointer::up, (up, id), lifted),
        call_ensures(Pointer::moved, (&*final(up), id, x, y), after),
    ensures
        during is Orbit <==> button == 2,
        during is Nothing <==> button != 2,
        !lifted,
        after is Nothing,
{
}

/// A press and then the release of a key, with nothing interfering, leave the block as it was but for
/// the key's own bit, which is not held any more; while it is down exactly that bit more is held.
pub proof fn undisturbed_key(
    mem: Seq<u32>,
    block: InputBlock,
    state: crate::input_state::InputState,
    key: Seq<char>,
    mask: u32,
    seen: u32,
    seen2: u32,
)
    requires
        crate::blocks::holds_input(mem, block, state),
        mask_of(key) == Some(mask),
    ensures
        ({
            let at = block.at as int;
            let down = crate::blocks::held_event(at, mask, true, seen).applied(mem);
            let up = crate::blocks::held_event(at, mask, false, seen2).applied(down);
            &&& crate::blocks::holds_input(
                down,
                block,
                (crate::input_state::InputState { held: state.held | mask, ..state }),
            )
            &&& crate::blocks::holds_input(
                up,
                block,
                (crate::input_state::InputState { held: state.held & !mask, ..state }),
            )
        }),
{
    let at = block.at as int;
    let held = state.held;
    let down = crate::blocks::held_event(at, mask, true, seen).applied(mem);
    let pressed_state = crate::input_state::InputState { held: held | mask, ..state };
    crate::blocks::input_accesses_match(mem, block, state, mask, true, seen);
    crate::blocks::input_accesses_match(down, block, pressed_state, mask, false, seen2);
    assert((held | mask) & !mask == held & !mask) by (bit_vector);
}

/// A steer with nothing interfering leaves in the block exactly the directions that the finger asks
/// for, and lifting the finger leaves none; nothing else of the block changes.
pub proof fn steering_reaches_the_block(
    mem: Seq<u32>,
    block: InputBlock,
    state: crate::input_state::InputState,
    port: &mut Port<'_>,
    lift: &mut Port<'_>,
    asked: Stick,
    after: crate::input_state::InputState,
    lifted: crate::input_state::InputState,
)
    requires
        crate::blocks::holds_input(mem, block, state),
        call_ensures(steer, (port, &block, asked), ()),
        call_ensures(stop_rolling, (lift, &block), ()),
        crate::blocks::holds_input(
            crate::shared::run(mem, crate::shared::since(*old(port), *final(port))),
            block,
            after,
        ),
        crate::blocks::holds_input(
            crate::shared::run(mem, crate::shared::since(*old(lift), *final(lift))),
            block,
            lifted,
        ),
    ensures
        after.held & 1 != 0 <==> asked.forward,
        after.held & 2 != 0 <==> asked.back,
        after.held & 4 != 0 <==> asked.left,
        after.held & 8 != 0 <==> asked.right,
        after.held & !15 == state.held & !15,
        after == (crate::input_state::InputState { held: after.held, ..state }),
        lifted.held == state.held & !15,
        lifted == (crate::input_state::InputState { held: lifted.held, ..state }),
{
    let at = block.at as int;
    let seen = choose|s: [u32; 4]|
        final(port).extends(*old(port), #[trigger] steer_events(at, asked, s));
    crate::shared::extension_is_what_was_made_since(
        *old(port),
        *final(port),
        steer_events(at, asked, seen),
    );
    undisturbed_steer(mem, block, state, asked, seen);
    steering_sets_its_bits(state.held, asked);
    let found = choose|found: u32|
        final(lift).extends(
            *old(lift),
            seq![#[trigger] crate::blocks::held_event(at, 15, false, found)],
        );
    let e = crate::blocks::held_event(at, 15, false, found);
    crate::shared::extension_is_what_was_made_since(*old(lift), *final(lift), seq![e]);
    crate::shared::run_of_one(mem, e);
    crate::blocks::input_accesses_match(mem, block, state, 15, false, found);
}

} // verus!
