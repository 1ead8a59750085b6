//! The motion, drop and input blocks as words of shared memory.
//!
//! Each block type is an address; its methods are the accesses that the threads make. The order of
//! the words is the order of the fields in [`crate::body_motion::BodyMotion`],
//! [`crate::ball_motions::BallMotions`] and [`crate::input_state::InputState`].

use vstd::prelude::*;

use crate::ball_motions::MAX_BALLS;
use crate::edge::Edge;
use crate::seqlock::Attempt;
use crate::shared::{Event, Port};
use crate::shared_ring::RING_WORDS;
use crate::words::Order;

verus! {

/// Words of a motion block.
pub const MOTION_WORDS: usize = 294;

pub const FRAME_TICK_AT: usize = 289;

pub const FRAME_WORK_AT: usize = 290;

pub const STEP_WORK_AT: usize = 291;

pub const SYNC_ERR_AT: usize = 292;

pub const DISPLAY_LAG_AT: usize = 293;

/// The player ball's motion block at an address of shared memory.
#[derive(Clone, Copy, Debug, PartialEq, Eq)]
pub struct MotionBlock {
    pub at: usize,
}

impl MotionBlock {
    /// The block lies within the memory behind the port.
    pub open spec fn fits(self, size: usize) -> bool {
        self.at + MOTION_WORDS <= size
    }

    /// Render side: records a display-cursor error (not negative, float bits).
    pub fn note_sync_err(&self, port: &mut Port, err_abs: u32)
        requires
            self.fits(old(port).size()),
        ensures
            exists|seen: u32|
                final(port).extends(
                    *old(port),
                    #[trigger] one(
                        Event::Max {
                            at: self.at + SYNC_ERR_AT,
                            order: Order::Relaxed,
                            value: err_abs,
                            seen,
                        },
                    ),
                ),
    {
        let seen: u32 = port.max(self.at + SYNC_ERR_AT, Order::Relaxed, err_abs);
        assert(port.extends(
            *old(port),
            one(
                Event::Max {
                    at: self.at + SYNC_ERR_AT,
                    order: Order::Relaxed,
                    value: err_abs,
                    seen,
                },
            ),
        ));
    }

    /// Stats side: takes the greatest error, leaving zero.
    pub fn take_sync_err(&self, port: &mut Port) -> (err: u32)
        requires
            self.fits(old(port).size()),
        ensures
            final(port).extends(
                *old(port),
                one(
                    Event::Swap {
                        at: self.at + SYNC_ERR_AT,
                        order: Order::Relaxed,
                        value: 0,
                        seen: err,
                    },
                ),
            ),
    {
        port.swap(self.at + SYNC_ERR_AT, Order::Relaxed, 0)
    }

    /// Render side: publishes the display lag (float bits).
    pub fn set_display_lag(&self, port: &mut Port, lag: u32)
        requires
            self.fits(old(port).size()),
        ensures
            final(port).extends(
                *old(port),
                one(
                    Event::Store {
                        at: self.at + DISPLAY_LAG_AT,
                        order: Order::Relaxed,
                        value: lag,
                    },
                ),
            ),
    {
        port.store(self.at + DISPLAY_LAG_AT, Order::Relaxed, lag);
    }

    /// Stats side: the display lag (float bits).
    pub fn display_lag(&self, port: &mut Port) -> (lag: u32)
        requires
            self.fits(old(port).size()),
        ensures
            final(port).extends(*old(port), one(look(self.at + DISPLAY_LAG_AT, lag))),
    {
        port.load(self.at + DISPLAY_LAG_AT, Order::Relaxed)
    }

    /// Render side: adds one frame's work time.
    pub fn add_frame_work_us(&self, port: &mut Port, us: u32)
        requires
            self.fits(old(port).size()),
        ensures
            exists|seen: u32|
                final(port).extends(
                    *old(port),
                    #[trigger] one(added(self.at + FRAME_WORK_AT, us, seen)),
                ),
    {
        let seen: u32 = port.add(self.at + FRAME_WORK_AT, Order::Relaxed, us);
        assert(port.extends(*old(port), one(added(self.at + FRAME_WORK_AT, us, seen))));
    }

    /// Accumulated render work time (microseconds, wrapping).
    pub fn frame_work_us(&self, port: &mut Port) -> (us: u32)
        requires
            self.fits(old(port).size()),
        ensures
            final(port).extends(*old(port), one(look(self.at + FRAME_WORK_AT, us))),
    {
        port.load(self.at + FRAME_WORK_AT, Order::Relaxed)
    }

    /// Physics side: adds one fixed step's work time.
    pub fn add_step_work_us(&self, port: &mut Port, us: u32)
        requires
            self.fits(old(port).size()),
        ensures
            exists|seen: u32|
                final(port).extends(
                    *old(port),
                    #[trigger] one(added(self.at + STEP_WORK_AT, us, seen)),
                ),
    {
        let seen: u32 = port.add(self.at + STEP_WORK_AT, Order::Relaxed, us);
        assert(port.extends(*old(port), one(added(self.at + STEP_WORK_AT, us, seen))));
    }

    /// Accumulated physics work time (microseconds, wrapping).
    pub fn step_work_us(&self, port: &mut Port) -> (us: u32)
        requires
            self.fits(old(port).size()),
        ensures
            final(port).extends(*old(port), one(look(self.at + STEP_WORK_AT, us))),
    {
        port.load(self.at + STEP_WORK_AT, Order::Relaxed)
    }

    /// Render side: a frame was presented. The caller then wakes whoever blocks on the tick.
    pub fn bump_frame(&self, port: &mut Port)
        requires
            self.fits(old(port).size()),
        ensures
            exists|seen: u32|
                final(port).extends(
                    *old(port),
                    #[trigger] one(added(self.at + FRAME_TICK_AT, 1, seen)),
                ),
    {
        let seen: u32 = port.add(self.at + FRAME_TICK_AT, Order::Relaxed, 1);
        assert(port.extends(*old(port), one(added(self.at + FRAME_TICK_AT, 1, seen))));
    }

    /// Current frame tick.
    pub fn frame_tick(&self, port: &mut Port) -> (tick: u32)
        requires
            self.fits(old(port).size()),
        ensures
            final(port).extends(*old(port), one(look(self.at + FRAME_TICK_AT, tick))),
    {
        port.load(self.at + FRAME_TICK_AT, Order::Relaxed)
    }

    /// Physics side: one look at the tick; the new tick when it differs from `last`. `None` means
    /// that the caller blocks while the tick equals `last`, and looks again.
    pub fn wait_frame(&self, port: &mut Port, last: u32) -> (tick: Option<u32>)
        requires
            self.fits(old(port).size()),
        ensures
            exists|seen: u32|
                final(port).extends(
                    *old(port),
                    #[trigger] one(look(self.at + FRAME_TICK_AT, seen)),
                ) && tick == (if seen != last {
                    Some(seen)
                } else {
                    None
                }),
    {
        let seen: u32 = port.load(self.at + FRAME_TICK_AT, Order::Relaxed);
        assert(port.extends(*old(port), one(look(self.at + FRAME_TICK_AT, seen))));
        if seen != last {
            Some(seen)
        } else {
            None
        }
    }

    /// Writer side (physics): publishes the pose at absolute step `step`.
    pub fn publish(&self, port: &mut Port, step: u32, pos: [u32; 3], quat: [u32; 4])
        requires
            self.fits(old(port).size()),
        ensures
            exists|v: u32|
                final(port).extends(
                    *old(port),
                    #[trigger] crate::shared_ring::publish_events(
                        self.at as int,
                        v,
                        step,
                        pos,
                        quat,
                    ),
                ),
    {
        crate::shared_ring::publish(port, self.at, step, pos, quat);
    }

    /// Writer side: publishes a teleport.
    pub fn publish_snap(&self, port: &mut Port, step: u32, pos: [u32; 3], quat: [u32; 4])
        requires
            self.fits(old(port).size()),
        ensures
            exists|u: u32, v: u32|
                final(port).extends(
                    *old(port),
                    #[trigger] crate::shared_ring::snap_events(
                        self.at as int,
                        u,
                        v,
                        step,
                        pos,
                        quat,
                    ),
                ),
    {
        crate::shared_ring::publish_snap(port, self.at, step, pos, quat);
    }

    /// Latest published absolute step.
    pub fn latest_step(&self, port: &mut Port) -> (step: u32)
        requires
            self.fits(old(port).size()),
        ensures
            final(port).extends(
                *old(port),
                seq![Event::Load { at: self.at as int, order: Order::Acquire, seen: step }],
            ),
    {
        crate::shared_ring::latest_step(port, self.at)
    }

    /// The pose published for `step`, if the ring still holds it.
    pub fn read_step(&self, port: &mut Port, step: u32) -> (pose: Option<([u32; 3], [u32; 4])>)
        requires
            self.fits(old(port).size()),
        ensures
            exists|tries: Seq<Attempt>|
                crate::seqlock::one_read(tries) && pose == crate::seqlock::read_outcome(
                    tries,
                    step,
                ) && final(port).extends(
                    *old(port),
                    #[trigger] crate::seqlock::tries_events(
                        crate::shared_ring::slot_at(self.at as int, step),
                        tries,
                    ),
                ),
    {
        crate::shared_ring::read_step(port, self.at, step)
    }

    /// One look at the latest pose; `None` means to look again.
    pub fn read_latest(&self, port: &mut Port) -> (pose: Option<([u32; 3], [u32; 4])>)
        requires
            self.fits(old(port).size()),
        ensures
            exists|latest: u32, tries: Seq<Attempt>|
                crate::seqlock::one_read(tries) && pose == crate::seqlock::read_outcome(
                    tries,
                    latest,
                ) && final(port).extends(
                    *old(port),
                    #[trigger] crate::shared_ring::latest_events(self.at as int, latest, tries),
                ),
    {
        crate::shared_ring::read_latest(port, self.at)
    }
}

/// A single access.
pub open spec fn one(e: Event) -> Seq<Event> {
    seq![e]
}

/// A look at a word that nothing else is ordered against.
pub open spec fn look(at: int, seen: u32) -> Event {
    Event::Load { at, order: Order::Relaxed, seen }
}

/// An addition to a word that nothing else is ordered against.
pub open spec fn added(at: int, value: u32, seen: u32) -> Event {
    Event::Add { at, order: Order::Relaxed, value, seen }
}

/// The words of a motion block are those of the given value.
pub open spec fn holds_motion(
    mem: Seq<u32>,
    block: MotionBlock,
    motion: crate::body_motion::BodyMotion,
) -> bool {
    &&& block.at + MOTION_WORDS <= mem.len()
    &&& crate::shared_ring::holds_ring(mem, block.at as int, motion.ring@)
    &&& mem[block.at + FRAME_TICK_AT] == motion.frame_tick
    &&& mem[block.at + FRAME_WORK_AT] == motion.frame_work_us
    &&& mem[block.at + STEP_WORK_AT] == motion.step_work_us
    &&& mem[block.at + SYNC_ERR_AT] == motion.sync_err_bits
    &&& mem[block.at + DISPLAY_LAG_AT] == motion.display_lag_bits
}

/// Each access to the words behind the ring does what the method of
/// [`crate::body_motion::BodyMotion`] does: counting frames and work time, recording and taking
/// the cursor error, publishing the display lag.
pub proof fn motion_accesses_match(
    mem: Seq<u32>,
    block: MotionBlock,
    motion: crate::body_motion::BodyMotion,
    value: u32,
    seen: u32,
)
    requires
        holds_motion(mem, block, motion),
    ensures
        holds_motion(
            added(block.at + FRAME_TICK_AT, 1, seen).applied(mem),
            block,
            (crate::body_motion::BodyMotion {
                frame_tick: motion.frame_tick.wrapping_add(1),
                ..motion
            }),
        ),
        holds_motion(
            added(block.at + FRAME_WORK_AT, value, seen).applied(mem),
            block,
            (crate::body_motion::BodyMotion {
                frame_work_us: motion.frame_work_us.wrapping_add(value),
                ..motion
            }),
        ),
        holds_motion(
            added(block.at + STEP_WORK_AT, value, seen).applied(mem),
            block,
            (crate::body_motion::BodyMotion {
                step_work_us: motion.step_work_us.wrapping_add(value),
                ..motion
            }),
        ),
        holds_motion(
            (Event::Max {
                at: block.at + SYNC_ERR_AT,
                order: Order::Relaxed,
                value,
                seen,
            }).applied(mem),
            block,
            (crate::body_motion::BodyMotion {
                sync_err_bits: if motion.sync_err_bits < value {
                    value
                } else {
                    motion.sync_err_bits
                },
                ..motion
            }),
        ),
        holds_motion(
            (Event::Swap {
                at: block.at + SYNC_ERR_AT,
                order: Order::Relaxed,
                value: 0,
                seen,
            }).applied(mem),
            block,
            (crate::body_motion::BodyMotion { sync_err_bits: 0, ..motion }),
        ),
        holds_motion(
            (Event::Store {
                at: block.at + DISPLAY_LAG_AT,
                order: Order::Relaxed,
                value,
            }).applied(mem),
            block,
            (crate::body_motion::BodyMotion { display_lag_bits: value, ..motion }),
        ),
{
    assert forall|j: int, w: u32| FRAME_TICK_AT <= j < MOTION_WORDS implies
        crate::shared_ring::holds_ring(
        #[trigger] mem.update(block.at + j, w),
        block.at as int,
        motion.ring@,
    ) by {
        let now = mem.update(block.at + j, w);
        assert(crate::shared::same_outside(mem, now, block.at + j, 1));
        ring_unmoved(mem, now, block.at + j, 1, block.at as int, motion.ring@);
    }
    assert(crate::shared_ring::holds_ring(
        mem.update(block.at + FRAME_TICK_AT as int, motion.frame_tick.wrapping_add(1)),
        block.at as int,
        motion.ring@,
    ));
}

/// Words of an input block.
pub const INPUT_WORDS: usize = 6;

/// The input block at an address of shared memory.
#[derive(Clone, Copy, Debug, PartialEq, Eq)]
pub struct InputBlock {
    pub at: usize,
}

impl InputBlock {
    /// The block lies within the memory behind the port.
    pub open spec fn fits(self, size: usize) -> bool {
        self.at + INPUT_WORDS <= size
    }

    /// Where the block keeps its swipes.
    pub open spec fn fling(self) -> Edge {
        Edge {
            seq_at: (self.at + 3) as usize,
            x_at: (self.at + 4) as usize,
            z_at: (self.at + 5) as usize,
        }
    }

    fn fling_edge(&self) -> (edge: Edge)
        requires
            self.at + INPUT_WORDS <= usize::MAX,
        ensures
            edge == self.fling(),
    {
        Edge { seq_at: self.at + 3, x_at: self.at + 4, z_at: self.at + 5 }
    }

    /// Main side: sets or clears held-key bits.
    pub fn set_held(&self, port: &mut Port, mask: u32, down: bool)
        requires
            self.fits(old(port).size()),
        ensures
            exists|seen: u32|
                final(port).extends(
                    *old(port),
                    #[trigger] one(held_event(self.at as int, mask, down, seen)),
                ),
    {
        let seen: u32 = if down {
            port.or(self.at, Order::Relaxed, mask)
        } else {
            port.and(self.at, Order::Relaxed, !mask)
        };
        assert(port.extends(*old(port), one(held_event(self.at as int, mask, down, seen))));
    }

    /// Main side: registers a discrete jump press.
    pub fn bump_jump(&self, port: &mut Port)
        requires
            self.fits(old(port).size()),
        ensures
            exists|seen: u32|
                final(port).extends(*old(port), #[trigger] one(added(self.at + 1, 1, seen))),
    {
        let seen: u32 = port.add(self.at + 1, Order::Relaxed, 1);
        assert(port.extends(*old(port), one(added(self.at + 1, 1, seen))));
    }

    /// Physics side: the current held-key bitset.
    pub fn held(&self, port: &mut Port) -> (held: u32)
        requires
            self.fits(old(port).size()),
        ensures
            final(port).extends(*old(port), one(look(self.at as int, held))),
    {
        port.load(self.at, Order::Relaxed)
    }

    /// Physics side: the jump counter.
    pub fn jump_seq(&self, port: &mut Port) -> (seq: u32)
        requires
            self.fits(old(port).size()),
        ensures
            final(port).extends(*old(port), one(look(self.at + 1, seq))),
    {
        port.load(self.at + 1, Order::Relaxed)
    }

    /// Main side: publishes a swipe with the given camera-frame velocity (float bits).
    pub fn bump_fling(&self, port: &mut Port, vx: u32, vz: u32)
        requires
            self.fits(old(port).size()),
        ensures
            exists|seen: u32|
                final(port).extends(
                    *old(port),
                    #[trigger] self.fling().post_events(vx, vz, seen),
                ),
    {
        let edge: Edge = self.fling_edge();
        edge.post(port, vx, vz);
    }

    /// Physics side: consumes a pending swipe.
    pub fn poll_fling(&self, port: &mut Port, last_seq: &mut u32) -> (fling: Option<(u32, u32)>)
        requires
            self.fits(old(port).size()),
        ensures
            fling is None <==> *final(last_seq) == *old(last_seq),
            final(port).extends(
                *old(port),
                self.fling().poll_events(
                    (crate::edge::Poll { seq: *final(last_seq), values: fling }),
                ),
            ),
    {
        let edge: Edge = self.fling_edge();
        edge.poll(port, last_seq)
    }

    /// Physics side: the swipe counter.
    pub fn fling_seq(&self, port: &mut Port) -> (seq: u32)
        requires
            self.fits(old(port).size()),
        ensures
            final(port).extends(*old(port), one(look(self.at + 3, seq))),
    {
        port.load(self.at + 3, Order::Relaxed)
    }

    /// Main side: publishes the camera yaw (radians, float bits).
    pub fn set_camera_yaw(&self, port: &mut Port, yaw: u32)
        requires
            self.fits(old(port).size()),
        ensures
            final(port).extends(
                *old(port),
                one(Event::Store { at: self.at + 2, order: Order::Relaxed, value: yaw }),
            ),
    {
        port.store(self.at + 2, Order::Relaxed, yaw);
    }

    /// Physics side: the camera yaw (radians, float bits).
    pub fn camera_yaw(&self, port: &mut Port) -> (yaw: u32)
        requires
            self.fits(old(port).size()),
        ensures
            final(port).extends(*old(port), one(look(self.at + 2, yaw))),
    {
        port.load(self.at + 2, Order::Relaxed)
    }
}

/// The access that presses or releases keys.
pub open spec fn held_event(at: int, mask: u32, down: bool, seen: u32) -> Event {
    if down {
        Event::Or { at, order: Order::Relaxed, value: mask, seen }
    } else {
        Event::And { at, order: Order::Relaxed, value: !mask, seen }
    }
}

/// The words of an input block are those of the state.
pub open spec fn holds_input(
    mem: Seq<u32>,
    block: InputBlock,
    state: crate::input_state::InputState,
) -> bool {
    &&& block.at + INPUT_WORDS <= mem.len()
    &&& mem.len() <= usize::MAX
    &&& mem[block.at as int] == state.held
    &&& mem[block.at + 1] == state.jump_seq
    &&& mem[block.at + 2] == state.camera_yaw
    &&& mem[block.at + 3] == state.fling_seq
    &&& mem[block.at + 4] == state.fling_x
    &&& mem[block.at + 5] == state.fling_z
}

/// Each access to the input block does what the method of
/// [`crate::input_state::InputState`] does: pressing and releasing keys, bumping the jump counter,
/// publishing the yaw.
pub proof fn input_accesses_match(
    mem: Seq<u32>,
    block: InputBlock,
    state: crate::input_state::InputState,
    value: u32,
    down: bool,
    seen: u32,
)
    requires
        holds_input(mem, block, state),
    ensures
        holds_input(
            held_event(block.at as int, value, down, seen).applied(mem),
            block,
            (crate::input_state::InputState {
                held: if down {
                    state.held | value
                } else {
                    state.held & !value
                },
                ..state
            }),
        ),
        holds_input(
            added(block.at + 1, 1, seen).applied(mem),
            block,
            (crate::input_state::InputState { jump_seq: state.jump_seq.wrapping_add(1), ..state }),
        ),
        holds_input(
            (Event::Store { at: block.at + 2, order: Order::Relaxed, value }).applied(mem),
            block,
            (crate::input_state::InputState { camera_yaw: value, ..state }),
        ),
{
}

/// A swipe that nothing interferes with does to the block what
/// [`crate::input_state::InputState::bump_fling`] does.
pub proof fn undisturbed_fling(
    mem: Seq<u32>,
    block: InputBlock,
    state: crate::input_state::InputState,
    vx: u32,
    vz: u32,
    seen: u32,
)
    requires
        holds_input(mem, block, state),
        crate::shared::undisturbed(mem, block.fling().post_events(vx, vz, seen)),
    ensures
        holds_input(
            crate::shared::run(mem, block.fling().post_events(vx, vz, seen)),
            block,
            (crate::input_state::InputState {
                fling_x: vx,
                fling_z: vz,
                fling_seq: state.fling_seq.wrapping_add(1),
                ..state
            }),
        ),
{
    crate::edge::undisturbed_post(block.fling(), mem, vx, vz, seen);
}

/// A poll that nothing interferes with gives what
/// [`crate::input_state::InputState::poll_fling`] gives.
pub proof fn undisturbed_fling_poll(
    mem: Seq<u32>,
    block: InputBlock,
    state: crate::input_state::InputState,
    last_seq: u32,
    poll: crate::edge::Poll,
)
    requires
        holds_input(mem, block, state),
        poll.values is None <==> poll.seq == last_seq,
        crate::shared::undisturbed(mem, block.fling().poll_events(poll)),
    ensures
        poll.seq == state.fling_seq,
        poll.values == crate::input_state::polled(
            state.fling_seq,
            last_seq,
            state.fling_x,
            state.fling_z,
        ),
{
    crate::edge::undisturbed_poll(block.fling(), mem, last_seq, poll);
}

/// Words of a drop block.
pub const BALLS_WORDS: usize = 57804;

/// The drop block at an address of shared memory.
#[derive(Clone, Copy, Debug, PartialEq, Eq)]
pub struct BallsBlock {
    pub at: usize,
}

impl BallsBlock {
    /// The block lies within the memory behind the port.
    pub open spec fn fits(self, size: usize) -> bool {
        self.at + BALLS_WORDS <= size
    }

    /// Where the block keeps the drop request.
    pub open spec fn drop_request(self) -> Edge {
        Edge { seq_at: self.at, x_at: (self.at + 1) as usize, z_at: (self.at + 2) as usize }
    }

    /// Where the block keeps the ring of one ball.
    pub open spec fn ring_at(self, index: int) -> int {
        self.at + 4 + RING_WORDS * index
    }

    fn drop_edge(&self) -> (edge: Edge)
        requires
            self.at + BALLS_WORDS <= usize::MAX,
        ensures
            edge == self.drop_request(),
    {
        Edge { seq_at: self.at, x_at: self.at + 1, z_at: self.at + 2 }
    }

    /// Render side: requests a ball at table position `(x, z)` (float bits).
    pub fn request_drop(&self, port: &mut Port, x: u32, z: u32)
        requires
            self.fits(old(port).size()),
        ensures
            exists|seen: u32|
                final(port).extends(
                    *old(port),
                    #[trigger] self.drop_request().post_events(x, z, seen),
                ),
    {
        let edge: Edge = self.drop_edge();
        edge.post(port, x, z);
    }

    /// Physics side: consumes any pending drop request.
    pub fn poll_drop(&self, port: &mut Port, last_seq: &mut u32) -> (request: Option<(u32, u32)>)
        requires
            self.fits(old(port).size()),
        ensures
            request is None <==> *final(last_seq) == *old(last_seq),
            final(port).extends(
                *old(port),
                self.drop_request().poll_events(
                    (crate::edge::Poll { seq: *final(last_seq), values: request }),
                ),
            ),
    {
        let edge: Edge = self.drop_edge();
        edge.poll(port, last_seq)
    }

    /// Balls created so far.
    pub fn count(&self, port: &mut Port) -> (count: usize)
        requires
            self.fits(old(port).size()),
        ensures
            count <= u32::MAX,
            final(port).extends(
                *old(port),
                one(
                    Event::Load { at: self.at + 3, order: Order::Acquire, seen: count as u32 },
                ),
            ),
    {
        port.load(self.at + 3, Order::Acquire) as usize
    }

    /// Physics side: publishes that the rings below `count` are initialized.
    pub fn set_count(&self, port: &mut Port, count: usize)
        requires
            self.fits(old(port).size()),
        ensures
            final(port).extends(
                *old(port),
                one(
                    Event::Store { at: self.at + 3, order: Order::Release, value: count as u32 },
                ),
            ),
    {
        port.store(self.at + 3, Order::Release, #[verifier::truncate] (count as u32));
    }

    /// The address of the ring of one ball.
    pub fn slot(&self, index: usize) -> (at: usize)
        requires
            self.at + BALLS_WORDS <= usize::MAX,
            index < MAX_BALLS,
        ensures
            at == self.ring_at(index as int),
            at + RING_WORDS <= self.at + BALLS_WORDS,
    {
        self.at + 4 + RING_WORDS * index
    }

    /// The accesses that make a new ball visible: its pose is published, then the count raised.
    pub open spec fn seed_events(
        self,
        index: int,
        u: u32,
        v: u32,
        step: u32,
        pos: [u32; 3],
        quat: [u32; 4],
    ) -> Seq<Event> {
        crate::shared_ring::snap_events(self.ring_at(index), u, v, step, pos, quat).push(
            Event::Store { at: self.at + 3, order: Order::Release, value: (index + 1) as u32 },
        )
    }

    /// Physics side: a ball was created. Seeds its ring with a snap at the current step, then
    /// raises the count.
    pub fn seed_ball(
        &self,
        port: &mut Port,
        index: usize,
        step: u32,
        pos: [u32; 3],
        quat: [u32; 4],
    )
        requires
            self.fits(old(port).size()),
            index < MAX_BALLS,
        ensures
            exists|u: u32, v: u32|
                final(port).extends(
                    *old(port),
                    #[trigger] self.seed_events(index as int, u, v, step, pos, quat),
                ),
    {
        let ring: usize = self.slot(index);
        crate::shared_ring::publish_snap(port, ring, step, pos, quat);
        let ghost (u, v) = choose|u: u32, v: u32|
            port.extends(
                *old(port),
                #[trigger] crate::shared_ring::snap_events(ring as int, u, v, step, pos, quat),
            );
        self.set_count(port, index + 1);
        assert(port.trace() =~= old(port).trace() + self.seed_events(
            index as int,
            u,
            v,
            step,
            pos,
            quat,
        ));
        assert(port.extends(*old(port), self.seed_events(index as int, u, v, step, pos, quat)));
    }
}

/// A new ball is made visible last: the count is raised with a release store behind every access
/// that writes its pose, and to the number of balls up to this one.
pub proof fn count_is_raised_last(
    block: BallsBlock,
    index: int,
    u: u32,
    v: u32,
    step: u32,
    pos: [u32; 3],
    quat: [u32; 4],
)
    requires
        0 <= index < 200,
    ensures
        ({
            let events = block.seed_events(index, u, v, step, pos, quat);
            let snap = crate::shared_ring::snap_events(
                block.ring_at(index),
                u,
                v,
                step,
                pos,
                quat,
            );
            &&& events.len() == snap.len() + 1
            &&& events.take(snap.len() as int) == snap
            &&& events.last() matches Event::Store { at, order, value } && at == block.at + 3
                && order is Release && value == index + 1
        }),
{
    let snap = crate::shared_ring::snap_events(block.ring_at(index), u, v, step, pos, quat);
    assert(block.seed_events(index, u, v, step, pos, quat).take(snap.len() as int) =~= snap);
}

/// The parts of a drop block do not overlap: the request, the count and the rings of the balls lie
/// one behind the other.
pub proof fn balls_have_their_own_rings(block: BallsBlock, i: int, k: int)
    requires
        0 <= i < k < 200,
        block.at + BALLS_WORDS <= usize::MAX,
    ensures
        block.drop_request().seq_at == block.at,
        block.drop_request().x_at == block.at + 1,
        block.drop_request().z_at == block.at + 2,
        block.ring_at(0) == block.at + 4,
        block.ring_at(i) + RING_WORDS <= block.ring_at(k),
        block.ring_at(k) + RING_WORDS <= block.at + BALLS_WORDS,
{
}

/// The words of a drop block are those of the given value.
pub open spec fn holds_balls(
    mem: Seq<u32>,
    block: BallsBlock,
    balls: crate::ball_motions::BallMotions,
) -> bool {
    &&& block.at + BALLS_WORDS <= mem.len()
    &&& mem.len() <= usize::MAX
    &&& balls.slots@.len() == MAX_BALLS
    &&& mem[block.at as int] == balls.drop_seq
    &&& mem[block.at + 1] == balls.drop_x
    &&& mem[block.at + 2] == balls.drop_z
    &&& mem[block.at + 3] == balls.count
    &&& forall|i: int|
        0 <= i < MAX_BALLS ==> crate::shared_ring::holds_ring(
            mem,
            block.ring_at(i),
            (#[trigger] balls.slots@[i])@,
        )
}

/// Words elsewhere do not matter to a ring.
pub proof fn ring_unmoved(
    mem: Seq<u32>,
    now: Seq<u32>,
    at: int,
    size: int,
    ring_at: int,
    ring: crate::pose_ring::RingView,
)
    requires
        crate::shared_ring::holds_ring(mem, ring_at, ring),
        crate::shared::same_outside(mem, now, at, size),
        ring_at + RING_WORDS <= at || at + size <= ring_at,
    ensures
        crate::shared_ring::holds_ring(now, ring_at, ring),
{
    assert forall|i: int| 0 <= i < crate::pose_ring::POSE_RING implies crate::seqlock::holds_slot(
        now,
        ring_at + 1 + crate::seqlock::SLOT_WORDS * i,
        #[trigger] ring.slots[i],
    ) by {
        let was = ring.slots[i];
        let base = ring_at + 1 + crate::seqlock::SLOT_WORDS * i;
        assert(crate::seqlock::holds_slot(mem, base, was));
        assert forall|j: int| 0 <= j < 7 implies now[base + 2 + j] == #[trigger] was.fields@[j] by {
            assert(mem[base + 2 + j] == was.fields@[j]);
        }
    }
}

/// A drop request that nothing interferes with does to the block what
/// [`crate::ball_motions::BallMotions::request_drop`] does.
pub proof fn undisturbed_request(
    mem: Seq<u32>,
    block: BallsBlock,
    balls: crate::ball_motions::BallMotions,
    x: u32,
    z: u32,
    seen: u32,
)
    requires
        holds_balls(mem, block, balls),
        crate::shared::undisturbed(mem, block.drop_request().post_events(x, z, seen)),
    ensures
        holds_balls(
            crate::shared::run(mem, block.drop_request().post_events(x, z, seen)),
            block,
            (crate::ball_motions::BallMotions {
                drop_x: x,
                drop_z: z,
                drop_seq: balls.drop_seq.wrapping_add(1),
                ..balls
            }),
        ),
{
    crate::edge::undisturbed_post(block.drop_request(), mem, x, z, seen);
    let now = crate::shared::run(mem, block.drop_request().post_events(x, z, seen));
    assert(crate::shared::same_outside(mem, now, block.at as int, 3));
    assert forall|i: int| 0 <= i < MAX_BALLS implies crate::shared_ring::holds_ring(
        now,
        block.ring_at(i),
        (#[trigger] balls.slots@[i])@,
    ) by {
        ring_unmoved(mem, now, block.at as int, 3, block.ring_at(i), balls.slots@[i]@);
    }
}

/// Making a ball visible with nothing interfering does to the block what
/// [`crate::ball_motions::BallMotions::seed_ball`] does.
pub proof fn undisturbed_seed(
    mem: Seq<u32>,
    block: BallsBlock,
    balls: crate::ball_motions::BallMotions,
    next: crate::ball_motions::BallMotions,
    index: int,
    u: u32,
    v: u32,
    step: u32,
    pos: [u32; 3],
    quat: [u32; 4],
)
    requires
        holds_balls(mem, block, balls),
        0 <= index < MAX_BALLS,
        next.slots@ == balls.slots@.update(index, next.slots@[index]),
        next.slots@[index]@ == balls.slots@[index]@.snapped(step, pos, quat),
        next.count == index + 1,
        next == (crate::ball_motions::BallMotions {
            slots: next.slots,
            count: next.count,
            ..balls
        }),
        crate::shared::undisturbed(mem, block.seed_events(index, u, v, step, pos, quat)),
    ensures
        holds_balls(
            crate::shared::run(mem, block.seed_events(index, u, v, step, pos, quat)),
            block,
            next,
        ),
{
    let at = block.ring_at(index);
    let ring = balls.slots@[index]@;
    let snap = crate::shared_ring::snap_events(at, u, v, step, pos, quat);
    let last = Event::Store { at: block.at + 3, order: Order::Release, value: (index + 1) as u32 };
    crate::shared::run_push(mem, snap, last);
    crate::shared::undisturbed_push(mem, snap, last);
    crate::shared_ring::undisturbed_snap(mem, at, ring, u, v, step, pos, quat);
    let mid = crate::shared::run(mem, snap);
    let now = mid.update(block.at + 3, (index + 1) as u32);
    assert(crate::shared::same_outside(mid, now, block.at + 3, 1));
    assert forall|i: int| 0 <= i < MAX_BALLS implies crate::shared_ring::holds_ring(
        now,
        block.ring_at(i),
        (#[trigger] next.slots@[i])@,
    ) by {
        if i != index {
            assert(next.slots@[i] == balls.slots@[i]);
            ring_unmoved(mem, mid, at, RING_WORDS as int, block.ring_at(i), balls.slots@[i]@);
        }
        ring_unmoved(mid, now, block.at + 3, 1, block.ring_at(i), next.slots@[i]@);
    }
}

/// A drop request that nothing interferes with is what
/// [`crate::ball_motions::BallMotions::poll_drop`] gives to the next poll.
pub proof fn request_reaches_the_next_poll(
    mem: Seq<u32>,
    block: BallsBlock,
    x: u32,
    z: u32,
    seen: u32,
    last_seq: u32,
    poll: crate::edge::Poll,
)
    requires
        block.at + BALLS_WORDS <= mem.len(),
        mem.len() <= usize::MAX,
        crate::shared::undisturbed(mem, block.drop_request().post_events(x, z, seen)),
        poll.values is None <==> poll.seq == last_seq,
        crate::shared::undisturbed(
            crate::shared::run(mem, block.drop_request().post_events(x, z, seen)),
            block.drop_request().poll_events(poll),
        ),
        last_seq == seen,
    ensures
        poll.values == Some((x, z)),
        poll.seq == last_seq.wrapping_add(1),
{
    let edge = block.drop_request();
    crate::edge::undisturbed_post(edge, mem, x, z, seen);
    let now = crate::shared::run(mem, edge.post_events(x, z, seen));
    assert(edge.fits(now.len() as int));
    crate::edge::undisturbed_poll(edge, now, last_seq, poll);
}

/// The frame tick in the block: a bump counts one frame more and touches nothing else; a look gives
/// the tick and a wait ends exactly when it differs from the one that was seen last.
pub proof fn frame_tick_is_kept(
    mem: Seq<u32>,
    block: MotionBlock,
    motion: crate::body_motion::BodyMotion,
    bump: &mut Port<'_>,
    look_at: &mut Port<'_>,
    wait: &mut Port<'_>,
    tick: u32,
    last: u32,
    waited: Option<u32>,
)
    requires
        holds_motion(mem, block, motion),
        call_ensures(MotionBlock::bump_frame, (&block, bump), ()),
        call_ensures(MotionBlock::frame_tick, (&block, look_at), tick),
        crate::shared::undisturbed(mem, crate::shared::since(*old(look_at), *final(look_at))),
        call_ensures(MotionBlock::wait_frame, (&block, wait, last), waited),
        crate::shared::undisturbed(mem, crate::shared::since(*old(wait), *final(wait))),
    ensures
        holds_motion(
            crate::shared::run(mem, crate::shared::since(*old(bump), *final(bump))),
            block,
            (crate::body_motion::BodyMotion {
                frame_tick: motion.frame_tick.wrapping_add(1),
                ..motion
            }),
        ),
        tick == motion.frame_tick,
        waited == (if motion.frame_tick != last {
            Some(motion.frame_tick)
        } else {
            None
        }),
{
    let seen = choose|seen: u32|
        final(bump).extends(
            *old(bump),
            #[trigger] one(added(block.at + FRAME_TICK_AT, 1, seen)),
        );
    let e = added(block.at + FRAME_TICK_AT, 1, seen);
    crate::shared::extension_is_what_was_made_since(*old(bump), *final(bump), one(e));
    crate::shared::run_of_one(mem, e);
    motion_accesses_match(mem, block, motion, 0, seen);
    let l = look(block.at + FRAME_TICK_AT, tick);
    crate::shared::extension_is_what_was_made_since(*old(look_at), *final(look_at), one(l));
    crate::shared::run_of_one(mem, l);
    let found = choose|found: u32|
        final(wait).extends(*old(wait), #[trigger] one(look(block.at + FRAME_TICK_AT, found)))
            && waited == (if found != last {
            Some(found)
        } else {
            None
        });
    let w = look(block.at + FRAME_TICK_AT, found);
    crate::shared::extension_is_what_was_made_since(*old(wait), *final(wait), one(w));
    crate::shared::run_of_one(mem, w);
}

/// The cursor error in the block: noting one keeps the greater of it and what stands there, taking it
/// gives what stands there and leaves zero. The display lag is what was published last.
pub proof fn sync_words_are_kept(
    mem: Seq<u32>,
    block: MotionBlock,
    motion: crate::body_motion::BodyMotion,
    note: &mut Port<'_>,
    take: &mut Port<'_>,
    set: &mut Port<'_>,
    get: &mut Port<'_>,
    err: u32,
    taken: u32,
    lag: u32,
    shown: u32,
)
    requires
        holds_motion(mem, block, motion),
        call_ensures(MotionBlock::note_sync_err, (&block, note, err), ()),
        call_ensures(MotionBlock::take_sync_err, (&block, take), taken),
        crate::shared::undisturbed(mem, crate::shared::since(*old(take), *final(take))),
        call_ensures(MotionBlock::set_display_lag, (&block, set, lag), ()),
        call_ensures(MotionBlock::display_lag, (&block, get), shown),
        crate::shared::undisturbed(mem, crate::shared::since(*old(get), *final(get))),
    ensures
        holds_motion(
            crate::shared::run(mem, crate::shared::since(*old(note), *final(note))),
            block,
            (crate::body_motion::BodyMotion {
                sync_err_bits: if motion.sync_err_bits < err {
                    err
                } else {
                    motion.sync_err_bits
                },
                ..motion
            }),
        ),
        taken == motion.sync_err_bits,
        holds_motion(
            crate::shared::run(mem, crate::shared::since(*old(take), *final(take))),
            block,
            (crate::body_motion::BodyMotion { sync_err_bits: 0, ..motion }),
        ),
        holds_motion(
            crate::shared::run(mem, crate::shared::since(*old(set), *final(set))),
            block,
            (crate::body_motion::BodyMotion { display_lag_bits: lag, ..motion }),
        ),
        shown == motion.display_lag_bits,
{
    let at = block.at + SYNC_ERR_AT;
    let seen = choose|seen: u32|
        final(note).extends(
            *old(note),
            #[trigger] one(Event::Max { at, order: Order::Relaxed, value: err, seen }),
        );
    let e = Event::Max { at, order: Order::Relaxed, value: err, seen };
    crate::shared::extension_is_what_was_made_since(*old(note), *final(note), one(e));
    crate::shared::run_of_one(mem, e);
    motion_accesses_match(mem, block, motion, err, seen);
    let t = Event::Swap { at, order: Order::Relaxed, value: 0, seen: taken };
    crate::shared::extension_is_what_was_made_since(*old(take), *final(take), one(t));
    crate::shared::run_of_one(mem, t);
    motion_accesses_match(mem, block, motion, lag, taken);
    let s = Event::Store { at: block.at + DISPLAY_LAG_AT, order: Order::Relaxed, value: lag };
    crate::shared::extension_is_what_was_made_since(*old(set), *final(set), one(s));
    crate::shared::run_of_one(mem, s);
    let g = look(block.at + DISPLAY_LAG_AT, shown);
    crate::shared::extension_is_what_was_made_since(*old(get), *final(get), one(g));
    crate::shared::run_of_one(mem, g);
}

/// The work times in the block: each adds up by itself, wrapping, and is what a look at it gives.
pub proof fn work_times_are_kept(
    mem: Seq<u32>,
    block: MotionBlock,
    motion: crate::body_motion::BodyMotion,
    frame: &mut Port<'_>,
    step: &mut Port<'_>,
    frame_look: &mut Port<'_>,
    step_look: &mut Port<'_>,
    us: u32,
    frame_us: u32,
    step_us: u32,
)
    requires
        holds_motion(mem, block, motion),
        call_ensures(MotionBlock::add_frame_work_us, (&block, frame, us), ()),
        call_ensures(MotionBlock::add_step_work_us, (&block, step, us), ()),
        call_ensures(MotionBlock::frame_work_us, (&block, frame_look), frame_us),
        crate::shared::undisturbed(
            mem,
            crate::shared::since(*old(frame_look), *final(frame_look)),
        ),
        call_ensures(MotionBlock::step_work_us, (&block, step_look), step_us),
        crate::shared::undisturbed(mem, crate::shared::since(*old(step_look), *final(step_look))),
    ensures
        holds_motion(
            crate::shared::run(mem, crate::shared::since(*old(frame), *final(frame))),
            block,
            (crate::body_motion::BodyMotion {
                frame_work_us: motion.frame_work_us.wrapping_add(us),
                ..motion
            }),
        ),
        holds_motion(
            crate::shared::run(mem, crate::shared::since(*old(step), *final(step))),
            block,
            (crate::body_motion::BodyMotion {
                step_work_us: motion.step_work_us.wrapping_add(us),
                ..motion
            }),
        ),
        frame_us == motion.frame_work_us,
        step_us == motion.step_work_us,
{
    let seen = choose|seen: u32|
        final(frame).extends(
            *old(frame),
            #[trigger] one(added(block.at + FRAME_WORK_AT, us, seen)),
        );
    let e = added(block.at + FRAME_WORK_AT, us, seen);
    crate::shared::extension_is_what_was_made_since(*old(frame), *final(frame), one(e));
    crate::shared::run_of_one(mem, e);
    motion_accesses_match(mem, block, motion, us, seen);
    let seen2 = choose|seen: u32|
        final(step).extends(*old(step), #[trigger] one(added(block.at + STEP_WORK_AT, us, seen)));
    let e2 = added(block.at + STEP_WORK_AT, us, seen2);
    crate::shared::extension_is_what_was_made_since(*old(step), *final(step), one(e2));
    crate::shared::run_of_one(mem, e2);
    motion_accesses_match(mem, block, motion, us, seen2);
    let l = look(block.at + FRAME_WORK_AT, frame_us);
    crate::shared::extension_is_what_was_made_since(*old(frame_look), *final(frame_look), one(l));
    crate::shared::run_of_one(mem, l);
    let l2 = look(block.at + STEP_WORK_AT, step_us);
    crate::shared::extension_is_what_was_made_since(*old(step_look), *final(step_look), one(l2));
    crate::shared::run_of_one(mem, l2);
}

/// The input block: keys, jumps and the yaw are written where they are looked for, each word by
/// itself.
pub proof fn input_words_are_kept(
    mem: Seq<u32>,
    block: InputBlock,
    state: crate::input_state::InputState,
    press: &mut Port<'_>,
    jump: &mut Port<'_>,
    turn: &mut Port<'_>,
    mask: u32,
    down: bool,
    yaw: u32,
)
    requires
        holds_input(mem, block, state),
        call_ensures(InputBlock::set_held, (&block, press, mask, down), ()),
        call_ensures(InputBlock::bump_jump, (&block, jump), ()),
        call_ensures(InputBlock::set_camera_yaw, (&block, turn, yaw), ()),
    ensures
        holds_input(
            crate::shared::run(mem, crate::shared::since(*old(press), *final(press))),
            block,
            (crate::input_state::InputState {
                held: if down {
                    state.held | mask
                } else {
                    state.held & !mask
                },
                ..state
            }),
        ),
        holds_input(
            crate::shared::run(mem, crate::shared::since(*old(jump), *final(jump))),
            block,
            (crate::input_state::InputState { jump_seq: state.jump_seq.wrapping_add(1), ..state }),
        ),
        holds_input(
            crate::shared::run(mem, crate::shared::since(*old(turn), *final(turn))),
            block,
            (crate::input_state::InputState { camera_yaw: yaw, ..state }),
        ),
{
    let at = block.at as int;
    let seen = choose|seen: u32|
        final(press).extends(*old(press), #[trigger] one(held_event(at, mask, down, seen)));
    let e = held_event(at, mask, down, seen);
    crate::shared::extension_is_what_was_made_since(*old(press), *final(press), one(e));
    crate::shared::run_of_one(mem, e);
    input_accesses_match(mem, block, state, mask, down, seen);
    let seen2 = choose|seen: u32|
        final(jump).extends(*old(jump), #[trigger] one(added(block.at + 1, 1, seen)));
    let e2 = added(block.at + 1, 1, seen2);
    crate::shared::extension_is_what_was_made_since(*old(jump), *final(jump), one(e2));
    crate::shared::run_of_one(mem, e2);
    input_accesses_match(mem, block, state, yaw, down, seen2);
    let e3 = Event::Store { at: block.at + 2, order: Order::Relaxed, value: yaw };
    crate::shared::extension_is_what_was_made_since(*old(turn), *final(turn), one(e3));
    crate::shared::run_of_one(mem, e3);
}

/// What physics looks at in the input block is what main wrote there: with nothing interfering the
/// looks give the held keys, the counters and the yaw as they are.
pub proof fn input_words_are_seen(
    mem: Seq<u32>,
    block: InputBlock,
    state: crate::input_state::InputState,
    p1: &mut Port<'_>,
    p2: &mut Port<'_>,
    p3: &mut Port<'_>,
    p4: &mut Port<'_>,
    held: u32,
    jump_seq: u32,
    yaw: u32,
    fling_seq: u32,
)
    requires
        holds_input(mem, block, state),
        call_ensures(InputBlock::held, (&block, p1), held),
        crate::shared::undisturbed(mem, crate::shared::since(*old(p1), *final(p1))),
        call_ensures(InputBlock::jump_seq, (&block, p2), jump_seq),
        crate::shared::undisturbed(mem, crate::shared::since(*old(p2), *final(p2))),
        call_ensures(InputBlock::camera_yaw, (&block, p3), yaw),
        crate::shared::undisturbed(mem, crate::shared::since(*old(p3), *final(p3))),
        call_ensures(InputBlock::fling_seq, (&block, p4), fling_seq),
        crate::shared::undisturbed(mem, crate::shared::since(*old(p4), *final(p4))),
    ensures
        held == state.held,
        jump_seq == state.jump_seq,
        yaw == state.camera_yaw,
        fling_seq == state.fling_seq,
{
    let e1 = look(block.at as int, held);
    let e2 = look(block.at + 1, jump_seq);
    let e3 = look(block.at + 2, yaw);
    let e4 = look(block.at + 3, fling_seq);
    crate::shared::extension_is_what_was_made_since(*old(p1), *final(p1), one(e1));
    crate::shared::extension_is_what_was_made_since(*old(p2), *final(p2), one(e2));
    crate::shared::extension_is_what_was_made_since(*old(p3), *final(p3), one(e3));
    crate::shared::extension_is_what_was_made_since(*old(p4), *final(p4), one(e4));
    crate::shared::run_of_one(mem, e1);
    crate::shared::run_of_one(mem, e2);
    crate::shared::run_of_one(mem, e3);
    crate::shared::run_of_one(mem, e4);
}

/// A swipe that is posted with nothing interfering is what the next poll gives, when that one starts
/// from the counter before it.
pub proof fn posted_swipe_is_polled(
    mem: Seq<u32>,
    block: InputBlock,
    state: crate::input_state::InputState,
    post: &mut Port<'_>,
    poll: &mut Port<'_>,
    last: &mut u32,
    vx: u32,
    vz: u32,
    fling: Option<(u32, u32)>,
)
    requires
        holds_input(mem, block, state),
        call_ensures(InputBlock::bump_fling, (&block, post, vx, vz), ()),
        crate::shared::undisturbed(mem, crate::shared::since(*old(post), *final(post))),
        *old(last) == state.fling_seq,
        call_ensures(InputBlock::poll_fling, (&block, poll, last), fling),
        crate::shared::undisturbed(
            crate::shared::run(mem, crate::shared::since(*old(post), *final(post))),
            crate::shared::since(*old(poll), *final(poll)),
        ),
    ensures
        fling == Some((vx, vz)),
        *final(last) == state.fling_seq.wrapping_add(1),
{
    let edge = block.fling();
    let seen = choose|seen: u32|
        final(post).extends(*old(post), #[trigger] edge.post_events(vx, vz, seen));
    let events = edge.post_events(vx, vz, seen);
    crate::shared::extension_is_what_was_made_since(*old(post), *final(post), events);
    undisturbed_fling(mem, block, state, vx, vz, seen);
    let now = crate::shared::run(mem, events);
    let next = crate::input_state::InputState {
        fling_x: vx,
        fling_z: vz,
        fling_seq: state.fling_seq.wrapping_add(1),
        ..state
    };
    let seen_poll = crate::edge::Poll { seq: *final(last), values: fling };
    crate::shared::extension_is_what_was_made_since(
        *old(poll),
        *final(poll),
        edge.poll_events(seen_poll),
    );
    undisturbed_fling_poll(now, block, next, *old(last), seen_poll);
}

/// The number of balls is published and looked at in the same word.
pub proof fn ball_count_is_kept(
    mem: Seq<u32>,
    block: BallsBlock,
    balls: crate::ball_motions::BallMotions,
    get: &mut Port<'_>,
    set: &mut Port<'_>,
    count: usize,
    n: usize,
)
    requires
        holds_balls(mem, block, balls),
        n <= u32::MAX,
        call_ensures(BallsBlock::count, (&block, get), count),
        crate::shared::undisturbed(mem, crate::shared::since(*old(get), *final(get))),
        call_ensures(BallsBlock::set_count, (&block, set, n), ()),
    ensures
        count == balls.count,
        crate::shared::run(mem, crate::shared::since(*old(set), *final(set))) == mem.update(
            block.at + 3,
            n as u32,
        ),
{
    let l = Event::Load { at: block.at + 3, order: Order::Acquire, seen: count as u32 };
    crate::shared::extension_is_what_was_made_since(*old(get), *final(get), one(l));
    crate::shared::run_of_one(mem, l);
    let s = Event::Store { at: block.at + 3, order: Order::Release, value: n as u32 };
    crate::shared::extension_is_what_was_made_since(*old(set), *final(set), one(s));
    crate::shared::run_of_one(mem, s);
}

} // verus!
