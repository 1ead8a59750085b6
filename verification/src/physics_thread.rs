//! The physics thread's bookkeeping: how many steps a frame buys, what the input asks for, what
//! the ball touches, and which sounds its impacts make.
//!
//! The world itself belongs to the physics engine, and the arithmetic on velocities and positions
//! to its caller. Here are the rules around it.

use std::collections::HashMap;
use vstd::prelude::*;

use crate::ball_motions::MAX_BALLS;
use crate::bits::{float_clamp, float_double, float_less, float_negate};
use crate::blocks::{BallsBlock, InputBlock, MotionBlock};
use crate::input_state::{HELD_BACK, HELD_FORWARD, HELD_LEFT, HELD_RIGHT};
use crate::protocol::{ColliderInit, ColliderShapeMsg, ROLE_FLOOR, ROLE_WALL, SIM_HZ};
use crate::shared::Port;

verus! {

/// The most real time, in milliseconds, that one frame absorbs.
pub const MAX_FRAME_MS: u32 = 100;

/// The most fixed steps that one frame runs: enough for a gap of [`MAX_FRAME_MS`].
pub const MAX_SUBSTEPS: u32 = (MAX_FRAME_MS * SIM_HZ + 999) / 1000;

/// The roll cue is sent every this many steps, about twenty times a second.
pub const ROLL_EVERY: u32 = (2 * SIM_HZ + 20) / 40;

/// Steps between two impacts of the same kind (0.13 seconds).
pub const IMPACT_COOLDOWN: u32 = (13 * SIM_HZ + 50) / 100;

/// The step at which the exact pose bits are logged (20 seconds).
pub const PARITY_TICK: u32 = 20 * SIM_HZ;

/// The step cost is logged every this many steps (one minute).
pub const TELEMETRY_EVERY: u32 = 60 * SIM_HZ;

/// Below this height a ball has escaped the table (bits of `-2.0`).
pub const FALL_LIMIT: u32 = 0xc000_0000;

/// Below this normalized roll speed the ball counts as still (bits of `0.04`).
pub const ROLL_FLOOR: u32 = 0x3d23_d70a;

/// The intensity of the faintest impact (bits of `0.12`).
pub const FAINTEST: u32 = 0x3df5_c28f;

/// Full intensity, full speed (bits of `1.0`).
pub const FULL: u32 = 0x3f80_0000;

/// The radius of a dropped ball when the player's collider is no sphere (bits of `0.5`).
pub const DEFAULT_RADIUS: u32 = 0x3f00_0000;

/// The cap on steps per frame, for any step rate.
pub open spec fn max_substeps(hz: int) -> int {
    (MAX_FRAME_MS * hz + 999) / 1000
}

/// The cap covers the longest gap at any step rate: all the whole steps that fit into it can run.
pub proof fn cap_covers_the_longest_gap(hz: int)
    requires
        0 <= hz,
    ensures
        MAX_FRAME_MS * hz / 1000 <= max_substeps(hz),
        max_substeps(SIM_HZ as int) == MAX_SUBSTEPS,
{
}

/// The number of pool workers: three threads are busy already, and four workers are enough.
pub open spec fn workers_for(hardware: i32) -> int {
    if hardware <= 3 {
        0
    } else if hardware >= 7 {
        4
    } else {
        hardware - 3
    }
}

/// The number of pool workers on a machine that runs `hardware` threads at once.
pub fn pool_workers(hardware: i32) -> (n: u32)
    ensures
        n == workers_for(hardware),
        n <= 4,
        n > 0 ==> n + 3 <= hardware,
        n == 4 || n + 3 >= hardware,
{
    if hardware <= 3 {
        0
    } else if hardware >= 7 {
        4
    } else {
        (hardware - 3) as u32
    }
}

/// The pool leaves the threads that are busy alone and takes the rest, four at most: its workers and
/// the three threads never outnumber what the machine runs at once, and a thread is left idle only
/// where there are four workers already. More hardware never means fewer workers.
pub proof fn pool_fits_the_machine(hardware: i32, more: i32)
    ensures
        0 <= workers_for(hardware) <= 4,
        workers_for(hardware) > 0 ==> workers_for(hardware) + 3 <= hardware,
        workers_for(hardware) == 4 || workers_for(hardware) + 3 >= hardware,
        hardware <= more ==> workers_for(hardware) <= workers_for(more),
{
}

/// The number of threads that a world step runs on: the pool and the stepping thread.
pub fn worker_count(pool_workers: u32) -> (n: u32)
    requires
        pool_workers < u32::MAX,
    ensures
        n == pool_workers + 1,
{
    pool_workers + 1
}

/// The static colliders of the scene, in order: the filter that [`static_colliders`] applies.
pub open spec fn statics(colliders: Seq<ColliderInit>) -> Seq<ColliderInit>
    decreases colliders.len(),
{
    if colliders.len() == 0 {
        Seq::empty()
    } else if colliders.last().dynamic {
        statics(colliders.drop_last())
    } else {
        statics(colliders.drop_last()).push(colliders.last())
    }
}

/// The static colliders of the scene, in order.
pub fn static_colliders(colliders: &Vec<ColliderInit>) -> (r: Vec<ColliderInit>)
    ensures
        r@ == statics(colliders@),
        forall|i: int| 0 <= i < r@.len() ==> !(#[trigger] r@[i]).dynamic,
        forall|i: int|
            0 <= i < colliders@.len() && !(#[trigger] colliders@[i]).dynamic ==> r@.contains(
                colliders@[i],
            ),
{
    proof {
        statics_are_all_that_stays(colliders@);
    }
    let mut r: Vec<ColliderInit> = Vec::new();
    for i in 0..colliders.len()
        invariant
            r@ == statics(colliders@.take(i as int)),
    {
        assert(colliders@.take(i + 1).drop_last() =~= colliders@.take(i as int));
        if !colliders[i].dynamic {
            r.push(colliders[i]);
        }
    }
    assert(colliders@.take(colliders@.len() as int) =~= colliders@);
    r
}

/// Picking the static colliders goes collider by collider, in order: of two lists it gives those of
/// the first and then those of the second; of a single one it gives that one, unless it moves.
pub proof fn statics_keep_their_order(a: Seq<ColliderInit>, b: Seq<ColliderInit>, c: ColliderInit)
    ensures
        statics(a + b) == statics(a) + statics(b),
        c.dynamic ==> statics(seq![c]).len() == 0,
        !c.dynamic ==> statics(seq![c]) == seq![c],
    decreases b.len(),
{
    assert(seq![c].drop_last() =~= Seq::empty());
    assert(statics(seq![c].drop_last()) =~= Seq::empty());
    if b.len() == 0 {
        assert(a + b =~= a);
    } else {
        assert((a + b).drop_last() =~= a + b.drop_last());
        statics_keep_their_order(a, b.drop_last(), c);
        assert(statics(a + b) =~= statics(a) + statics(b));
    }
}

/// The static colliders of a scene are those that do not move, all of them and no others.
pub proof fn statics_are_all_that_stays(colliders: Seq<ColliderInit>)
    ensures
        forall|i: int|
            0 <= i < statics(colliders).len() ==> !(#[trigger] statics(colliders)[i]).dynamic
                && colliders.contains(statics(colliders)[i]),
        forall|i: int|
            0 <= i < colliders.len() && !(#[trigger] colliders[i]).dynamic ==> statics(
                colliders,
            ).contains(colliders[i]),
    decreases colliders.len(),
{
    if colliders.len() > 0 {
        let rest = colliders.drop_last();
        let all = statics(colliders);
        statics_are_all_that_stays(rest);
        assert forall|i: int| 0 <= i < all.len() implies !(#[trigger] all[i]).dynamic
            && colliders.contains(all[i]) by {
            if i < statics(rest).len() {
                assert(all[i] == statics(rest)[i]);
                let k = choose|k: int| 0 <= k < rest.len() && rest[k] == statics(rest)[i];
                assert(colliders[k] == all[i]);
            } else {
                assert(colliders[colliders.len() - 1] == all[i]);
            }
        }
        assert forall|i: int| 0 <= i < colliders.len() && !(#[trigger] colliders[i]).dynamic implies
            all.contains(colliders[i]) by {
            if i < rest.len() {
                assert(rest[i] == colliders[i]);
                let k = choose|k: int| 0 <= k < statics(rest).len() && statics(rest)[k] == rest[i];
                assert(all[k] == colliders[i]);
            } else {
                assert(all[all.len() - 1] == colliders[i]);
            }
        }
    }
}

/// The ball: the first dynamic collider, or the error that the scene has none.
pub fn ball_collider(colliders: &Vec<ColliderInit>) -> (ball: Result<ColliderInit, &'static str>)
    ensures
        match ball {
            Ok(c) => exists|i: int|
                #![trigger colliders@[i]]
                0 <= i < colliders@.len() && colliders@[i] == c && c.dynamic && forall|j: int|
                    0 <= j < i ==> !(#[trigger] colliders@[j]).dynamic,
            Err(e) => e@ == "physics: no dynamic collider (ball) in scene"@ && forall|j: int|
                0 <= j < colliders@.len() ==> !(#[trigger] colliders@[j]).dynamic,
        },
{
    for i in 0..colliders.len()
        invariant
            forall|j: int| 0 <= j < i ==> !(#[trigger] colliders@[j]).dynamic,
    {
        if colliders[i].dynamic {
            assert(colliders@[i as int].dynamic);
            return Ok(colliders[i]);
        }
    }
    Err("physics: no dynamic collider (ball) in scene")
}

/// The radius of a dropped ball: the player's, if that is a sphere.
pub fn dropped_radius(ball: &ColliderInit) -> (radius: u32)
    ensures
        radius == (match ball.shape {
            ColliderShapeMsg::Ball { radius } => radius,
            _ => DEFAULT_RADIUS,
        }),
{
    match ball.shape {
        ColliderShapeMsg::Ball { radius } => radius,
        _ => DEFAULT_RADIUS,
    }
}

/// The sides of a round hull.
pub const HULL_SIDES: i32 = 16;

/// What the engine has to build for a collider, in the body's frame. Round hulls stand on the Y
/// axis.
#[derive(Clone, Copy, Debug, PartialEq, Eq)]
pub enum ShapePlan {
    BoxHull { x: u32, y: u32, z: u32 },
    Sphere { center: [u32; 3], radius: u32 },
    Capsule { center1: [u32; 3], center2: [u32; 3], radius: u32 },
    /// A cylinder from `y_offset` upwards.
    Cylinder { height: u32, radius: u32, y_offset: u32, sides: i32 },
    /// A cone from the origin upwards; the engine wants a small top radius.
    Cone { height: u32, radius: u32, sides: i32 },
}

/// What the engine has to build for a collider.
pub fn create_shape(shape: &ColliderShapeMsg) -> (plan: ShapePlan)
    ensures
        match *shape {
            ColliderShapeMsg::Cuboid { half_extents } => plan == (ShapePlan::BoxHull {
                x: half_extents@[0],
                y: half_extents@[1],
                z: half_extents@[2],
            }),
            ColliderShapeMsg::Ball { radius } => plan == (ShapePlan::Sphere {
                center: [0u32, 0, 0],
                radius,
            }),
            ColliderShapeMsg::Capsule { half_height, radius } => plan == (ShapePlan::Capsule {
                center1: [0u32, crate::bits::negated(half_height), 0],
                center2: [0u32, half_height, 0],
                radius,
            }),
            ColliderShapeMsg::Cylinder { half_height, radius: r } => plan matches
                ShapePlan::Cylinder { height, radius, y_offset, sides } && radius == r && sides
                == HULL_SIDES && y_offset == crate::bits::negated(half_height)
                && doubles(height, half_height),
            ColliderShapeMsg::Cone { half_height, radius: r } => plan matches ShapePlan::Cone {
                height,
                radius,
                sides,
            } && radius == r && sides == HULL_SIDES && doubles(height, half_height),
        },
{
    match *shape {
        ColliderShapeMsg::Cuboid { half_extents } => ShapePlan::BoxHull {
            x: half_extents[0],
            y: half_extents[1],
            z: half_extents[2],
        },
        ColliderShapeMsg::Ball { radius } => ShapePlan::Sphere { center: [0, 0, 0], radius },
        ColliderShapeMsg::Capsule { half_height, radius } => ShapePlan::Capsule {
            center1: [0, float_negate(half_height), 0],
            center2: [0, half_height, 0],
            radius,
        },
        ColliderShapeMsg::Cylinder { half_height, radius } => ShapePlan::Cylinder {
            height: float_double(half_height),
            radius,
            y_offset: float_negate(half_height),
            sides: HULL_SIDES,
        },
        ColliderShapeMsg::Cone { half_height, radius } => ShapePlan::Cone {
            height: float_double(half_height),
            radius,
            sides: HULL_SIDES,
        },
    }
}

/// The float `twice` is two times the float `x`: exactly, or infinite where that is too large.
pub open spec fn doubles(twice: u32, x: u32) -> bool {
    &&& crate::bits::is_nan(x) ==> twice == x
    &&& !crate::bits::is_nan(x) ==> crate::bits::is_negative(twice) == crate::bits::is_negative(x)
    &&& crate::bits::magnitude(x) <= crate::bits::LARGEST_HALF ==> crate::bits::value(twice) == 2
        * crate::bits::value(x) && crate::bits::magnitude(twice) < crate::bits::INFINITY_BITS
    &&& crate::bits::LARGEST_HALF < crate::bits::magnitude(x) <= crate::bits::INFINITY_BITS
        ==> crate::bits::magnitude(twice) == crate::bits::INFINITY_BITS
}

/// Capsules and cylinders are centred on their body: they reach as far down as up.
pub proof fn round_shapes_are_centred(half_height: u32)
    ensures
        crate::bits::value(crate::bits::negated(half_height)) == -crate::bits::value(half_height),
        forall|height: u32|
            crate::bits::magnitude(half_height) <= crate::bits::LARGEST_HALF && #[trigger] doubles(
                height,
                half_height,
            ) ==> crate::bits::value(crate::bits::negated(half_height)) + crate::bits::value(height)
                == crate::bits::value(half_height),
{
}

/// Whether the engine gave the ball a mass that impulses can be scaled by: a finite number above
/// zero.
pub fn has_mass(mass: u32) -> (r: bool)
    ensures
        r == (crate::bits::less(0, mass) && mass != crate::bits::INFINITY_BITS),
        r <==> 0 < mass < 0x7f80_0000,
{
    proof {
        crate::bits::floats_order_by_value(mass, 0);
        crate::bits::floats_order_by_value(0, mass);
    }
    float_less(0, mass) && mass != crate::bits::INFINITY_BITS
}

/// How far one frame's catching-up has come.
#[derive(Clone, Copy, Debug, PartialEq, Eq)]
pub struct CatchUp {
    pub substeps: u32,
}

impl CatchUp {
    /// A frame that has run no step yet.
    pub fn new() -> (c: CatchUp)
        ensures
            c.substeps == 0,
    {
        CatchUp { substeps: 0 }
    }

    /// Whether to run another step, when the time that is left buys one (`due`). Counts the step.
    pub fn next_step(&mut self, due: bool) -> (run: bool)
        requires
            old(self).substeps <= MAX_SUBSTEPS,
        ensures
            run == (due && old(self).substeps < MAX_SUBSTEPS),
            final(self).substeps == old(self).substeps + (if run {
                1int
            } else {
                0int
            }),
            final(self).substeps <= MAX_SUBSTEPS,
    {
        if due && self.substeps < MAX_SUBSTEPS {
            self.substeps = self.substeps + 1;
            true
        } else {
            false
        }
    }

    /// Whether the frame hit the cap, so that the time that is left is dropped.
    pub fn drops_backlog(&self) -> (drop: bool)
        ensures
            drop == (self.substeps == MAX_SUBSTEPS),
    {
        self.substeps == MAX_SUBSTEPS
    }
}

/// The number of steps that a frame runs when time for `due` steps is there.
pub open spec fn steps_run(due: nat) -> nat {
    if due < MAX_SUBSTEPS {
        due
    } else {
        MAX_SUBSTEPS as nat
    }
}

/// The counter of a frame after it was asked `asked` times with `due` steps due.
pub open spec fn substeps_after(due: nat, asked: nat) -> nat
    decreases asked,
{
    if asked == 0 {
        0
    } else {
        let before = substeps_after(due, (asked - 1) as nat);
        if before < due && before < MAX_SUBSTEPS {
            before + 1
        } else {
            before
        }
    }
}

/// A frame runs every step that is due, up to the cap, and never more: there is no spiral.
pub proof fn frame_runs_what_is_due(due: nat, asked: nat)
    ensures
        substeps_after(due, asked) == (if asked < steps_run(due) {
            asked
        } else {
            steps_run(due)
        }),
        substeps_after(due, asked) <= due,
        substeps_after(due, asked) <= asked,
        substeps_after(due, asked) <= MAX_SUBSTEPS,
        substeps_after(due, asked) == due || substeps_after(due, asked) == asked || substeps_after(
            due,
            asked,
        ) == MAX_SUBSTEPS,
    decreases asked,
{
    if asked > 0 {
        frame_runs_what_is_due(due, (asked - 1) as nat);
    }
}

/// The time that a frame has to spend, with `carry` left over from the frame before and `elapsed`
/// since, in any unit; `longest` is the most that one frame absorbs.
pub open spec fn frame_budget(carry: int, elapsed: int, longest: int) -> int {
    carry + if elapsed < longest {
        elapsed
    } else {
        longest
    }
}

/// The time that is left after a frame: what its steps did not use, or nothing where it hit the cap
/// and the backlog was dropped.
pub open spec fn carry_after(budget: int, dt: int) -> int {
    let n = steps_run((budget / dt) as nat);
    if n == MAX_SUBSTEPS {
        0
    } else {
        budget - n * dt
    }
}

/// With exact times, a frame runs no more steps than the cap and than its time buys, and leaves
/// less time than a step takes: at the cap nothing, otherwise what the steps did not use.
pub proof fn carry_is_less_than_a_step(carry: int, elapsed: int, longest: int, dt: int)
    requires
        0 < dt,
        0 <= carry < dt,
        0 <= elapsed,
        0 <= longest,
    ensures
        ({
            let budget = frame_budget(carry, elapsed, longest);
            let n = steps_run((budget / dt) as nat);
            &&& n <= MAX_SUBSTEPS
            &&& n * dt <= budget
            &&& n == MAX_SUBSTEPS ==> carry_after(budget, dt) == 0
            &&& n < MAX_SUBSTEPS ==> carry_after(budget, dt) == budget - n * dt
            &&& 0 <= carry_after(budget, dt) < dt
        }),
{
    let budget = frame_budget(carry, elapsed, longest);
    let due = budget / dt;
    let n = steps_run(due as nat);
    assert(0 <= due && due * dt <= budget < (due + 1) * dt) by (nonlinear_arith)
        requires
            0 < dt,
            0 <= budget,
            due == budget / dt,
    ;
    assert(n * dt <= due * dt) by (nonlinear_arith)
        requires
            0 <= n <= due,
            0 < dt,
    ;
    assert((due + 1) * dt == due * dt + dt) by (nonlinear_arith);
}

/// A frame publishes consecutive steps: from a simulation at `tick`, the steps that
/// [`Sim::begin_step`] gives are those that follow it one by one, and after a frame of as many steps
/// as there are poses, the latest step of the ring has grown by their number.
pub proof fn frame_publishes_consecutive_steps(
    tick: u32,
    ring: crate::pose_ring::RingView,
    poses: Seq<([u32; 3], [u32; 4])>,
)
    requires
        ring.settled(),
        0 < poses.len() <= MAX_SUBSTEPS,
    ensures
        forall|i: nat|
            i < poses.len() ==> #[trigger] crate::body_motion::bumped(tick, i + 1)
                == crate::pose_ring::run_step(tick.wrapping_add(1), i as int),
        ring.published_run(tick.wrapping_add(1), poses).latest.wrapping_sub(tick) == poses.len(),
{
    assert forall|i: nat| i < poses.len() implies #[trigger] crate::body_motion::bumped(tick, i + 1)
        == crate::pose_ring::run_step(tick.wrapping_add(1), i as int) by {
        crate::body_motion::bumped_is_sum(tick, i + 1);
    }
    crate::pose_ring::ring_keeps_the_last_poses(ring, tick.wrapping_add(1), poses, 0);
}

/// One component of the direction that the held keys ask for.
pub open spec fn axis(held: u32, plus: u32, minus: u32) -> int {
    (if held & plus != 0 {
        1int
    } else {
        0
    }) - (if held & minus != 0 {
        1int
    } else {
        0
    })
}

/// The direction that the held keys ask for, in the camera frame: x to the right, z towards the
/// camera. Opposite keys cancel.
pub fn held_direction(held: u32) -> (dir: (i32, i32))
    ensures
        dir.0 == axis(held, HELD_RIGHT, HELD_LEFT),
        dir.1 == axis(held, HELD_BACK, HELD_FORWARD),
        dir.0 == 1 <==> held & 8 != 0 && held & 4 == 0,
        dir.0 == -1 <==> held & 4 != 0 && held & 8 == 0,
        dir.0 == 0 <==> (held & 4 != 0) == (held & 8 != 0),
        dir.1 == 1 <==> held & 2 != 0 && held & 1 == 0,
        dir.1 == -1 <==> held & 1 != 0 && held & 2 == 0,
        dir.1 == 0 <==> (held & 1 != 0) == (held & 2 != 0),
{
    let mut x: i32 = 0;
    let mut z: i32 = 0;
    if held & HELD_FORWARD != 0 {
        z = z - 1;
    }
    if held & HELD_BACK != 0 {
        z = z + 1;
    }
    if held & HELD_LEFT != 0 {
        x = x - 1;
    }
    if held & HELD_RIGHT != 0 {
        x = x + 1;
    }
    (x, z)
}

/// Whether a ball has fallen off the table.
pub fn has_escaped(y: u32) -> (r: bool)
    ensures
        r == crate::bits::less(y, FALL_LIMIT),
        r <==> !crate::bits::is_nan(y) && crate::bits::value(y) < crate::bits::value(
            0xc000_0000u32,
        ),
{
    float_less(y, FALL_LIMIT)
}

/// The intensity of an impact from its approach speed over the speed of a full impact.
pub fn intensity(relative_speed: u32) -> (r: u32)
    ensures
        r == crate::bits::clamped(relative_speed, FAINTEST, FULL),
        crate::bits::held_within(r, relative_speed, (0x3df5_c28fu32, 0x3f80_0000u32)),
{
    proof {
        crate::bits::floats_order_by_value(FAINTEST, FULL);
        if !crate::bits::is_nan(relative_speed) {
            crate::bits::clamped_lies_between(relative_speed, FAINTEST, FULL);
        }
    }
    float_clamp(relative_speed, FAINTEST, FULL)
}

/// The speed that the roll cue carries: nothing in the air, nothing below the floor, at most full.
pub open spec fn cue_speed(grounded: bool, relative_speed: u32) -> u32 {
    let speed = if grounded {
        crate::bits::clamped(relative_speed, 0, FULL)
    } else {
        0
    };
    if crate::bits::less(speed, ROLL_FLOOR) {
        0
    } else {
        speed
    }
}

/// The speed that the roll cue carries, from the horizontal speed over the full speed.
pub fn roll_speed(grounded: bool, relative_speed: u32) -> (r: u32)
    ensures
        r == cue_speed(grounded, relative_speed),
        !grounded ==> r == 0,
        grounded && !crate::bits::is_nan(relative_speed) ==> r == (if crate::bits::value(
            relative_speed,
        ) < crate::bits::value(0x3d23_d70au32) {
            0
        } else if crate::bits::value(relative_speed) > crate::bits::value(0x3f80_0000u32) {
            0x3f80_0000u32
        } else {
            relative_speed
        }),
{
    proof {
        roll_cue_speaks_of_rolling(grounded, relative_speed);
    }
    let speed: u32 = if grounded {
        float_clamp(relative_speed, 0, FULL)
    } else {
        0
    };
    if float_less(speed, ROLL_FLOOR) {
        0
    } else {
        speed
    }
}

/// The roll cue speaks of rolling alone: in the air it is silent, and so it is below the roll floor
/// (`0.04`); above full speed it is at full; between the two it carries the speed as it is. A speed
/// that is no number passes as it is.
pub proof fn roll_cue_speaks_of_rolling(grounded: bool, relative_speed: u32)
    ensures
        !grounded ==> cue_speed(grounded, relative_speed) == 0,
        grounded && !crate::bits::is_nan(relative_speed) ==> {
            let v = crate::bits::value(relative_speed);
            let cue = cue_speed(grounded, relative_speed);
            &&& v < crate::bits::value(0x3d23_d70au32) ==> cue == 0
            &&& v > crate::bits::value(0x3f80_0000u32) ==> cue == 0x3f80_0000u32
            &&& crate::bits::value(0x3d23_d70au32) <= v <= crate::bits::value(0x3f80_0000u32)
                ==> cue == relative_speed
        },
        crate::bits::is_nan(relative_speed) && grounded ==> cue_speed(grounded, relative_speed)
            == relative_speed,
{
    crate::bits::floats_order_by_value(0, ROLL_FLOOR);
    crate::bits::floats_order_by_value(ROLL_FLOOR, FULL);
    if !crate::bits::is_nan(relative_speed) {
        crate::bits::clamped_lies_between(relative_speed, 0, FULL);
    }
}

/// A shape of the physics engine.
#[derive(Clone, Copy, Debug, PartialEq, Eq, Structural)]
pub struct ShapeKey {
    pub index1: i32,
    pub world0: u16,
    pub generation: u16,
}

/// Two shapes began to touch.
#[derive(Clone, Copy, Debug, PartialEq, Eq)]
pub struct Touch {
    pub a: ShapeKey,
    pub b: ShapeKey,
    pub role_a: u8,
    pub role_b: u8,
}

/// Two shapes parted.
#[derive(Clone, Copy, Debug, PartialEq, Eq)]
pub struct Parting {
    pub a: ShapeKey,
    pub b: ShapeKey,
}

/// What an impact sounds like.
#[derive(Clone, Copy, Debug, PartialEq, Eq)]
pub enum Impact {
    WallHit,
    Land,
    BallClack,
}

/// The surface that gives an impact its voice: a rail before the floor, the floor before a ball.
pub open spec fn voice(role_a: u8, role_b: u8) -> Impact {
    if role_a == ROLE_WALL || role_b == ROLE_WALL {
        Impact::WallHit
    } else if role_a == ROLE_FLOOR || role_b == ROLE_FLOOR {
        Impact::Land
    } else {
        Impact::BallClack
    }
}

/// The contacts of the ball after some pairs began to touch: the other shape of each pair that the
/// ball is part of, with its role.
pub open spec fn touched(contacts: Map<i32, u8>, ball: ShapeKey, begins: Seq<Touch>) -> Map<i32, u8>
    decreases begins.len(),
{
    if begins.len() == 0 {
        contacts
    } else {
        let before = touched(contacts, ball, begins.drop_last());
        let t = begins.last();
        if t.a == ball {
            before.insert(t.b.index1, t.role_b)
        } else if t.b == ball {
            before.insert(t.a.index1, t.role_a)
        } else {
            before
        }
    }
}

/// The contacts of the ball after some pairs parted.
pub open spec fn parted(contacts: Map<i32, u8>, ball: ShapeKey, ends: Seq<Parting>) -> Map<i32, u8>
    decreases ends.len(),
{
    if ends.len() == 0 {
        contacts
    } else {
        let before = parted(contacts, ball, ends.drop_last());
        let t = ends.last();
        if t.a == ball {
            before.remove(t.b.index1)
        } else if t.b == ball {
            before.remove(t.a.index1)
        } else {
            before
        }
    }
}

/// One of the contacts is no wall.
pub open spec fn carried(contacts: Map<i32, u8>) -> bool {
    exists|k: i32| #[trigger] contacts.dom().contains(k) && contacts[k] != ROLE_WALL
}

/// What a poll of the drop requests asks for.
#[derive(Clone, Copy, Debug, PartialEq, Eq)]
pub enum DropOrder {
    Nothing,
    /// The balls are used up.
    Ignored,
    /// Create the ball `index` above the table position `(x, z)`.
    Spawn { index: usize, x: u32, z: u32 },
}

/// What the input asks for in one step.
#[derive(Clone, Copy, Debug, PartialEq, Eq)]
pub struct Controls {
    /// The direction to roll to, in the camera frame, with the camera yaw; `None` when no key is
    /// held or they cancel.
    pub roll: Option<(i32, i32, u32)>,
    pub jump: bool,
    /// The velocity of a swipe, in the camera frame, with the camera yaw.
    pub fling: Option<(u32, u32, u32)>,
}

/// The simulation's state between steps.
pub struct Sim {
    pub ball: ShapeKey,
    /// Steps so far, wrapping.
    pub tick: u32,
    pub last_drop_seq: u32,
    pub last_jump_seq: u32,
    pub last_fling_seq: u32,
    /// Balls dropped so far.
    pub dropped: usize,
    /// The shapes that the ball touches, with their roles.
    pub contacts: HashMap<i32, u8>,
    /// The step of the last impact of each kind.
    pub last_wall_tick: u32,
    pub last_land_tick: u32,
    pub last_clack_tick: u32,
}

impl Sim {
    /// The number of dropped balls is within bounds.
    pub open spec fn wf(self) -> bool {
        self.dropped <= MAX_BALLS
    }

    /// The jump counter moved since the last poll.
    pub open spec fn jump_due(self, jump_seq: u32) -> bool {
        jump_seq != self.last_jump_seq
    }

    /// The state after a poll that saw the jump counter.
    pub open spec fn after_jumps(self, jump_seq: u32) -> Sim {
        Sim { last_jump_seq: jump_seq, ..self }
    }

    /// The step of the last impact of a kind.
    pub open spec fn last_tick(self, kind: Impact) -> u32 {
        match kind {
            Impact::WallHit => self.last_wall_tick,
            Impact::Land => self.last_land_tick,
            Impact::BallClack => self.last_clack_tick,
        }
    }

    /// The state is the same but for the last step of impacts of one kind.
    pub open spec fn noted(self, kind: Impact, before: Sim) -> bool {
        &&& self.ball == before.ball
        &&& self.tick == before.tick
        &&& self.last_drop_seq == before.last_drop_seq
        &&& self.last_jump_seq == before.last_jump_seq
        &&& self.last_fling_seq == before.last_fling_seq
        &&& self.dropped == before.dropped
        &&& self.contacts == before.contacts
        &&& kind !is WallHit ==> self.last_wall_tick == before.last_wall_tick
        &&& kind !is Land ==> self.last_land_tick == before.last_land_tick
        &&& kind !is BallClack ==> self.last_clack_tick == before.last_clack_tick
    }

    /// A simulation that has run no step. The counters of the input start at what the block holds,
    /// so that nothing pressed before the start counts.
    pub fn new(ball: ShapeKey, jump_seq: u32, fling_seq: u32) -> (sim: Sim)
        ensures
            sim.wf(),
            sim.ball == ball,
            sim.tick == 0,
            sim.last_drop_seq == 0,
            sim.last_jump_seq == jump_seq,
            sim.last_fling_seq == fling_seq,
            sim.dropped == 0,
            sim.contacts@ == Map::<i32, u8>::empty(),
            sim.last_wall_tick == 0,
            sim.last_land_tick == 0,
            sim.last_clack_tick == 0,
    {
        Sim {
            ball,
            tick: 0,
            last_drop_seq: 0,
            last_jump_seq: jump_seq,
            last_fling_seq: fling_seq,
            dropped: 0,
            contacts: HashMap::new(),
            last_wall_tick: 0,
            last_land_tick: 0,
            last_clack_tick: 0,
        }
    }

    /// A step begins: it is the next tick, which is also the absolute step of its poses.
    pub fn begin_step(&mut self) -> (step: u32)
        ensures
            step == old(self).tick.wrapping_add(1),
            *final(self) == (Sim { tick: step, ..*old(self) }),
    {
        self.tick = self.tick.wrapping_add(1);
        self.tick
    }

    /// What a drop request asks for: the next ball, or nothing once they are used up.
    pub fn order_drop(&mut self, request: Option<(u32, u32)>) -> (order: DropOrder)
        requires
            old(self).wf(),
        ensures
            final(self).wf(),
            order == (match request {
                None => DropOrder::Nothing,
                Some((x, z)) => if old(self).dropped < MAX_BALLS {
                    DropOrder::Spawn { index: old(self).dropped, x, z }
                } else {
                    DropOrder::Ignored
                },
            }),
            *final(self) == (Sim {
                dropped: if order is Spawn {
                    (old(self).dropped + 1) as usize
                } else {
                    old(self).dropped
                },
                ..*old(self)
            }),
    {
        match request {
            None => DropOrder::Nothing,
            Some((x, z)) => {
                if self.dropped < MAX_BALLS {
                    let index: usize = self.dropped;
                    self.dropped = index + 1;
                    DropOrder::Spawn { index, x, z }
                } else {
                    DropOrder::Ignored
                }
            },
        }
    }

    /// Polls the drop block for a request.
    pub fn poll_drop(&mut self, port: &mut Port, balls: &BallsBlock) -> (order: DropOrder)
        requires
            old(self).wf(),
            balls.fits(old(port).size()),
        ensures
            final(self).wf(),
            exists|request: Option<(u32, u32)>|
                {
                    &&& #[trigger] ordered(
                        *old(self),
                        *final(self),
                        final(self).last_drop_seq,
                        request,
                        order,
                    )
                    &&& final(port).extends(
                        *old(port),
                        balls.drop_request().poll_events(
                            (crate::edge::Poll {
                                seq: final(self).last_drop_seq,
                                values: request,
                            }),
                        ),
                    )
                },
    {
        let ghost before = *self;
        let mut seq: u32 = self.last_drop_seq;
        let request = balls.poll_drop(port, &mut seq);
        self.last_drop_seq = seq;
        let order = self.order_drop(request);
        assert(self.last_drop_seq == seq);
        assert(ordered(before, *self, self.last_drop_seq, request, order));
        order
    }

    /// What the input asks for, given what its block holds.
    pub fn control(
        &mut self,
        held: u32,
        jump_seq: u32,
        fling: Option<(u32, u32)>,
        roll_yaw: u32,
        fling_yaw: u32,
    ) -> (controls: Controls)
        ensures
            controls == asked(held, old(self).jump_due(jump_seq), fling, roll_yaw, fling_yaw),
            *final(self) == old(self).after_jumps(jump_seq),
            controls.jump <==> jump_seq != old(self).last_jump_seq,
            final(self).last_jump_seq == jump_seq,
            *final(self) == (Sim { last_jump_seq: jump_seq, ..*old(self) }),
            controls.roll is None <==> (held & 4 != 0) == (held & 8 != 0) && (held & 1 != 0) == (held
                & 2 != 0),
            controls.roll matches Some(roll) ==> {
                &&& roll.0 == 1 <==> held & 8 != 0 && held & 4 == 0
                &&& roll.0 == -1 <==> held & 4 != 0 && held & 8 == 0
                &&& roll.1 == 1 <==> held & 2 != 0 && held & 1 == 0
                &&& roll.1 == -1 <==> held & 1 != 0 && held & 2 == 0
                &&& -1 <= roll.0 <= 1 && -1 <= roll.1 <= 1
                &&& roll.2 == roll_yaw
            },
            controls.fling is Some <==> fling is Some,
            controls.fling matches Some(f) ==> fling == Some((f.0, f.1)) && f.2 == fling_yaw,
    {
        let (x, z) = held_direction(held);
        let jump: bool = jump_seq != self.last_jump_seq;
        self.last_jump_seq = jump_seq;
        Controls {
            roll: if x != 0 || z != 0 {
                Some((x, z, roll_yaw))
            } else {
                None
            },
            jump,
            fling: match fling {
                Some((fx, fz)) => Some((fx, fz, fling_yaw)),
                None => None,
            },
        }
    }

    /// Polls the input block.
    pub fn poll_input(&mut self, port: &mut Port, input: &InputBlock) -> (controls: Controls)
        requires
            input.fits(old(port).size()),
        ensures
            exists|seen: InputSeen|
                {
                    &&& final(port).extends(*old(port), #[trigger] seen.events(*input))
                    &&& seen.fling is None <==> seen.fling_seq == old(self).last_fling_seq
                    &&& controls == asked(
                        seen.held,
                        old(self).jump_due(seen.jump_seq),
                        seen.fling,
                        seen.roll_yaw,
                        seen.fling_yaw,
                    )
                    &&& *final(self) == (Sim {
                        last_jump_seq: seen.jump_seq,
                        last_fling_seq: seen.fling_seq,
                        ..*old(self)
                    })
                },
    {
        let held: u32 = input.held(port);
        let (x, z) = held_direction(held);
        let mut roll_yaw: u32 = 0;
        if x != 0 || z != 0 {
            roll_yaw = input.camera_yaw(port);
        }
        let jump_seq: u32 = input.jump_seq(port);
        let mut fling_seq: u32 = self.last_fling_seq;
        let fling = input.poll_fling(port, &mut fling_seq);
        self.last_fling_seq = fling_seq;
        let mut fling_yaw: u32 = 0;
        if fling.is_some() {
            fling_yaw = input.camera_yaw(port);
        }
        proof {
            let seen = InputSeen { held, roll_yaw, jump_seq, fling_seq, fling, fling_yaw };
            assert(port.trace() =~= old(port).trace() + seen.events(*input));
            assert(port.extends(*old(port), seen.events(*input)));
        }
        self.control(held, jump_seq, fling, roll_yaw, fling_yaw)
    }

    /// The ball was put back to its spawn: it touches nothing.
    pub fn respawn(&mut self)
        ensures
            final(self).contacts@ == Map::<i32, u8>::empty(),
            *final(self) == (Sim { contacts: final(self).contacts, ..*old(self) }),
    {
        self.contacts.clear();
    }

    /// Takes in the contact events of a step: first the pairs that began to touch, then those that
    /// parted.
    pub fn note_contacts(&mut self, begins: &Vec<Touch>, ends: &Vec<Parting>)
        ensures
            final(self).contacts@ == parted(
                touched(old(self).contacts@, old(self).ball, begins@),
                old(self).ball,
                ends@,
            ),
            *final(self) == (Sim { contacts: final(self).contacts, ..*old(self) }),
    {
        broadcast use vstd::std_specs::hash::group_hash_axioms;

        let ghost start = self.contacts@;
        assert(begins@.take(0) =~= Seq::<Touch>::empty());
        for i in 0..begins.len()
            invariant
                start == old(self).contacts@,
                self.contacts@ == touched(start, self.ball, begins@.take(i as int)),
                *self == (Sim { contacts: self.contacts, ..*old(self) }),
        {
            let t: Touch = begins[i];
            assert(begins@.take(i + 1).drop_last() =~= begins@.take(i as int));
            if t.a == self.ball {
                self.contacts.insert(t.b.index1, t.role_b);
            } else if t.b == self.ball {
                self.contacts.insert(t.a.index1, t.role_a);
            }
        }
        assert(begins@.take(begins@.len() as int) =~= begins@);
        let ghost mid = self.contacts@;
        assert(ends@.take(0) =~= Seq::<Parting>::empty());
        for i in 0..ends.len()
            invariant
                self.contacts@ == parted(mid, self.ball, ends@.take(i as int)),
                *self == (Sim { contacts: self.contacts, ..*old(self) }),
        {
            let t: Parting = ends[i];
            assert(ends@.take(i + 1).drop_last() =~= ends@.take(i as int));
            if t.a == self.ball {
                self.contacts.remove(&t.b.index1);
            } else if t.b == self.ball {
                self.contacts.remove(&t.a.index1);
            }
        }
        assert(ends@.take(ends@.len() as int) =~= ends@);
    }

    /// Whether the ball rests on something: it touches a shape that is no wall.
    pub fn grounded(&self) -> (r: bool)
        ensures
            r == exists|k: i32| #[trigger]
                self.contacts@.dom().contains(k) && self.contacts@[k] != ROLE_WALL,
            r == carried(self.contacts@),
    {
        broadcast use vstd::std_specs::hash::group_hash_axioms;

        let mut r: bool = false;
        for role in it: self.contacts.values()
            invariant
                it.seq().unref().to_set() == self.contacts@.values(),
                r ==> exists|v: u8| #[trigger]
                    self.contacts@.values().contains(v) && v != ROLE_WALL,
                !r ==> forall|j: int|
                    0 <= j < it.index() ==> #[trigger] it.seq().unref()[j] == ROLE_WALL,
                !r && it.index() == it.seq().len() ==> forall|v: u8| #[trigger]
                    self.contacts@.values().contains(v) ==> v == ROLE_WALL,
        {
            if *role != ROLE_WALL {
                proof {
                    let roles = it.seq().unref();
                    assert(roles[it.index() as int] == *role);
                    assert(roles.to_set().contains(*role));
                }
                r = true;
            }
        }
        proof {
            if !r {
                assert forall|k: i32| #[trigger] self.contacts@.dom().contains(k) implies
                    self.contacts@[k] == ROLE_WALL by {
                    assert(self.contacts@.values().contains(self.contacts@[k]));
                }
            }
        }
        r
    }

    /// Takes in an impact between shapes of the given roles: the sound that it makes, unless one
    /// of its kind was just heard.
    pub fn hit(&mut self, role_a: u8, role_b: u8) -> (cue: Option<Impact>)
        ensures
            cue == (if old(self).tick.wrapping_sub(old(self).last_tick(voice(role_a, role_b)))
                >= IMPACT_COOLDOWN {
                Some(voice(role_a, role_b))
            } else {
                None
            }),
            final(self).noted(voice(role_a, role_b), *old(self)),
            final(self).last_tick(voice(role_a, role_b)) == (if cue is Some {
                old(self).tick
            } else {
                old(self).last_tick(voice(role_a, role_b))
            }),
            role_a == ROLE_WALL || role_b == ROLE_WALL ==> {
                &&& cue == (if old(self).tick.wrapping_sub(old(self).last_wall_tick)
                    >= IMPACT_COOLDOWN {
                    Some(Impact::WallHit)
                } else {
                    None
                })
                &&& cue is Some ==> *final(self) == (Sim {
                    last_wall_tick: old(self).tick,
                    ..*old(self)
                })
            },
            role_a != ROLE_WALL && role_b != ROLE_WALL && (role_a == ROLE_FLOOR || role_b
                == ROLE_FLOOR) ==> {
                &&& cue == (if old(self).tick.wrapping_sub(old(self).last_land_tick)
                    >= IMPACT_COOLDOWN {
                    Some(Impact::Land)
                } else {
                    None
                })
                &&& cue is Some ==> *final(self) == (Sim {
                    last_land_tick: old(self).tick,
                    ..*old(self)
                })
            },
            role_a != ROLE_WALL && role_b != ROLE_WALL && role_a != ROLE_FLOOR && role_b
                != ROLE_FLOOR ==> {
                &&& cue == (if old(self).tick.wrapping_sub(old(self).last_clack_tick)
                    >= IMPACT_COOLDOWN {
                    Some(Impact::BallClack)
                } else {
                    None
                })
                &&& cue is Some ==> *final(self) == (Sim {
                    last_clack_tick: old(self).tick,
                    ..*old(self)
                })
            },
            cue is None ==> *final(self) == *old(self),
    {
        if role_a == ROLE_WALL || role_b == ROLE_WALL {
            if self.tick.wrapping_sub(self.last_wall_tick) >= IMPACT_COOLDOWN {
                self.last_wall_tick = self.tick;
                return Some(Impact::WallHit);
            }
        } else if role_a == ROLE_FLOOR || role_b == ROLE_FLOOR {
            if self.tick.wrapping_sub(self.last_land_tick) >= IMPACT_COOLDOWN {
                self.last_land_tick = self.tick;
                return Some(Impact::Land);
            }
        } else if self.tick.wrapping_sub(self.last_clack_tick) >= IMPACT_COOLDOWN {
            self.last_clack_tick = self.tick;
            return Some(Impact::BallClack);
        }
        None
    }

    /// Whether this step sends the roll cue.
    pub fn roll_due(&self) -> (r: bool)
        ensures
            r == (self.tick % ROLL_EVERY == 0),
    {
        self.tick % ROLL_EVERY == 0
    }

    /// Whether this step logs the cost of the steps since the last time.
    pub fn telemetry_due(&self, measured: u32) -> (r: bool)
        ensures
            r == (self.tick % TELEMETRY_EVERY == 0 && measured > 0),
    {
        self.tick % TELEMETRY_EVERY == 0 && measured > 0
    }

    /// Whether this step logs its exact pose bits.
    pub fn parity_due(&self) -> (r: bool)
        ensures
            r == (self.tick == PARITY_TICK),
    {
        self.tick == PARITY_TICK
    }
}

/// What a simulation makes of a drop request, when its counter moved to `seq`.
pub open spec fn ordered(
    before: Sim,
    after: Sim,
    seq: u32,
    request: Option<(u32, u32)>,
    order: DropOrder,
) -> bool {
    &&& request is None <==> seq == before.last_drop_seq
    &&& order == (match request {
        None => DropOrder::Nothing,
        Some((x, z)) => if before.dropped < MAX_BALLS {
            DropOrder::Spawn { index: before.dropped, x, z }
        } else {
            DropOrder::Ignored
        },
    })
    &&& after == (Sim {
        last_drop_seq: seq,
        dropped: if order is Spawn {
            (before.dropped + 1) as usize
        } else {
            before.dropped
        },
        ..before
    })
}

/// What the input asks for: the direction of the held keys and the yaw, whether the jump counter
/// moved, and a swipe with the yaw.
pub open spec fn asked(
    held: u32,
    jump: bool,
    fling: Option<(u32, u32)>,
    roll_yaw: u32,
    fling_yaw: u32,
) -> Controls {
    let x = axis(held, HELD_RIGHT, HELD_LEFT);
    let z = axis(held, HELD_BACK, HELD_FORWARD);
    Controls {
        roll: if x != 0 || z != 0 {
            Some((x as i32, z as i32, roll_yaw))
        } else {
            None
        },
        jump,
        fling: match fling {
            Some((fx, fz)) => Some((fx, fz, fling_yaw)),
            None => None,
        },
    }
}

/// What one poll saw of the input block.
pub struct InputSeen {
    pub held: u32,
    pub roll_yaw: u32,
    pub jump_seq: u32,
    pub fling_seq: u32,
    pub fling: Option<(u32, u32)>,
    pub fling_yaw: u32,
}

impl InputSeen {
    /// The accesses of the poll: the yaw is looked at when keys ask for a direction, and again
    /// when there is a swipe.
    pub open spec fn events(self, input: InputBlock) -> Seq<crate::shared::Event> {
        let rolls = axis(self.held, HELD_RIGHT, HELD_LEFT) != 0 || axis(
            self.held,
            HELD_BACK,
            HELD_FORWARD,
        ) != 0;
        let none = Seq::<crate::shared::Event>::empty();
        seq![crate::blocks::look(input.at as int, self.held)] + (if rolls {
            seq![crate::blocks::look(input.at + 2, self.roll_yaw)]
        } else {
            none
        }) + seq![crate::blocks::look(input.at + 1, self.jump_seq)] + input.fling().poll_events(
            (crate::edge::Poll { seq: self.fling_seq, values: self.fling }),
        ) + (if self.fling is Some {
            seq![crate::blocks::look(input.at + 2, self.fling_yaw)]
        } else {
            none
        })
    }
}

/// A poll that nothing interferes with sees the input block as it is: the held keys, the jump
/// counter, a swipe exactly when its counter moved since `last_fling_seq` and then the one that the
/// block holds, and the yaw wherever it goes with a roll or a swipe. It changes nothing.
pub proof fn undisturbed_input_poll(
    mem: Seq<u32>,
    block: InputBlock,
    state: crate::input_state::InputState,
    seen: InputSeen,
    last_fling_seq: u32,
)
    requires
        crate::blocks::holds_input(mem, block, state),
        crate::shared::undisturbed(mem, seen.events(block)),
        seen.fling is None <==> seen.fling_seq == last_fling_seq,
    ensures
        seen.held == state.held,
        seen.jump_seq == state.jump_seq,
        seen.fling_seq == state.fling_seq,
        seen.fling == (if state.fling_seq == last_fling_seq {
            None
        } else {
            Some((state.fling_x, state.fling_z))
        }),
        ({
            let c = asked(state.held, false, seen.fling, seen.roll_yaw, seen.fling_yaw);
            &&& c.roll matches Some(roll) ==> roll.2 == state.camera_yaw
            &&& c.fling matches Some(fling) ==> fling.2 == state.camera_yaw
        }),
        crate::shared::run(mem, seen.events(block)) == mem,
{
    let events = seen.events(block);
    assert forall|i: int| 0 <= i < events.len() implies crate::shared::reads_only(
        #[trigger] events[i],
    ) by {}
    crate::shared::run_of_reads(mem, events);
    let rolls = axis(seen.held, HELD_RIGHT, HELD_LEFT) != 0 || axis(
        seen.held,
        HELD_BACK,
        HELD_FORWARD,
    ) != 0;
    let k: int = if rolls {
        1
    } else {
        0
    };
    assert(events[0].agrees(mem));
    assert(events[0] == crate::blocks::look(block.at as int, seen.held));
    if rolls {
        assert(events[1] == crate::blocks::look(block.at + 2, seen.roll_yaw));
        assert(events[1].agrees(mem));
    }
    assert(events[1 + k] == crate::blocks::look(block.at + 1, seen.jump_seq));
    assert(events[1 + k].agrees(mem));
    let poll = block.fling().poll_events(
        (crate::edge::Poll { seq: seen.fling_seq, values: seen.fling }),
    );
    assert(events[2 + k] == poll[0]);
    assert(events[2 + k].agrees(mem));
    if seen.fling is Some {
        assert(events[3 + k] == poll[1]);
        assert(events[4 + k] == poll[2]);
        assert(events[5 + k] == crate::blocks::look(block.at + 2, seen.fling_yaw));
        assert(events[3 + k].agrees(mem));
        assert(events[4 + k].agrees(mem));
        assert(events[5 + k].agrees(mem));
    }
}

/// Publishes a dropped ball's pose for this step: a snap when the ball was put back.
pub fn publish_ball(
    port: &mut Port,
    balls: &BallsBlock,
    index: usize,
    step: u32,
    put_back: bool,
    pos: [u32; 3],
    quat: [u32; 4],
)
    requires
        balls.fits(old(port).size()),
        index < MAX_BALLS,
    ensures
        pose_published(
            *old(port),
            *final(port),
            balls.ring_at(index as int),
            step,
            put_back,
            pos,
            quat,
        ),
        put_back ==> exists|u: u32, v: u32|
            final(port).extends(
                *old(port),
                #[trigger] crate::shared_ring::snap_events(
                    balls.ring_at(index as int),
                    u,
                    v,
                    step,
                    pos,
                    quat,
                ),
            ),
        !put_back ==> exists|v: u32|
            final(port).extends(
                *old(port),
                #[trigger] crate::shared_ring::publish_events(
                    balls.ring_at(index as int),
                    v,
                    step,
                    pos,
                    quat,
                ),
            ),
{
    let at: usize = balls.slot(index);
    if put_back {
        crate::shared_ring::publish_snap(port, at, step, pos, quat);
    } else {
        crate::shared_ring::publish(port, at, step, pos, quat);
    }
}

/// Publishes the player's pose for this step: a snap when the ball was put back.
pub fn publish_player(
    port: &mut Port,
    motion: &MotionBlock,
    step: u32,
    put_back: bool,
    pos: [u32; 3],
    quat: [u32; 4],
)
    requires
        motion.fits(old(port).size()),
    ensures
        pose_published(*old(port), *final(port), motion.at as int, step, put_back, pos, quat),
        put_back ==> exists|u: u32, v: u32|
            final(port).extends(
                *old(port),
                #[trigger] crate::shared_ring::snap_events(
                    motion.at as int,
                    u,
                    v,
                    step,
                    pos,
                    quat,
                ),
            ),
        !put_back ==> exists|v: u32|
            final(port).extends(
                *old(port),
                #[trigger] crate::shared_ring::publish_events(
                    motion.at as int,
                    v,
                    step,
                    pos,
                    quat,
                ),
            ),
{
    if put_back {
        motion.publish_snap(port, step, pos, quat);
    } else {
        motion.publish(port, step, pos, quat);
    }
}

/// The pose was published into the ring at `at`, as a teleport where the ball was put back.
pub open spec fn pose_published(
    before: Port,
    after: Port,
    at: int,
    step: u32,
    put_back: bool,
    pos: [u32; 3],
    quat: [u32; 4],
) -> bool {
    if put_back {
        exists|u: u32, v: u32|
            after.extends(
                before,
                #[trigger] crate::shared_ring::snap_events(at, u, v, step, pos, quat),
            )
    } else {
        exists|v: u32|
            after.extends(
                before,
                #[trigger] crate::shared_ring::publish_events(at, v, step, pos, quat),
            )
    }
}

/// One press is one hop: a poll after `presses` presses of the jump key (fewer than the counter can
/// tell apart) jumps exactly when there was one. The poll after it, which starts from the counter
/// that the first one left, jumps exactly when there was another press since.
pub proof fn presses_become_hops(
    sim: Sim,
    presses: nat,
    more: nat,
    held: u32,
    fling: Option<(u32, u32)>,
    roll_yaw: u32,
    fling_yaw: u32,
)
    requires
        presses < 0x1_0000_0000,
        more < 0x1_0000_0000,
    ensures
        ({
            let first = crate::body_motion::bumped(sim.last_jump_seq, presses);
            let second = crate::body_motion::bumped(first, more);
            let next = sim.after_jumps(first);
            &&& asked(held, sim.jump_due(first), fling, roll_yaw, fling_yaw).jump <==> presses > 0
            &&& asked(held, next.jump_due(second), fling, roll_yaw, fling_yaw).jump <==> more > 0
        }),
{
    let first = crate::body_motion::bumped(sim.last_jump_seq, presses);
    crate::body_motion::frames_are_never_missed(sim.last_jump_seq, presses);
    crate::body_motion::frames_are_never_missed(first, more);
}

/// Opposite keys cancel: held together they ask for no direction along their axis, whatever else
/// is held.
pub proof fn opposite_keys_cancel(held: u32)
    ensures
        axis(held | HELD_LEFT | HELD_RIGHT, HELD_RIGHT, HELD_LEFT) == 0,
        axis(held | HELD_FORWARD | HELD_BACK, HELD_BACK, HELD_FORWARD) == 0,
{
    assert((held | 4u32 | 8u32) & 4u32 != 0 && (held | 4u32 | 8u32) & 8u32 != 0 && (held | 1u32
        | 2u32) & 1u32 != 0 && (held | 1u32 | 2u32) & 2u32 != 0) by (bit_vector);
}

/// The two axes of the direction are independent. To the right is asked for when of the sideways
/// keys only the right one is held, to the left when only the left one is, and neither otherwise,
/// whatever else is held; towards and away from the camera likewise by the back and the forward key.
/// So two sets of keys that agree on the sideways keys ask for the same x, and two that agree on
/// forward and back for the same z.
pub proof fn axes_are_independent(held: u32, other: u32)
    ensures
        axis(held, HELD_RIGHT, HELD_LEFT) == (if held & 8 != 0 && held & 4 == 0 {
            1int
        } else if held & 4 != 0 && held & 8 == 0 {
            -1int
        } else {
            0
        }),
        axis(held, HELD_BACK, HELD_FORWARD) == (if held & 2 != 0 && held & 1 == 0 {
            1int
        } else if held & 1 != 0 && held & 2 == 0 {
            -1int
        } else {
            0
        }),
        held & 12 == other & 12 ==> axis(held, HELD_RIGHT, HELD_LEFT) == axis(
            other,
            HELD_RIGHT,
            HELD_LEFT,
        ),
        held & 3 == other & 3 ==> axis(held, HELD_BACK, HELD_FORWARD) == axis(
            other,
            HELD_BACK,
            HELD_FORWARD,
        ),
{
    assert(held & 12 == other & 12 ==> held & 4 == other & 4 && held & 8 == other & 8) by (
    bit_vector);
    assert(held & 3 == other & 3 ==> held & 1 == other & 1 && held & 2 == other & 2) by (
    bit_vector);
}

/// What the input asks for is asked for part by part: the roll by the movement keys and the yaw that
/// goes with it, the jump by the counter, the fling by the swipe and its yaw. None of the three
/// depends on what the others hold.
pub proof fn controls_are_independent(
    held: u32,
    jump: bool,
    fling: Option<(u32, u32)>,
    roll_yaw: u32,
    fling_yaw: u32,
)
    ensures
        ({
            let c = asked(held, jump, fling, roll_yaw, fling_yaw);
            &&& c.jump == jump
            &&& c.fling is Some <==> fling is Some
            &&& c.fling matches Some(f) ==> fling == Some((f.0, f.1)) && f.2 == fling_yaw
            &&& c.roll is None <==> (held & 4 != 0) == (held & 8 != 0) && (held & 1 != 0) == (held
                & 2 != 0)
            &&& c.roll matches Some(roll) ==> {
                &&& roll.0 == 1 <==> held & 8 != 0 && held & 4 == 0
                &&& roll.0 == -1 <==> held & 4 != 0 && held & 8 == 0
                &&& roll.1 == 1 <==> held & 2 != 0 && held & 1 == 0
                &&& roll.1 == -1 <==> held & 1 != 0 && held & 2 == 0
                &&& -1 <= roll.0 <= 1 && -1 <= roll.1 <= 1
                &&& roll.2 == roll_yaw
            }
        }),
{
}

/// Dropped balls are numbered one by one: a request makes the next ball, with the number of balls so
/// far and at the place that was asked for, until the balls are used up; from then on requests are
/// ignored. Without a request nothing happens, and there is none exactly when the counter did not
/// move.
pub proof fn drops_are_numbered(
    before: Sim,
    after: Sim,
    seq: u32,
    request: Option<(u32, u32)>,
    order: DropOrder,
)
    requires
        before.wf(),
        ordered(before, after, seq, request, order),
    ensures
        after.wf(),
        after.last_drop_seq == seq,
        request is None <==> seq == before.last_drop_seq,
        order is Nothing <==> request is None,
        order is Ignored <==> request is Some && before.dropped == 200,
        order is Spawn <==> request is Some && before.dropped < 200,
        order matches DropOrder::Spawn { index, x, z } ==> {
            &&& index == before.dropped
            &&& request == Some((x, z))
            &&& after.dropped == index + 1
        },
        !(order is Spawn) ==> after.dropped == before.dropped,
        after == (Sim { last_drop_seq: seq, dropped: after.dropped, ..before }),
{
}

/// The rail is heard before the floor and the floor before a ball, whatever the second shape is.
pub proof fn rails_are_heard_first(role_a: u8, role_b: u8)
    ensures
        voice(role_a, role_b) is WallHit <==> role_a == 1 || role_b == 1,
        voice(role_a, role_b) is Land <==> role_a != 1 && role_b != 1 && (role_a == 0 || role_b
            == 0),
        voice(role_a, role_b) is BallClack <==> role_a != 1 && role_b != 1 && role_a != 0 && role_b
            != 0,
{
}

/// The voice of an impact does not depend on the order of the two shapes.
pub proof fn voice_is_symmetric(role_a: u8, role_b: u8)
    ensures
        voice(role_a, role_b) == voice(role_b, role_a),
{
}

/// Two sounds of one kind lie at least a cooldown apart: from the step of the first on, an impact
/// of that kind is silent as long as fewer steps than the cooldown have passed.
pub proof fn sounds_keep_their_distance(first: u32, steps: nat)
    requires
        steps < 0x1_0000_0000,
    ensures
        crate::body_motion::bumped(first, steps).wrapping_sub(first) >= IMPACT_COOLDOWN <==> steps
            >= IMPACT_COOLDOWN,
{
    crate::body_motion::frames_are_never_missed(first, steps);
}

/// The role of shape `k` in a pair that it and the ball began to touch in.
pub open spec fn touches(t: Touch, ball: ShapeKey, k: i32) -> Option<u8> {
    if t.a == ball {
        if t.b.index1 == k {
            Some(t.role_b)
        } else {
            None
        }
    } else if t.b == ball && t.a.index1 == k {
        Some(t.role_a)
    } else {
        None
    }
}

/// The ball and shape `k` parted.
pub open spec fn parts(p: Parting, ball: ShapeKey, k: i32) -> bool {
    if p.a == ball {
        p.b.index1 == k
    } else {
        p.b == ball && p.a.index1 == k
    }
}

/// The role with which shape `k` last began to touch the ball, if it did.
pub open spec fn last_touch(begins: Seq<Touch>, ball: ShapeKey, k: i32) -> Option<u8>
    decreases begins.len(),
{
    if begins.len() == 0 {
        None
    } else if touches(begins.last(), ball, k) is Some {
        touches(begins.last(), ball, k)
    } else {
        last_touch(begins.drop_last(), ball, k)
    }
}

/// The ball and shape `k` parted in one of the events.
pub open spec fn has_parted(ends: Seq<Parting>, ball: ShapeKey, k: i32) -> bool {
    exists|i: int| 0 <= i < ends.len() && parts(#[trigger] ends[i], ball, k)
}

/// The ball touches exactly the shapes whose latest event was a beginning, each with the role of
/// that event; partings of a step come after its beginnings. A shape that no event names is
/// touched exactly when it was before.
pub proof fn contacts_follow_the_events(
    contacts: Map<i32, u8>,
    ball: ShapeKey,
    begins: Seq<Touch>,
    ends: Seq<Parting>,
    k: i32,
)
    ensures
        ({
            let after = parted(touched(contacts, ball, begins), ball, ends);
            let latest = last_touch(begins, ball, k);
            if has_parted(ends, ball, k) {
                !after.dom().contains(k)
            } else if latest is Some {
                after.dom().contains(k) && after[k] == latest->0
            } else {
                &&& after.dom().contains(k) <==> contacts.dom().contains(k)
                &&& after.dom().contains(k) ==> after[k] == contacts[k]
            }
        }),
{
    beginnings_of_one_shape(contacts, ball, begins, k);
    partings_of_one_shape(touched(contacts, ball, begins), ball, ends, k);
}

/// One more beginning adds the other shape of the ball's pair with that shape's role, on whichever
/// side of the pair the ball is, and touches no other contact; a pair without the ball changes
/// nothing. One more parting takes the other shape away likewise.
pub proof fn each_event_changes_one_contact(
    contacts: Map<i32, u8>,
    ball: ShapeKey,
    begins: Seq<Touch>,
    t: Touch,
    ends: Seq<Parting>,
    p: Parting,
)
    ensures
        ({
            let before = touched(contacts, ball, begins);
            let after = touched(contacts, ball, begins.push(t));
            &&& t.a == ball ==> after == before.insert(t.b.index1, t.role_b)
            &&& t.a != ball && t.b == ball ==> after == before.insert(t.a.index1, t.role_a)
            &&& t.a != ball && t.b != ball ==> after == before
        }),
        ({
            let before = parted(contacts, ball, ends);
            let after = parted(contacts, ball, ends.push(p));
            &&& p.a == ball ==> after == before.remove(p.b.index1)
            &&& p.a != ball && p.b == ball ==> after == before.remove(p.a.index1)
            &&& p.a != ball && p.b != ball ==> after == before
        }),
        touched(contacts, ball, Seq::empty()) == contacts,
        parted(contacts, ball, Seq::empty()) == contacts,
{
    assert(begins.push(t).drop_last() =~= begins);
    assert(ends.push(p).drop_last() =~= ends);
}

/// What the beginnings do to one shape.
proof fn beginnings_of_one_shape(
    contacts: Map<i32, u8>,
    ball: ShapeKey,
    begins: Seq<Touch>,
    k: i32,
)
    ensures
        ({
            let after = touched(contacts, ball, begins);
            let latest = last_touch(begins, ball, k);
            if latest is Some {
                after.dom().contains(k) && after[k] == latest->0
            } else {
                &&& after.dom().contains(k) <==> contacts.dom().contains(k)
                &&& after.dom().contains(k) ==> after[k] == contacts[k]
            }
        }),
    decreases begins.len(),
{
    if begins.len() > 0 {
        beginnings_of_one_shape(contacts, ball, begins.drop_last(), k);
    }
}

/// What the partings do to one shape.
proof fn partings_of_one_shape(contacts: Map<i32, u8>, ball: ShapeKey, ends: Seq<Parting>, k: i32)
    ensures
        ({
            let after = parted(contacts, ball, ends);
            if has_parted(ends, ball, k) {
                !after.dom().contains(k)
            } else {
                &&& after.dom().contains(k) <==> contacts.dom().contains(k)
                &&& after.dom().contains(k) ==> after[k] == contacts[k]
            }
        }),
    decreases ends.len(),
{
    if ends.len() > 0 {
        let rest = ends.drop_last();
        partings_of_one_shape(contacts, ball, rest, k);
        if has_parted(rest, ball, k) {
            let i = choose|i: int| 0 <= i < rest.len() && parts(#[trigger] rest[i], ball, k);
            assert(parts(ends[i], ball, k));
        } else if has_parted(ends, ball, k) {
            let i = choose|i: int| 0 <= i < ends.len() && parts(#[trigger] ends[i], ball, k);
            if i < rest.len() {
                assert(parts(rest[i], ball, k));
            }
            assert(parts(ends.last(), ball, k));
        } else {
            assert(!parts(ends[ends.len() - 1], ball, k));
        }
    }
}

/// Turning the keys round turns the direction round: with left and right exchanged the x of the
/// direction changes its sign and the z stays; with forward and back exchanged the z changes its
/// sign and the x stays.
pub proof fn turned_keys_turn_the_direction(held: u32, other: u32, a: (i32, i32), b: (i32, i32))
    requires
        call_ensures(held_direction, (held,), a),
        call_ensures(held_direction, (other,), b),
    ensures
        (held & 4 != 0) == (other & 8 != 0) && (held & 8 != 0) == (other & 4 != 0) ==> a.0 == -b.0,
        (held & 1 != 0) == (other & 2 != 0) && (held & 2 != 0) == (other & 1 != 0) ==> a.1 == -b.1,
        (held & 4 != 0) == (other & 4 != 0) && (held & 8 != 0) == (other & 8 != 0) ==> a.0 == b.0,
        (held & 1 != 0) == (other & 1 != 0) && (held & 2 != 0) == (other & 2 != 0) ==> a.1 == b.1,
        a.0 == 1 <==> held & 8 != 0 && held & 4 == 0,
        a.1 == 1 <==> held & 2 != 0 && held & 1 == 0,
{
}

/// A ball that has escaped has escaped from every lower height too, and none has at or above the
/// limit of `-2.0`.
pub proof fn escaping_goes_by_height(y: u32, lower: u32, out: bool, lower_out: bool)
    requires
        call_ensures(has_escaped, (y,), out),
        call_ensures(has_escaped, (lower,), lower_out),
        !crate::bits::is_nan(y),
        !crate::bits::is_nan(lower),
        crate::bits::value(lower) <= crate::bits::value(y),
    ensures
        out ==> lower_out,
        out <==> crate::bits::value(y) < crate::bits::value(0xc000_0000u32),
{
}

/// The engine gets a collider's extents as they are: the sides of a box axis by axis, a sphere in the
/// middle, a capsule and a cylinder that reach as far up as down, and a cone that stands on the
/// middle.
pub proof fn shapes_keep_their_extents(shape: ColliderShapeMsg, plan: ShapePlan)
    requires
        call_ensures(create_shape, (&shape,), plan),
    ensures
        shape matches ColliderShapeMsg::Cuboid { half_extents } ==> plan == (ShapePlan::BoxHull {
            x: half_extents@[0],
            y: half_extents@[1],
            z: half_extents@[2],
        }),
        shape matches ColliderShapeMsg::Ball { radius } ==> plan == (ShapePlan::Sphere {
            center: [0u32, 0, 0],
            radius,
        }),
        shape matches ColliderShapeMsg::Capsule { half_height, radius } ==> {
            &&& plan is Capsule
            &&& plan->Capsule_radius == radius
            &&& plan->center2@ == seq![0u32, half_height, 0u32]
            &&& plan->center1@[0] == 0 && plan->center1@[2] == 0
            &&& crate::bits::value(plan->center1@[1]) == -crate::bits::value(half_height)
        },
        shape matches ColliderShapeMsg::Cylinder { half_height, radius } ==> {
            &&& plan is Cylinder
            &&& plan->Cylinder_radius == radius
            &&& plan->Cylinder_sides == 16
            &&& crate::bits::value(plan->y_offset) == -crate::bits::value(half_height)
            &&& crate::bits::magnitude(half_height) <= crate::bits::LARGEST_HALF
                ==> crate::bits::value(plan->Cylinder_height) == 2 * crate::bits::value(half_height)
        },
        shape matches ColliderShapeMsg::Cone { half_height, radius } ==> {
            &&& plan is Cone
            &&& plan->Cone_radius == radius
            &&& plan->Cone_sides == 16
            &&& crate::bits::magnitude(half_height) <= crate::bits::LARGEST_HALF
                ==> crate::bits::value(plan->Cone_height) == 2 * crate::bits::value(half_height)
        },
{
    if let ColliderShapeMsg::Capsule { half_height, radius } = shape {
        assert(plan->center2@ =~= seq![0u32, half_height, 0u32]);
    }
}

/// A frame runs a step whenever one is due and the cap is not reached, counts each that it runs, and
/// drops its backlog exactly when it ran as many as the cap allows.
pub proof fn frames_run_up_to_the_cap(
    frame: &mut CatchUp,
    due: bool,
    run: bool,
    dropped: bool,
)
    requires
        old(frame).substeps <= MAX_SUBSTEPS,
        call_ensures(CatchUp::next_step, (frame, due), run),
        call_ensures(CatchUp::drops_backlog, (&*final(frame),), dropped),
    ensures
        run <==> due && old(frame).substeps < MAX_SUBSTEPS,
        run ==> final(frame).substeps == old(frame).substeps + 1,
        !run ==> final(frame).substeps == old(frame).substeps,
        dropped <==> final(frame).substeps == MAX_SUBSTEPS,
{
}

/// A sound is heard once: a second impact of the same kind in the same step is silent. An impact of
/// another kind is heard as if the first had not been.
pub proof fn impacts_do_not_stutter(
    first: &mut Sim,
    second: &mut Sim,
    alone: &mut Sim,
    a: u8,
    b: u8,
    c: u8,
    d: u8,
    cue1: Option<Impact>,
    cue2: Option<Impact>,
    cue3: Option<Impact>,
)
    requires
        call_ensures(Sim::hit, (first, a, b), cue1),
        *old(second) == *final(first),
        call_ensures(Sim::hit, (second, c, d), cue2),
        *old(alone) == *old(first),
        call_ensures(Sim::hit, (alone, c, d), cue3),
    ensures
        cue1 is Some && voice(a, b) == voice(c, d) ==> cue2 is None,
        voice(a, b) != voice(c, d) ==> cue2 == cue3,
        cue1 matches Some(kind) ==> {
            &&& kind is WallHit <==> a == 1 || b == 1
            &&& kind is Land <==> a != 1 && b != 1 && (a == 0 || b == 0)
        },
        final(second).tick == old(first).tick,
        final(second).contacts == old(first).contacts,
{
}

/// Two drop requests in a row make two balls with consecutive numbers, as long as there are balls;
/// each is dropped where it was asked for.
pub proof fn balls_follow_one_another(
    first: &mut Sim,
    second: &mut Sim,
    at1: (u32, u32),
    at2: (u32, u32),
    order1: DropOrder,
    order2: DropOrder,
)
    requires
        old(first).wf(),
        call_ensures(Sim::order_drop, (first, Some(at1)), order1),
        *old(second) == *final(first),
        call_ensures(Sim::order_drop, (second, Some(at2)), order2),
    ensures
        old(first).dropped < 199 ==> {
            &&& order1 == (DropOrder::Spawn { index: old(first).dropped, x: at1.0, z: at1.1 })
            &&& order2 == (DropOrder::Spawn {
                index: (old(first).dropped + 1) as usize,
                x: at2.0,
                z: at2.1,
            })
            &&& final(second).dropped == old(first).dropped + 2
        },
        old(first).dropped == 200 ==> {
            &&& order1 is Ignored
            &&& order2 is Ignored
            &&& final(second).dropped == 200
        },
        final(second).wf(),
{
}

/// A press is spent by the poll that sees it: the next poll that sees the same counter does not jump
/// again, whatever else it is asked.
pub proof fn presses_are_spent(
    first: &mut Sim,
    second: &mut Sim,
    held: u32,
    held2: u32,
    jump_seq: u32,
    fling: Option<(u32, u32)>,
    yaw: u32,
    c1: Controls,
    c2: Controls,
)
    requires
        call_ensures(Sim::control, (first, held, jump_seq, fling, yaw, yaw), c1),
        *old(second) == *final(first),
        call_ensures(Sim::control, (second, held2, jump_seq, fling, yaw, yaw), c2),
    ensures
        c1.jump <==> jump_seq != old(first).last_jump_seq,
        !c2.jump,
        held == held2 ==> c1.roll == c2.roll,
        c1.fling == c2.fling,
        *final(second) == *final(first),
{
}

/// Steps are numbered one by one: two steps that begin in a row have consecutive numbers, and
/// nothing else of the simulation changes.
pub proof fn steps_follow_one_another(first: &mut Sim, second: &mut Sim, s1: u32, s2: u32)
    requires
        call_ensures(Sim::begin_step, (first,), s1),
        *old(second) == *final(first),
        call_ensures(Sim::begin_step, (second,), s2),
    ensures
        (old(first).tick + 1) % 0x1_0000_0000 == s1,
        (s1 + 1) % 0x1_0000_0000 == s2,
        final(second).tick == s2,
        *final(second) == (Sim { tick: s2, ..*old(first) }),
{
}

/// The ball rests on something exactly when one of the shapes that it touches is no wall: any one of
/// them is enough, and walls alone do not carry it.
pub proof fn ball_rests_on_what_is_no_wall(sim: Sim, k: i32, on_ground: bool)
    requires
        call_ensures(Sim::grounded, (&sim,), on_ground),
    ensures
        sim.contacts@.dom().contains(k) && sim.contacts@[k] != 1 ==> on_ground,
        (forall|j: i32| #[trigger]
            sim.contacts@.dom().contains(j) ==> sim.contacts@[j] == 1) ==> !on_ground,
{
}

/// A ball that was put back touches nothing, and so it does not stand on anything until something
/// touches it again: then it does exactly when that is no wall.
pub proof fn put_back_ball_is_in_the_air(
    back: &mut Sim,
    touched_again: &mut Sim,
    begins: Vec<Touch>,
    ends: Vec<Parting>,
    other: ShapeKey,
    role: u8,
    in_air: bool,
    on_ground: bool,
)
    requires
        call_ensures(Sim::respawn, (back,), ()),
        call_ensures(Sim::grounded, (&*final(back),), in_air),
        *old(touched_again) == *final(back),
        begins@.len() == 1,
        ends@.len() == 0,
        other != old(back).ball,
        begins@[0] == (Touch { a: old(back).ball, b: other, role_a: 2, role_b: role }) || begins@[0]
            == (Touch { a: other, b: old(back).ball, role_a: role, role_b: 2 }),
        call_ensures(Sim::note_contacts, (touched_again, &begins, &ends), ()),
        call_ensures(Sim::grounded, (&*final(touched_again),), on_ground),
    ensures
        !in_air,
        on_ground <==> role != 1,
        final(touched_again).contacts@ == Map::<i32, u8>::empty().insert(other.index1, role),
{
    let ball = old(back).ball;
    let t = begins@[0];
    each_event_changes_one_contact(
        Map::empty(),
        ball,
        Seq::empty(),
        t,
        Seq::empty(),
        Parting { a: other, b: other },
    );
    assert(begins@ =~= Seq::<Touch>::empty().push(t));
    assert(ends@ =~= Seq::<Parting>::empty());
    let contacts = final(touched_again).contacts@;
    assert(contacts =~= Map::<i32, u8>::empty().insert(other.index1, role));
    assert(contacts.dom().contains(other.index1) && contacts[other.index1] == role);
    assert(forall|k: i32| #[trigger] contacts.dom().contains(k) ==> contacts[k] == role);
    ball_rests_on_what_is_no_wall(*final(touched_again), other.index1, on_ground);
}

/// The roll cue is sent every twelve steps, the cost of the steps is logged once a minute of them
/// and only when some were measured, and the exact pose once, after twenty seconds.
pub proof fn cues_come_at_their_steps(
    sim: Sim,
    measured: u32,
    roll: bool,
    telemetry: bool,
    parity: bool,
)
    requires
        call_ensures(Sim::roll_due, (&sim,), roll),
        call_ensures(Sim::telemetry_due, (&sim, measured), telemetry),
        call_ensures(Sim::parity_due, (&sim,), parity),
    ensures
        roll <==> sim.tick % 12 == 0,
        telemetry <==> sim.tick % 14400 == 0 && measured > 0,
        parity <==> sim.tick == 4800,
{
}

/// A pose that physics publishes for the player, with nothing interfering, is what the player's ring
/// reads for that step; when the ball was put back it is read for the step before too, so that
/// nothing sweeps through the world, and else the step before stays as it was.
pub proof fn player_pose_is_published(
    mem: Seq<u32>,
    block: MotionBlock,
    ring: crate::pose_ring::RingView,
    port: &mut Port<'_>,
    after: crate::pose_ring::RingView,
    step: u32,
    put_back: bool,
    pos: [u32; 3],
    quat: [u32; 4],
)
    requires
        crate::shared_ring::holds_ring(mem, block.at as int, ring),
        ring.settled(),
        call_ensures(publish_player, (port, &block, step, put_back, pos, quat), ()),
        crate::shared::undisturbed(mem, crate::shared::since(*old(port), *final(port))),
        after == (if put_back {
            ring.snapped(step, pos, quat)
        } else {
            ring.published(step, pos, quat)
        }),
    ensures
        crate::shared_ring::holds_ring(
            crate::shared::run(mem, crate::shared::since(*old(port), *final(port))),
            block.at as int,
            after,
        ),
        after.latest == step,
        after.reading(step) == Some((pos, quat)),
        put_back ==> after.reading(step.wrapping_sub(1)) == Some((pos, quat)),
        !put_back ==> after.reading(step.wrapping_sub(1)) == ring.reading(step.wrapping_sub(1)),
{
    let at = block.at as int;
    if put_back {
        let (u, v) = choose|u: u32, v: u32|
            final(port).extends(
                *old(port),
                #[trigger] crate::shared_ring::snap_events(at, u, v, step, pos, quat),
            );
        let events = crate::shared_ring::snap_events(at, u, v, step, pos, quat);
        crate::shared::extension_is_what_was_made_since(*old(port), *final(port), events);
        crate::shared_ring::undisturbed_snap(mem, at, ring, u, v, step, pos, quat);
        crate::pose_ring::snap_covers_both_steps(ring, step, pos, quat);
    } else {
        let v = choose|v: u32|
            final(port).extends(
                *old(port),
                #[trigger] crate::shared_ring::publish_events(at, v, step, pos, quat),
            );
        let events = crate::shared_ring::publish_events(at, v, step, pos, quat);
        crate::shared::extension_is_what_was_made_since(*old(port), *final(port), events);
        crate::shared_ring::undisturbed_publish(mem, at, ring, v, step, pos, quat);
        crate::pose_ring::read_after_publish(ring, step, pos, quat, step.wrapping_sub(1));
    }
}

/// After a sound, an impact of the same kind is heard again exactly when 31 steps have passed, which
/// is 0.13 seconds, however the step counter wraps in between.
pub proof fn sounds_are_a_cooldown_apart(
    first: &mut Sim,
    second: &mut Sim,
    a: u8,
    b: u8,
    steps: nat,
    cue1: Option<Impact>,
    cue2: Option<Impact>,
)
    requires
        steps < 0x1_0000_0000,
        call_ensures(Sim::hit, (first, a, b), cue1),
        cue1 is Some,
        *old(second) == (Sim {
            tick: crate::body_motion::bumped(old(first).tick, steps),
            ..*final(first)
        }),
        call_ensures(Sim::hit, (second, b, a), cue2),
    ensures
        cue2 is Some <==> steps >= 31,
        cue2 is Some ==> cue2 == cue1,
{
    crate::body_motion::frames_are_never_missed(old(first).tick, steps);
}

/// The step runs on the pool's workers and the stepping thread, so never on more than five threads,
/// and always on at least one; a frame runs at most 24 steps.
pub proof fn steps_run_on_few_threads(hardware: i32, workers: u32, threads: u32)
    requires
        call_ensures(pool_workers, (hardware,), workers),
        call_ensures(worker_count, (workers,), threads),
    ensures
        threads == workers + 1,
        1 <= threads <= 5,
        threads > 1 ==> threads + 2 <= hardware,
        hardware >= 7 ==> threads == 5,
        MAX_SUBSTEPS == 24,
{
}

/// A drop request that is in the block is carried out by the next poll that nothing interferes with,
/// where it was asked for and with the next number; without a new one nothing is dropped.
pub proof fn polled_request_is_dropped(
    mem: Seq<u32>,
    block: BallsBlock,
    balls: crate::ball_motions::BallMotions,
    sim: &mut Sim,
    port: &mut Port<'_>,
    order: DropOrder,
)
    requires
        crate::blocks::holds_balls(mem, block, balls),
        old(sim).wf(),
        call_ensures(Sim::poll_drop, (sim, port, &block), order),
        crate::shared::undisturbed(mem, crate::shared::since(*old(port), *final(port))),
    ensures
        final(sim).last_drop_seq == balls.drop_seq,
        order is Nothing <==> balls.drop_seq == old(sim).last_drop_seq,
        order matches DropOrder::Spawn { index, x, z } ==> {
            &&& x == balls.drop_x
            &&& z == balls.drop_z
            &&& index == old(sim).dropped
            &&& final(sim).dropped == index + 1
        },
        order is Ignored ==> old(sim).dropped == 200,
{
    let edge = block.drop_request();
    let request = choose|request: Option<(u32, u32)>|
        {
            &&& #[trigger] ordered(
                *old(sim),
                *final(sim),
                final(sim).last_drop_seq,
                request,
                order,
            )
            &&& final(port).extends(
                *old(port),
                edge.poll_events(
                    (crate::edge::Poll { seq: final(sim).last_drop_seq, values: request }),
                ),
            )
        };
    let poll = crate::edge::Poll { seq: final(sim).last_drop_seq, values: request };
    crate::shared::extension_is_what_was_made_since(
        *old(port),
        *final(port),
        edge.poll_events(poll),
    );
    crate::edge::undisturbed_poll(edge, mem, old(sim).last_drop_seq, poll);
    drops_are_numbered(*old(sim), *final(sim), final(sim).last_drop_seq, request, order);
}

/// What the input block holds is what the next poll that nothing interferes with asks for: the
/// direction of its keys and its yaw, a jump exactly when its counter moved, and its swipe exactly
/// when that one's counter did.
pub proof fn polled_input_is_asked_for(
    mem: Seq<u32>,
    block: InputBlock,
    state: crate::input_state::InputState,
    sim: &mut Sim,
    port: &mut Port<'_>,
    controls: Controls,
)
    requires
        crate::blocks::holds_input(mem, block, state),
        call_ensures(Sim::poll_input, (sim, port, &block), controls),
        crate::shared::undisturbed(mem, crate::shared::since(*old(port), *final(port))),
    ensures
        controls.jump <==> state.jump_seq != old(sim).last_jump_seq,
        controls.roll is None <==> (state.held & 4 != 0) == (state.held & 8 != 0) && (state.held & 1
            != 0) == (state.held & 2 != 0),
        controls.roll matches Some(roll) ==> {
            &&& roll.0 == 1 <==> state.held & 8 != 0 && state.held & 4 == 0
            &&& roll.0 == -1 <==> state.held & 4 != 0 && state.held & 8 == 0
            &&& roll.1 == 1 <==> state.held & 2 != 0 && state.held & 1 == 0
            &&& roll.1 == -1 <==> state.held & 1 != 0 && state.held & 2 == 0
            &&& roll.2 == state.camera_yaw
        },
        controls.fling == (if state.fling_seq != old(sim).last_fling_seq {
            Some((state.fling_x, state.fling_z, state.camera_yaw))
        } else {
            None
        }),
        *final(sim) == (Sim {
            last_jump_seq: state.jump_seq,
            last_fling_seq: state.fling_seq,
            ..*old(sim)
        }),
{
    let seen = choose|seen: InputSeen|
        {
            &&& final(port).extends(*old(port), #[trigger] seen.events(block))
            &&& seen.fling is None <==> seen.fling_seq == old(sim).last_fling_seq
            &&& controls == asked(
                seen.held,
                old(sim).jump_due(seen.jump_seq),
                seen.fling,
                seen.roll_yaw,
                seen.fling_yaw,
            )
            &&& *final(sim) == (Sim {
                last_jump_seq: seen.jump_seq,
                last_fling_seq: seen.fling_seq,
                ..*old(sim)
            })
        };
    crate::shared::extension_is_what_was_made_since(*old(port), *final(port), seen.events(block));
    undisturbed_input_poll(mem, block, state, seen, old(sim).last_fling_seq);
    controls_are_independent(
        seen.held,
        old(sim).jump_due(seen.jump_seq),
        seen.fling,
        seen.roll_yaw,
        seen.fling_yaw,
    );
}

} // verus!
