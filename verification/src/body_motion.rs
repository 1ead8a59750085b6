//! The player ball's motion channel: its pose ring, the frame tick that paces the simulation, and
//! the counters that the stats panel reads.

use vstd::prelude::*;

use crate::pose_ring::PoseRing;

verus! {

/// The player ball's motion block.
///
/// Physics publishes a pose for every fixed step into the ring; render samples the ring at its
/// display time. The frame tick flows the other way: render bumps it once per presented frame and
/// physics blocks on it, so the simulation steps in phase with the display.
#[derive(Clone, Copy, Debug, PartialEq, Eq)]
pub struct BodyMotion {
    /// Pose history that render samples.
    pub ring: PoseRing,
    /// Bumped by render once per presented frame.
    pub frame_tick: u32,
    /// Accumulated render work time in microseconds, wrapping.
    pub frame_work_us: u32,
    /// Accumulated physics work time in microseconds, wrapping.
    pub step_work_us: u32,
    /// Running maximum of the display cursor's error (steps, float bits).
    pub sync_err_bits: u32,
    /// Render's current adaptive display lag (steps, float bits).
    pub display_lag_bits: u32,
}

impl BodyMotion {
    /// A motion block whose ring is seeded with the given resting pose; every counter is zero.
    pub fn new(pos: [u32; 3], quat: [u32; 4]) -> (motion: BodyMotion)
        ensures
            motion.ring@ == crate::pose_ring::empty_ring().wrote(0, pos, quat),
            motion.ring@.seeded(),
            motion.ring@.reading(0) == Some((pos, quat)),
            forall|step: u32| step != 0 ==> (#[trigger] motion.ring@.reading(step)) is None,
            motion.frame_tick == 0,
            motion.frame_work_us == 0,
            motion.step_work_us == 0,
            motion.sync_err_bits == 0,
            motion.display_lag_bits == 0,
    {
        BodyMotion {
            ring: PoseRing::new(pos, quat),
            frame_tick: 0,
            frame_work_us: 0,
            step_work_us: 0,
            sync_err_bits: 0,
            display_lag_bits: 0,
        }
    }

    /// Render side: records this frame's display-cursor error (steps, not negative, as float
    /// bits). The greater bits belong to the greater error: see
    /// [`crate::bits::nonnegative_bits_order`].
    pub fn note_sync_err(&mut self, err_abs: u32)
        ensures
            *final(self) == (BodyMotion {
                sync_err_bits: if old(self).sync_err_bits < err_abs {
                    err_abs
                } else {
                    old(self).sync_err_bits
                },
                ..*old(self)
            }),
    {
        if self.sync_err_bits < err_abs {
            self.sync_err_bits = err_abs;
        }
    }

    /// Stats side: the greatest cursor error since the last call, which resets it to zero.
    pub fn take_sync_err(&mut self) -> (err: u32)
        ensures
            err == old(self).sync_err_bits,
            *final(self) == (BodyMotion { sync_err_bits: 0, ..*old(self) }),
    {
        let err: u32 = self.sync_err_bits;
        self.sync_err_bits = 0;
        err
    }

    /// Render side: publishes the current adaptive display lag (steps, float bits).
    pub fn set_display_lag(&mut self, lag: u32)
        ensures
            *final(self) == (BodyMotion { display_lag_bits: lag, ..*old(self) }),
    {
        self.display_lag_bits = lag;
    }

    /// Stats side: render's current adaptive display lag (steps, float bits).
    pub fn display_lag(&self) -> (lag: u32)
        ensures
            lag == self.display_lag_bits,
    {
        self.display_lag_bits
    }

    /// Render side: adds one frame's work time to the running total.
    pub fn add_frame_work_us(&mut self, us: u32)
        ensures
            *final(self) == (BodyMotion {
                frame_work_us: old(self).frame_work_us.wrapping_add(us),
                ..*old(self)
            }),
    {
        self.frame_work_us = self.frame_work_us.wrapping_add(us);
    }

    /// Accumulated render work time (microseconds, wrapping).
    pub fn frame_work_us(&self) -> (us: u32)
        ensures
            us == self.frame_work_us,
    {
        self.frame_work_us
    }

    /// Physics side: adds one fixed step's work time to the running total.
    pub fn add_step_work_us(&mut self, us: u32)
        ensures
            *final(self) == (BodyMotion {
                step_work_us: old(self).step_work_us.wrapping_add(us),
                ..*old(self)
            }),
    {
        self.step_work_us = self.step_work_us.wrapping_add(us);
    }

    /// Accumulated physics work time (microseconds, wrapping).
    pub fn step_work_us(&self) -> (us: u32)
        ensures
            us == self.step_work_us,
    {
        self.step_work_us
    }

    /// Render side: a frame was presented.
    pub fn bump_frame(&mut self)
        ensures
            *final(self) == (BodyMotion {
                frame_tick: old(self).frame_tick.wrapping_add(1),
                ..*old(self)
            }),
    {
        self.frame_tick = self.frame_tick.wrapping_add(1);
    }

    /// Current frame tick (physics seeds its last-seen value with this).
    pub fn frame_tick(&self) -> (tick: u32)
        ensures
            tick == self.frame_tick,
    {
        self.frame_tick
    }

    /// Physics side: the new tick when it differs from `last`. `None` means that the caller has to
    /// block while the tick still equals `last`, and ask again.
    pub fn wait_frame(&self, last: u32) -> (tick: Option<u32>)
        ensures
            tick == (if self.frame_tick != last {
                Some(self.frame_tick)
            } else {
                None
            }),
    {
        if self.frame_tick != last {
            Some(self.frame_tick)
        } else {
            None
        }
    }

    /// Writer side (physics): publishes the pose at absolute step `step`.
    pub fn publish(&mut self, step: u32, pos: [u32; 3], quat: [u32; 4])
        ensures
            final(self).ring@ == old(self).ring@.published(step, pos, quat),
            *final(self) == (BodyMotion { ring: final(self).ring, ..*old(self) }),
            old(self).ring@.settled() ==> final(self).ring@.seeded(),
    {
        self.ring.publish(step, pos, quat);
    }

    /// Writer side: publishes a teleport (see [`PoseRing::publish_snap`]).
    pub fn publish_snap(&mut self, step: u32, pos: [u32; 3], quat: [u32; 4])
        ensures
            final(self).ring@ == old(self).ring@.snapped(step, pos, quat),
            *final(self) == (BodyMotion { ring: final(self).ring, ..*old(self) }),
            old(self).ring@.settled() ==> final(self).ring@.seeded(),
    {
        self.ring.publish_snap(step, pos, quat);
    }

    /// Latest published absolute step.
    pub fn latest_step(&self) -> (step: u32)
        ensures
            step == self.ring@.latest,
    {
        self.ring.latest_step()
    }

    /// The pose published for `step`, if the ring still holds it.
    pub fn read_step(&self, step: u32) -> (pose: Option<([u32; 3], [u32; 4])>)
        ensures
            pose == self.ring@.reading(step),
    {
        self.ring.read_step(step)
    }

    /// The latest pose (always available once seeded).
    pub fn read_latest(&self) -> (pose: ([u32; 3], [u32; 4]))
        requires
            self.ring@.seeded(),
        ensures
            self.ring@.reading(self.ring@.latest) == Some(pose),
    {
        self.ring.read_latest()
    }

    /// The underlying pose ring.
    pub fn ring(&self) -> (ring: &PoseRing)
        ensures
            *ring == self.ring,
    {
        &self.ring
    }
}

/// The running maximum over recorded errors: what stands in the block after each of `errs` was
/// noted in turn.
pub open spec fn noted(start: u32, errs: Seq<u32>) -> u32
    decreases errs.len(),
{
    if errs.len() == 0 {
        start
    } else {
        let before = noted(start, errs.drop_last());
        if before < errs.last() {
            errs.last()
        } else {
            before
        }
    }
}

/// After a reset, the recorded error is the greatest of the errors noted since, as floats: none
/// of them exceeds it and, if there was one, it is one of them.
pub proof fn noted_is_the_greatest_error(errs: Seq<u32>)
    requires
        forall|i: int| 0 <= i < errs.len() ==> errs[i] <= crate::bits::INFINITY_BITS,
    ensures
        noted(0, errs) <= crate::bits::INFINITY_BITS,
        forall|i: int|
            0 <= i < errs.len() ==> !crate::bits::less(noted(0, errs), #[trigger] errs[i]),
        errs.len() > 0 ==> errs.contains(noted(0, errs)) || noted(0, errs) == 0,
    decreases errs.len(),
{
    if errs.len() > 0 {
        let rest = errs.drop_last();
        noted_is_the_greatest_error(rest);
        let best = noted(0, errs);
        assert forall|i: int| 0 <= i < errs.len() implies !crate::bits::less(
            best,
            #[trigger] errs[i],
        ) by {
            if i < rest.len() {
                assert(rest[i] == errs[i]);
                crate::bits::nonnegative_bits_order(noted(0, rest), errs[i]);
            }
            crate::bits::nonnegative_bits_order(best, errs[i]);
        }
        if noted(0, rest) < errs.last() {
            assert(errs[errs.len() - 1] == best);
        } else if rest.len() > 0 && rest.contains(noted(0, rest)) {
            let k = choose|k: int| 0 <= k < rest.len() && rest[k] == noted(0, rest);
            assert(errs[k] == best);
        }
    }
}

/// A reader that remembers the tick it saw last notices every run of fewer than `2^32` bumps: the
/// wait ends exactly when at least one frame was presented, and the difference of the ticks is
/// their number.
pub proof fn frames_are_never_missed(last: u32, frames: nat)
    requires
        frames < 0x1_0000_0000,
    ensures
        bumped(last, frames) != last <==> frames > 0,
        bumped(last, frames).wrapping_sub(last) == frames,
{
    bumped_is_sum(last, frames);
}

/// A counter after it was bumped `n` times.
pub open spec fn bumped(start: u32, n: nat) -> u32
    decreases n,
{
    if n == 0 {
        start
    } else {
        bumped(start, (n - 1) as nat).wrapping_add(1)
    }
}

/// Bumping counts up to the width of the counter.
pub proof fn bumped_is_sum(start: u32, n: nat)
    ensures
        bumped(start, n) == (start + n) % 0x1_0000_0000,
    decreases n,
{
    if n > 0 {
        bumped_is_sum(start, (n - 1) as nat);
    }
}

/// The recorded error is the greatest since it was taken last: after two errors were noted, what is
/// taken is neither below the one nor below the other, nor below what stood there, and it is one of
/// the three; and then nothing is left to take.
pub proof fn greatest_error_is_taken_once(
    first: &mut BodyMotion,
    second: &mut BodyMotion,
    taking: &mut BodyMotion,
    again: &mut BodyMotion,
    e1: u32,
    e2: u32,
    taken: u32,
    rest: u32,
)
    requires
        call_ensures(BodyMotion::note_sync_err, (first, e1), ()),
        *old(second) == *final(first),
        call_ensures(BodyMotion::note_sync_err, (second, e2), ()),
        *old(taking) == *final(second),
        call_ensures(BodyMotion::take_sync_err, (taking,), taken),
        *old(again) == *final(taking),
        call_ensures(BodyMotion::take_sync_err, (again,), rest),
    ensures
        taken >= e1 && taken >= e2 && taken >= old(first).sync_err_bits,
        taken == e1 || taken == e2 || taken == old(first).sync_err_bits,
        rest == 0,
        final(again).ring == old(first).ring,
        final(again).frame_tick == old(first).frame_tick,
{
}

/// A presented frame ends the wait of whoever saw the tick before it, and work times add up.
pub proof fn frames_and_work_are_counted(
    bumped_once: &mut BodyMotion,
    worked: &mut BodyMotion,
    stepped: &mut BodyMotion,
    last: u32,
    us: u32,
    step_us: u32,
    before: Option<u32>,
    after: Option<u32>,
)
    requires
        last == old(bumped_once).frame_tick,
        call_ensures(BodyMotion::wait_frame, (&*old(bumped_once), last), before),
        call_ensures(BodyMotion::bump_frame, (bumped_once,), ()),
        call_ensures(BodyMotion::wait_frame, (&*final(bumped_once), last), after),
        call_ensures(BodyMotion::add_frame_work_us, (worked, us), ()),
        call_ensures(BodyMotion::add_step_work_us, (stepped, step_us), ()),
    ensures
        before is None,
        after is Some,
        after matches Some(tick) ==> (last + 1) % 0x1_0000_0000 == tick,
        final(worked).frame_work_us == (old(worked).frame_work_us + us) % 0x1_0000_0000,
        final(worked).step_work_us == old(worked).step_work_us,
        final(stepped).step_work_us == (old(stepped).step_work_us + step_us) % 0x1_0000_0000,
        final(stepped).frame_work_us == old(stepped).frame_work_us,
{
}

/// What is published is what is read: the pose of a step, as the latest too; after a teleport also
/// for the step before.
pub proof fn published_poses_are_read(
    published: &mut BodyMotion,
    snapped: &mut BodyMotion,
    step: u32,
    pos: [u32; 3],
    quat: [u32; 4],
    read: Option<([u32; 3], [u32; 4])>,
    latest: u32,
    newest: ([u32; 3], [u32; 4]),
    before: Option<([u32; 3], [u32; 4])>,
    after: Option<([u32; 3], [u32; 4])>,
)
    requires
        old(published).ring@.settled(),
        old(snapped).ring@.settled(),
        call_ensures(BodyMotion::publish, (published, step, pos, quat), ()),
        call_ensures(BodyMotion::read_step, (&*final(published), step), read),
        call_ensures(BodyMotion::latest_step, (&*final(published),), latest),
        call_ensures(BodyMotion::read_latest, (&*final(published),), newest),
        call_ensures(BodyMotion::publish_snap, (snapped, step, pos, quat), ()),
        call_ensures(BodyMotion::read_step, (&*final(snapped), step.wrapping_sub(1)), before),
        call_ensures(BodyMotion::read_step, (&*final(snapped), step), after),
    ensures
        read == Some((pos, quat)),
        latest == step,
        newest == (pos, quat),
        before == Some((pos, quat)),
        after == Some((pos, quat)),
{
    crate::pose_ring::read_after_publish(old(published).ring@, step, pos, quat, step);
    crate::pose_ring::snap_covers_both_steps(old(snapped).ring@, step, pos, quat);
}

} // verus!
