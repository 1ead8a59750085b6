//! The click-to-drop block: the latest drop request, and one pose ring per dropped ball.
//!
//! Render files the request; physics polls it each step, creates the body, publishes the ball's
//! pose, and only then raises the count, so that a ball render can see always has a pose.

use vstd::prelude::*;

use crate::pose_ring::PoseRing;

verus! {

/// The most balls a session can drop; requests past this are ignored.
pub const MAX_BALLS: usize = 200;

/// The bits of `1.0`.
pub const ONE_BITS: u32 = 0x3f80_0000;

/// The click-to-drop block.
#[derive(Debug, PartialEq, Eq)]
pub struct BallMotions {
    /// Bumped once per drop request.
    pub drop_seq: u32,
    /// Requested drop position on the table (float bits).
    pub drop_x: u32,
    pub drop_z: u32,
    /// Balls created so far.
    pub count: u32,
    /// One ring for every ball that can be dropped.
    pub slots: Vec<PoseRing>,
}

impl BallMotions {
    /// The block has a ring for every ball that can be dropped, and each can be read.
    pub open spec fn wf(self) -> bool {
        &&& self.slots@.len() == MAX_BALLS
        &&& forall|i: int| 0 <= i < MAX_BALLS ==> (#[trigger] self.slots@[i])@.seeded()
    }

    /// No request, no ball, every ring at rest in the origin.
    pub open spec fn fresh(self) -> bool {
        &&& self.drop_seq == 0
        &&& self.drop_x == 0
        &&& self.drop_z == 0
        &&& self.count == 0
        &&& self.slots@.len() == MAX_BALLS
        &&& forall|i: int|
            0 <= i < MAX_BALLS ==> (#[trigger] self.slots@[i])@
                == crate::pose_ring::empty_ring().wrote(
                0,
                [0u32, 0, 0],
                [0u32, 0, 0, ONE_BITS],
            )
    }

    /// The block before anything happened.
    pub fn new() -> (balls: BallMotions)
        ensures
            balls.wf(),
            balls.fresh(),
            balls.count == 0,
            forall|i: int|
                0 <= i < 200 ==> (#[trigger] balls.slots@[i])@.reading(0) == Some(
                    ([0u32, 0, 0], [0u32, 0, 0, 0x3f80_0000u32]),
                ),
    {
        let ring = PoseRing::new([0, 0, 0], [0, 0, 0, ONE_BITS]);
        let mut slots: Vec<PoseRing> = Vec::new();
        for i in 0..MAX_BALLS
            invariant
                slots@.len() == i,
                forall|j: int| 0 <= j < i ==> slots@[j] == ring,
        {
            slots.push(ring);
        }
        BallMotions { drop_seq: 0, drop_x: 0, drop_z: 0, count: 0, slots }
    }

    /// Render side: requests a ball at table position `(x, z)` (float bits).
    pub fn request_drop(&mut self, x: u32, z: u32)
        ensures
            *final(self) == (BallMotions {
                drop_x: x,
                drop_z: z,
                drop_seq: old(self).drop_seq.wrapping_add(1),
                ..*old(self)
            }),
    {
        self.drop_x = x;
        self.drop_z = z;
        self.drop_seq = self.drop_seq.wrapping_add(1);
    }

    /// Physics side: consumes any pending drop request. Gives the requested `(x, z)` when
    /// `last_seq` is behind, and advances it to the current counter. Of two requests between two
    /// polls the later one wins.
    pub fn poll_drop(&self, last_seq: &mut u32) -> (request: Option<(u32, u32)>)
        ensures
            request == crate::input_state::polled(
                self.drop_seq,
                *old(last_seq),
                self.drop_x,
                self.drop_z,
            ),
            *final(last_seq) == self.drop_seq,
            request is Some <==> self.drop_seq != *old(last_seq),
            request matches Some(at) ==> at == (self.drop_x, self.drop_z),
    {
        let seq: u32 = self.drop_seq;
        if seq == *last_seq {
            return None;
        }
        *last_seq = seq;
        Some((self.drop_x, self.drop_z))
    }

    /// Balls created so far.
    pub fn count(&self) -> (count: usize)
        ensures
            count == self.count,
    {
        self.count as usize
    }

    /// Physics side: publishes that the rings below `count` are initialized. The block holds the
    /// count in one word.
    pub fn set_count(&mut self, count: usize)
        ensures
            *final(self) == (BallMotions { count: count as u32, ..*old(self) }),
    {
        self.count = #[verifier::truncate] (count as u32);
    }

    /// The ring of one ball.
    pub fn slot(&self, index: usize) -> (ring: &PoseRing)
        requires
            index < self.slots@.len(),
        ensures
            *ring == self.slots@[index as int],
    {
        &self.slots[index]
    }

    /// Physics side: the ring of one ball, to publish into.
    pub fn slot_mut(&mut self, index: usize) -> (ring: &mut PoseRing)
        requires
            index < old(self).slots@.len(),
        ensures
            *ring == old(self).slots@[index as int],
            final(self).slots@ == old(self).slots@.update(index as int, *final(ring)),
            *final(self) == (BallMotions { slots: final(self).slots, ..*old(self) }),
    {
        &mut self.slots[index]
    }

    /// Physics side: a ball was created at `pos`, turned by `quat`. Seeds its ring with a snap at
    /// the current step, then raises the count.
    pub fn seed_ball(&mut self, index: usize, step: u32, pos: [u32; 3], quat: [u32; 4])
        requires
            old(self).wf(),
            index < MAX_BALLS,
        ensures
            final(self).wf(),
            final(self).slots@[index as int]@ == old(self).slots@[index as int]@.snapped(
                step,
                pos,
                quat,
            ),
            final(self).slots@ == old(self).slots@.update(
                index as int,
                final(self).slots@[index as int],
            ),
            final(self).count == index + 1,
            *final(self) == (BallMotions {
                slots: final(self).slots,
                count: final(self).count,
                ..*old(self)
            }),
    {
        self.slots[index].publish_snap(step, pos, quat);
        self.set_count(index + 1);
    }
}

impl Default for BallMotions {
    fn default() -> (balls: BallMotions)
        ensures
            balls.wf(),
            balls.fresh(),
    {
        Self::new()
    }
}

/// A drop request reaches the next poll with its place, once: the poll after it gives nothing.
pub proof fn requests_are_polled_once(
    requested: &mut BallMotions,
    last: &mut u32,
    next: &mut u32,
    x: u32,
    z: u32,
    first: Option<(u32, u32)>,
    second: Option<(u32, u32)>,
)
    requires
        *old(last) == old(requested).drop_seq,
        call_ensures(BallMotions::request_drop, (requested, x, z), ()),
        call_ensures(BallMotions::poll_drop, (&*final(requested), last), first),
        *old(next) == *final(last),
        call_ensures(BallMotions::poll_drop, (&*final(requested), next), second),
    ensures
        first == Some((x, z)),
        second is None,
        final(requested).count == old(requested).count,
        final(requested).slots == old(requested).slots,
{
}

/// A ball that was seeded is counted, and its ring shows its pose as the latest and for the step
/// before; the rings of the other balls stay as they were.
pub proof fn seeded_ball_is_visible(
    seeded: &mut BallMotions,
    index: usize,
    other: int,
    step: u32,
    pos: [u32; 3],
    quat: [u32; 4],
    count: usize,
    ring: &PoseRing,
    newest: ([u32; 3], [u32; 4]),
)
    requires
        old(seeded).wf(),
        index < MAX_BALLS,
        0 <= other < MAX_BALLS,
        other != index,
        call_ensures(BallMotions::seed_ball, (seeded, index, step, pos, quat), ()),
        call_ensures(BallMotions::count, (&*final(seeded),), count),
        call_ensures(BallMotions::slot, (&*final(seeded), index), ring),
        call_ensures(PoseRing::read_latest, (ring,), newest),
    ensures
        count == index + 1,
        newest == (pos, quat),
        ring@.latest == step,
        ring@.reading(step.wrapping_sub(1)) == Some((pos, quat)),
        final(seeded).slots@[other] == old(seeded).slots@[other],
        final(seeded).drop_seq == old(seeded).drop_seq,
{
    assert(old(seeded).slots@[index as int]@.seeded());
    crate::pose_ring::snap_covers_both_steps(old(seeded).slots@[index as int]@, step, pos, quat);
}

} // verus!
