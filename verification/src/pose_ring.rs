//! The pose ring: the last [`POSE_RING`] published step poses of one body.
//!
//! Physics (the sole writer) publishes a pose for every fixed step; render samples the ring at a
//! step-indexed display time. A pose is a position and a quaternion, each component held as the
//! bits of a single-precision float. The types here are the ring as a value; [`crate::shared`]
//! runs the same operations word by word on memory that several threads share.

use vstd::prelude::*;

verus! {

/// Pose-ring depth, in steps. The ring is a jitter buffer: it holds the worst display lag plus a
/// margin, so that wobble in when physics wakes is absorbed by history.
pub const POSE_RING: usize = 32;

/// One fixed step's published pose, tagged with its absolute step so that a reader can tell
/// whether the slot still holds the step it wants (the ring overwrites in place).
#[derive(Clone, Copy, Debug, PartialEq, Eq)]
pub struct PoseSlot {
    /// Odd while a write is in flight, even otherwise.
    pub version: u32,
    /// The step whose pose the slot holds.
    pub step: u32,
    /// `pos[3], quat[4]` as float bits.
    pub fields: [u32; 7],
}

/// A pose as one run of words: position, then quaternion.
pub open spec fn pose_words(pos: [u32; 3], quat: [u32; 4]) -> [u32; 7] {
    [pos@[0], pos@[1], pos@[2], quat@[0], quat@[1], quat@[2], quat@[3]]
}

/// The pose that a run of seven words stands for.
pub open spec fn words_pose(words: [u32; 7]) -> ([u32; 3], [u32; 4]) {
    ([words@[0], words@[1], words@[2]], [words@[3], words@[4], words@[5], words@[6]])
}

/// Packing a pose into words and unpacking it gives the pose back.
pub proof fn pose_words_round_trip(pos: [u32; 3], quat: [u32; 4])
    ensures
        words_pose(pose_words(pos, quat)) == (pos, quat),
{
    let back = words_pose(pose_words(pos, quat));
    assert(back.0@ =~= pos@);
    assert(back.1@ =~= quat@);
    assert(back.0 == pos);
    assert(back.1 == quat);
}

/// A pose is stored position first: its words are the three of the position and then the four of
/// the quaternion, in order.
pub proof fn pose_words_are_in_order(pos: [u32; 3], quat: [u32; 4])
    ensures
        pose_words(pos, quat)@ == pos@ + quat@,
{
    assert(pose_words(pos, quat)@ =~= pos@ + quat@);
}

/// A slot that was never written: no write in flight, and a tag.
pub open spec fn empty_slot(tag: u32) -> PoseSlot {
    PoseSlot { version: 0, step: tag, fields: [0u32, 0, 0, 0, 0, 0, 0] }
}

/// The tag of a slot of a ring before it is written: a step that belongs to another slot, so that
/// no read takes it for a pose. It is the largest step, which belongs to the last slot, and the
/// first step in the last slot.
pub open spec fn empty_tag(index: int) -> u32 {
    if index == POSE_RING - 1 {
        0
    } else {
        u32::MAX
    }
}

impl PoseSlot {
    /// The slot after a complete write: the version moves on by two, everything else is replaced.
    pub open spec fn written(self, step: u32, pos: [u32; 3], quat: [u32; 4]) -> PoseSlot {
        PoseSlot {
            version: self.version.wrapping_add(2),
            step,
            fields: pose_words(pos, quat),
        }
    }

    /// What a read for `expect` gives: nothing while a write is in flight or when the slot holds
    /// another step.
    pub open spec fn reading(self, expect: u32) -> Option<([u32; 3], [u32; 4])> {
        if self.version % 2 == 0 && self.step == expect {
            Some(words_pose(self.fields))
        } else {
            None
        }
    }

    /// An empty slot, tagged with a step that it never holds.
    pub fn new(tag: u32) -> (slot: PoseSlot)
        ensures
            slot == empty_slot(tag),
    {
        PoseSlot { version: 0, step: tag, fields: [0, 0, 0, 0, 0, 0, 0] }
    }

    /// Replaces the slot's pose by the one of `step`.
    pub fn write(&mut self, step: u32, pos: [u32; 3], quat: [u32; 4])
        ensures
            *final(self) == old(self).written(step, pos, quat),
    {
        self.version = self.version.wrapping_add(2);
        self.step = step;
        self.fields = [pos[0], pos[1], pos[2], quat[0], quat[1], quat[2], quat[3]];
    }

    /// The pose of `expect_step`, or `None` if the slot holds a different step (overwritten) or a
    /// write is in flight.
    pub fn read(&self, expect_step: u32) -> (pose: Option<([u32; 3], [u32; 4])>)
        ensures
            pose == self.reading(expect_step),
            pose is Some <==> self.version % 2 == 0 && self.step == expect_step,
            pose matches Some(p) ==> p.0@ + p.1@ == self.fields@,
    {
        proof {
            let p = words_pose(self.fields);
            assert(p.0@ + p.1@ =~= self.fields@);
        }
        if self.version % 2 != 0 || self.step != expect_step {
            return None;
        }
        let f: [u32; 7] = self.fields;
        Some(([f[0], f[1], f[2]], [f[3], f[4], f[5], f[6]]))
    }
}

/// The contents of a pose ring.
#[verifier::ext_equal]
pub struct RingView {
    pub latest: u32,
    pub slots: Seq<PoseSlot>,
}

/// The slot that belongs to an absolute step.
pub open spec fn slot_index(step: u32) -> int {
    step as int % POSE_RING as int
}

impl RingView {
    /// The ring has all its slots and no write is in flight.
    pub open spec fn settled(self) -> bool {
        &&& self.slots.len() == POSE_RING
        &&& forall|i: int| 0 <= i < POSE_RING ==> (#[trigger] self.slots[i]).version % 2 == 0
    }

    /// The ring is settled and its newest step can be read.
    pub open spec fn seeded(self) -> bool {
        &&& self.settled()
        &&& self.slots[slot_index(self.latest)].step == self.latest
    }

    /// The ring after one slot was written for `step`.
    pub open spec fn wrote(self, step: u32, pos: [u32; 3], quat: [u32; 4]) -> RingView {
        RingView {
            slots: self.slots.update(
                slot_index(step),
                self.slots[slot_index(step)].written(step, pos, quat),
            ),
            ..self
        }
    }

    /// The ring after the pose of `step` was published.
    pub open spec fn published(self, step: u32, pos: [u32; 3], quat: [u32; 4]) -> RingView {
        RingView { latest: step, ..self.wrote(step, pos, quat) }
    }

    /// The ring after a teleport was published at `step`: the pose stands for `step` and for the
    /// step before.
    pub open spec fn snapped(self, step: u32, pos: [u32; 3], quat: [u32; 4]) -> RingView {
        self.wrote(step.wrapping_sub(1), pos, quat).published(step, pos, quat)
    }

    /// What the ring gives for `step`.
    pub open spec fn reading(self, step: u32) -> Option<([u32; 3], [u32; 4])> {
        self.slots[slot_index(step)].reading(step)
    }

    /// The ring after the poses of `poses.len()` consecutive steps were published, the first of
    /// them for the step `first`.
    pub open spec fn published_run(self, first: u32, poses: Seq<([u32; 3], [u32; 4])>) -> RingView
        decreases poses.len(),
    {
        if poses.len() == 0 {
            self
        } else {
            self.published_run(first, poses.drop_last()).published(
                run_step(first, poses.len() - 1),
                poses.last().0,
                poses.last().1,
            )
        }
    }
}

/// The `i`-th step counted from `first`; step numbers wrap.
pub open spec fn run_step(first: u32, i: int) -> u32 {
    ((first + i) % 0x1_0000_0000) as u32
}

/// A ring of the last [`POSE_RING`] published step poses for one body, plus the latest published
/// step.
#[derive(Clone, Copy, Debug, PartialEq, Eq)]
pub struct PoseRing {
    pub latest: u32,
    pub slots: [PoseSlot; 32],
}

impl View for PoseRing {
    type V = RingView;

    open spec fn view(&self) -> RingView {
        RingView { latest: self.latest, slots: self.slots@ }
    }
}

/// The ring before anything was published.
pub open spec fn empty_ring() -> RingView {
    RingView {
        latest: 0,
        slots: Seq::new(POSE_RING as nat, |i: int| empty_slot(empty_tag(i))),
    }
}

impl PoseRing {
    /// A ring seeded with the given resting pose at step 0.
    pub fn new(pos: [u32; 3], quat: [u32; 4]) -> (ring: PoseRing)
        ensures
            ring@ == empty_ring().wrote(0, pos, quat),
            ring@.seeded(),
            ring@.reading(0) == Some((pos, quat)),
            forall|step: u32| step != 0 ==> (#[trigger] ring@.reading(step)) is None,
    {
        let s = PoseSlot::new(u32::MAX);
        let slots: [PoseSlot; 32] = [
            s, s, s, s, s, s, s, s,
            s, s, s, s, s, s, s, s,
            s, s, s, s, s, s, s, s,
            s, s, s, s, s, s, s, PoseSlot::new(0),
        ];
        assert(slots@ =~= empty_ring().slots);
        let mut ring = PoseRing { latest: 0, slots };
        ring.slots[0].write(0, pos, quat);
        proof {
            pose_words_round_trip(pos, quat);
            assert forall|step: u32| step != 0 implies (#[trigger] ring@.reading(step)) is None by {
                if slot_index(step) != 0 {
                    assert(ring@.slots[slot_index(step)] == empty_slot(
                        empty_tag(slot_index(step)),
                    ));
                }
            }
        }
        ring
    }

    /// Writes the slot of `step`, leaving the latest step as it is.
    fn write_slot(&mut self, step: u32, pos: [u32; 3], quat: [u32; 4])
        ensures
            final(self)@ == old(self)@.wrote(step, pos, quat),
    {
        let i: usize = step as usize % POSE_RING;
        self.slots[i].write(step, pos, quat);
    }

    /// Writer side (physics): publishes the pose at absolute step `step`.
    pub fn publish(&mut self, step: u32, pos: [u32; 3], quat: [u32; 4])
        ensures
            final(self)@ == old(self)@.published(step, pos, quat),
            old(self)@.settled() ==> final(self)@.seeded(),
    {
        self.write_slot(step, pos, quat);
        self.latest = step;
        proof {
            published_is_seeded(old(self)@, step, pos, quat);
        }
    }

    /// Writer side: publishes a teleport. The pose is written for `step` and for the step before,
    /// so a reader interpolating across the boundary snaps instead of sweeping the body through
    /// the world.
    pub fn publish_snap(&mut self, step: u32, pos: [u32; 3], quat: [u32; 4])
        ensures
            final(self)@ == old(self)@.snapped(step, pos, quat),
            old(self)@.settled() ==> final(self)@.seeded(),
    {
        self.write_slot(step.wrapping_sub(1), pos, quat);
        proof {
            if old(self)@.settled() {
                wrote_is_settled(old(self)@, step.wrapping_sub(1), pos, quat);
            }
        }
        self.publish(step, pos, quat);
    }

    /// Latest published absolute step.
    pub fn latest_step(&self) -> (step: u32)
        ensures
            step == self@.latest,
    {
        self.latest
    }

    /// The pose published for `step`, if the ring still holds it.
    pub fn read_step(&self, step: u32) -> (pose: Option<([u32; 3], [u32; 4])>)
        ensures
            pose == self@.reading(step),
    {
        self.slots[step as usize % POSE_RING].read(step)
    }

    /// The latest pose (always available once seeded).
    pub fn read_latest(&self) -> (pose: ([u32; 3], [u32; 4]))
        requires
            self@.seeded(),
        ensures
            self@.reading(self@.latest) == Some(pose),
    {
        let f: [u32; 7] = self.slots[self.latest as usize % POSE_RING].fields;
        ([f[0], f[1], f[2]], [f[3], f[4], f[5], f[6]])
    }
}

/// A completed write leaves no write in flight.
pub proof fn wrote_is_settled(ring: RingView, step: u32, pos: [u32; 3], quat: [u32; 4])
    requires
        ring.settled(),
    ensures
        ring.wrote(step, pos, quat).settled(),
{
}

/// A ring can be read at its latest step after every publish.
pub proof fn published_is_seeded(ring: RingView, step: u32, pos: [u32; 3], quat: [u32; 4])
    ensures
        ring.settled() ==> ring.published(step, pos, quat).seeded(),
{
    if ring.settled() {
        wrote_is_settled(ring, step, pos, quat);
    }
}

/// A published pose is what a read of its step gives back, and a read of any other step is either
/// what it was before or, where the step shares the slot, nothing.
pub proof fn read_after_publish(
    ring: RingView,
    step: u32,
    pos: [u32; 3],
    quat: [u32; 4],
    other: u32,
)
    requires
        ring.settled(),
    ensures
        ring.published(step, pos, quat).reading(step) == Some((pos, quat)),
        other != step && slot_index(other) == slot_index(step) ==> ring.published(
            step,
            pos,
            quat,
        ).reading(other) is None,
        slot_index(other) != slot_index(step) ==> ring.published(step, pos, quat).reading(other)
            == ring.reading(other),
        slot_index(other) == slot_index(step) <==> (other - step) % 32 == 0,
        ring.published(step, pos, quat).latest == step,
{
    pose_words_round_trip(pos, quat);
    vstd::arithmetic::div_mod::lemma_mod_equivalence(other as int, step as int, 32);
}

/// After a teleport the step itself and the step before read the same pose, whatever the ring
/// held.
pub proof fn snap_covers_both_steps(ring: RingView, step: u32, pos: [u32; 3], quat: [u32; 4])
    requires
        ring.settled(),
    ensures
        ring.snapped(step, pos, quat).reading(step) == Some((pos, quat)),
        ring.snapped(step, pos, quat).reading(step.wrapping_sub(1)) == Some((pos, quat)),
        ring.snapped(step, pos, quat).latest == step,
{
    let before = step.wrapping_sub(1);
    let mid = ring.wrote(before, pos, quat);
    pose_words_round_trip(pos, quat);
    wrote_is_settled(ring, before, pos, quat);
    assert(mid.reading(before) == Some((pos, quat)));
    read_after_publish(mid, step, pos, quat, before);
}

/// A teleport takes away no other pose than those that shared its two slots.
pub proof fn snap_keeps_the_other_steps(
    ring: RingView,
    step: u32,
    pos: [u32; 3],
    quat: [u32; 4],
    other: u32,
)
    requires
        ring.settled(),
        (other - step) % 32 != 0,
        (other - step) % 32 != 31,
    ensures
        ring.snapped(step, pos, quat).reading(other) == ring.reading(other),
{
    let before = step.wrapping_sub(1);
    assert(slot_index(other) != slot_index(step));
    assert(slot_index(other) != slot_index(before));
}

/// A slot gives nothing while a write is in flight and nothing for a step that it does not hold;
/// else its words, position first.
pub proof fn slots_are_read_by_their_step(slot: PoseSlot, expect: u32)
    ensures
        slot.version % 2 == 1 ==> slot.reading(expect) is None,
        slot.step != expect ==> slot.reading(expect) is None,
        slot.version % 2 == 0 && slot.step == expect ==> slot.reading(expect) is Some,
        slot.reading(expect) matches Some(pose) ==> pose.0@ + pose.1@ == slot.fields@,
{
    let p = words_pose(slot.fields);
    assert(p.0@ + p.1@ =~= slot.fields@);
}

/// Publishing step after step, the ring keeps the last [`POSE_RING`] poses: each of them can be
/// read by its step, the newest is the latest, and the steps older than that are gone.
pub proof fn ring_keeps_the_last_poses(
    ring: RingView,
    first: u32,
    poses: Seq<([u32; 3], [u32; 4])>,
    i: int,
)
    requires
        ring.settled(),
        0 <= i < poses.len() < 0x1_0000_0000,
    ensures
        ring.published_run(first, poses).settled(),
        ring.published_run(first, poses).latest == run_step(first, poses.len() - 1),
        i >= poses.len() - POSE_RING ==> ring.published_run(first, poses).reading(
            run_step(first, i),
        ) == Some(poses[i]),
        i < poses.len() - POSE_RING ==> ring.published_run(first, poses).reading(
            run_step(first, i),
        ) is None,
    decreases poses.len(),
{
    let n = poses.len() - 1;
    let rest = poses.drop_last();
    let before = ring.published_run(first, rest);
    let last = run_step(first, n);
    let this = run_step(first, i);
    if rest.len() > 0 {
        ring_keeps_the_last_poses(ring, first, rest, if i < n { i } else { 0 });
    }
    assert(before.settled());
    wrote_is_settled(before, last, poses.last().0, poses.last().1);
    read_after_publish(before, last, poses.last().0, poses.last().1, this);
    if i < n {
        run_steps_differ(first, i, n);
        run_steps_share_slot(first, i, n);
        assert(rest[i] == poses[i]);
    }
}

/// The ring after each of `writes` was written in turn.
pub open spec fn wrote_all(ring: RingView, writes: Seq<(u32, [u32; 3], [u32; 4])>) -> RingView
    decreases writes.len(),
{
    if writes.len() == 0 {
        ring
    } else {
        let last = writes.last();
        wrote_all(ring, writes.drop_last()).wrote(last.0, last.1, last.2)
    }
}

/// A ring never makes up a pose: whatever was written since it was empty, a read of a step gives
/// nothing or the pose that was written for this very step last.
pub proof fn only_written_poses_are_read(writes: Seq<(u32, [u32; 3], [u32; 4])>, step: u32)
    ensures
        wrote_all(empty_ring(), writes).settled(),
        match wrote_all(empty_ring(), writes).reading(step) {
            None => true,
            Some(pose) => exists|i: int|
                0 <= i < writes.len() && (#[trigger] writes[i]) == (step, pose.0, pose.1)
                    && forall|j: int| i < j < writes.len() ==> (#[trigger] writes[j]).0 != step,
        },
    decreases writes.len(),
{
    let ring = wrote_all(empty_ring(), writes);
    if writes.len() == 0 {
        assert(ring.slots[slot_index(step)] == empty_slot(empty_tag(slot_index(step))));
    } else {
        let rest = writes.drop_last();
        let last = writes.last();
        let before = wrote_all(empty_ring(), rest);
        only_written_poses_are_read(rest, step);
        pose_words_round_trip(last.1, last.2);
        if slot_index(step) == slot_index(last.0) {
            if step == last.0 {
                assert(writes[writes.len() - 1] == (step, last.1, last.2));
            }
        } else {
            assert(ring.reading(step) == before.reading(step));
            if let Some(pose) = before.reading(step) {
                let i = choose|i: int|
                    0 <= i < rest.len() && (#[trigger] rest[i]) == (step, pose.0, pose.1)
                        && forall|j: int| i < j < rest.len() ==> (#[trigger] rest[j]).0 != step;
                assert(writes[i] == (step, pose.0, pose.1));
                assert forall|j: int| i < j < writes.len() implies (#[trigger] writes[j]).0
                    != step by {
                    if j < rest.len() {
                        assert(rest[j].0 != step);
                    }
                }
            }
        }
    }
}

/// Two places in a run share a slot exactly when they lie a whole number of rings apart.
#[verifier::spinoff_prover]
proof fn run_steps_share_slot(first: u32, i: int, j: int)
    requires
        0 <= i <= j,
    ensures
        slot_index(run_step(first, i)) == slot_index(run_step(first, j)) <==> (j - i) % 32 == 0,
{
    slot_of_run_step(first, i);
    slot_of_run_step(first, j);
    vstd::arithmetic::div_mod::lemma_mod_equivalence(first + j, first + i, 32);
}

/// The slot of a step in a run is found by counting slots.
#[verifier::spinoff_prover]
proof fn slot_of_run_step(first: u32, i: int)
    requires
        0 <= i,
    ensures
        slot_index(run_step(first, i)) == (first + i) % 32,
{
    assert(((first + i) % 0x1_0000_0000) % 32 == (first + i) % 32);
}

/// Two different places in a run shorter than the step counter name different steps.
proof fn run_steps_differ(first: u32, i: int, j: int)
    requires
        0 <= i < j < 0x1_0000_0000,
    ensures
        run_step(first, i) != run_step(first, j),
{
}

/// What is published into a ring is what is read from it: the pose of a step is given back for that
/// step and, as long as nothing newer comes, as the latest; a teleport stands for the step before
/// too; and a new ring gives its resting pose for step zero and nothing for any other step.
pub proof fn rings_give_back_what_was_published(
    published: &mut PoseRing,
    snapped: &mut PoseRing,
    resting: PoseRing,
    step: u32,
    other: u32,
    pos: [u32; 3],
    quat: [u32; 4],
    read: Option<([u32; 3], [u32; 4])>,
    newest: ([u32; 3], [u32; 4]),
    latest: u32,
    before: Option<([u32; 3], [u32; 4])>,
    at_rest: Option<([u32; 3], [u32; 4])>,
    elsewhere: Option<([u32; 3], [u32; 4])>,
)
    requires
        old(published)@.settled(),
        old(snapped)@.settled(),
        other != 0,
        call_ensures(PoseRing::publish, (published, step, pos, quat), ()),
        call_ensures(PoseRing::read_step, (&*final(published), step), read),
        call_ensures(PoseRing::read_latest, (&*final(published),), newest),
        call_ensures(PoseRing::latest_step, (&*final(published),), latest),
        call_ensures(PoseRing::publish_snap, (snapped, step, pos, quat), ()),
        call_ensures(PoseRing::read_step, (&*final(snapped), step.wrapping_sub(1)), before),
        call_ensures(PoseRing::new, (pos, quat), resting),
        call_ensures(PoseRing::read_step, (&resting, 0u32), at_rest),
        call_ensures(PoseRing::read_step, (&resting, other), elsewhere),
    ensures
        read == Some((pos, quat)),
        newest == (pos, quat),
        latest == step,
        before == Some((pos, quat)),
        at_rest == Some((pos, quat)),
        elsewhere is None,
{
    read_after_publish(old(published)@, step, pos, quat, step);
    snap_covers_both_steps(old(snapped)@, step, pos, quat);
}

} // verus!
