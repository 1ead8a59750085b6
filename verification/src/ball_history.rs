//! What render can see of the dropped balls, while physics makes new ones visible and publishes
//! their poses.
//!
//! Physics is the only writer of the rings and of the count. It seeds a ball's ring and only then
//! raises the count, so that whatever render finds below the count is a pose that physics
//! published: see [`visible_balls_have_poses`].

use vstd::prelude::*;

use crate::ball_motions::MAX_BALLS;
use crate::blocks::{BallsBlock, BALLS_WORDS};
use crate::pose_ring::{PoseSlot, RingView};
use crate::seqlock::SLOT_WORDS;
use crate::shared::Event;
use crate::shared_ring::RING_WORDS;
use crate::words::Order;

verus! {

/// What physics does for a ball.
#[derive(Clone, Copy)]
pub enum BallDeed {
    /// [`BallsBlock::seed_ball`].
    Seed,
    /// [`crate::shared_ring::publish`].
    Publish,
    /// [`crate::shared_ring::publish_snap`].
    Snap,
}

/// One operation of physics on the ring of a ball; `u` and `v` are the versions that it found in
/// the slots.
pub struct BallAct {
    pub deed: BallDeed,
    pub index: int,
    pub step: u32,
    pub pos: [u32; 3],
    pub quat: [u32; 4],
    pub u: u32,
    pub v: u32,
}

impl BallAct {
    /// The accesses of the operation.
    pub open spec fn events(self, block: BallsBlock) -> Seq<Event> {
        let at = block.ring_at(self.index);
        match self.deed {
            BallDeed::Seed => block.seed_events(
                self.index,
                self.u,
                self.v,
                self.step,
                self.pos,
                self.quat,
            ),
            BallDeed::Publish => crate::shared_ring::publish_events(
                at,
                self.v,
                self.step,
                self.pos,
                self.quat,
            ),
            BallDeed::Snap => crate::shared_ring::snap_events(
                at,
                self.u,
                self.v,
                self.step,
                self.pos,
                self.quat,
            ),
        }
    }

    /// The step and pose were published by the operation for the ball.
    pub open spec fn published(self, index: int, step: u32, pose: ([u32; 3], [u32; 4])) -> bool {
        &&& index == self.index
        &&& pose == (self.pos, self.quat)
        &&& step == self.step || !(self.deed is Publish) && step == self.step.wrapping_sub(1)
    }
}

/// The accesses of the operations, one after the other.
pub open spec fn acts_events(block: BallsBlock, acts: Seq<BallAct>) -> Seq<Event>
    decreases acts.len(),
{
    if acts.len() == 0 {
        Seq::empty()
    } else {
        acts_events(block, acts.drop_last()) + acts.last().events(block)
    }
}

/// How many balls the operations have made visible.
pub open spec fn seeded(acts: Seq<BallAct>) -> int
    decreases acts.len(),
{
    if acts.len() == 0 {
        0
    } else {
        seeded(acts.drop_last()) + if acts.last().deed is Seed {
            1int
        } else {
            0int
        }
    }
}

/// Balls are made visible in order, as long as there are rings for them, and poses are published
/// for visible balls.
pub open spec fn in_order(acts: Seq<BallAct>) -> bool
    decreases acts.len(),
{
    if acts.len() == 0 {
        true
    } else {
        let rest = acts.drop_last();
        let index = acts.last().index;
        &&& in_order(rest)
        &&& if acts.last().deed is Seed {
            index == seeded(rest) && index < MAX_BALLS
        } else {
            0 <= index < seeded(rest)
        }
    }
}

/// One of the operations published the step and pose for the ball.
pub open spec fn was_published(
    acts: Seq<BallAct>,
    index: int,
    step: u32,
    pose: ([u32; 3], [u32; 4]),
) -> bool {
    exists|k: int| 0 <= k < acts.len() && (#[trigger] acts[k]).published(index, step, pose)
}

/// The slot whose words start at `at`.
pub open spec fn slot_of(mem: Seq<u32>, at: int) -> PoseSlot {
    PoseSlot {
        version: mem[at],
        step: mem[at + 1],
        fields: [
            mem[at + 2],
            mem[at + 3],
            mem[at + 4],
            mem[at + 5],
            mem[at + 6],
            mem[at + 7],
            mem[at + 8],
        ],
    }
}

/// What a read of the step gives in this memory.
pub open spec fn reading(mem: Seq<u32>, ring_at: int, step: u32) -> Option<([u32; 3], [u32; 4])> {
    slot_of(mem, crate::shared_ring::slot_at(ring_at, step)).reading(step)
}

/// What the slot of the step holds, unless a write is in flight, was published for the ball.
pub open spec fn shows_published(
    mem: Seq<u32>,
    block: BallsBlock,
    index: int,
    step: u32,
    acts: Seq<BallAct>,
) -> bool {
    let slot = slot_of(mem, crate::shared_ring::slot_at(block.ring_at(index), step));
    slot.version % 2 == 0 ==> was_published(
        acts,
        index,
        slot.step,
        crate::pose_ring::words_pose(slot.fields),
    )
}

/// The memory holds these rings, with no write in flight.
pub open spec fn holds_rings(mem: Seq<u32>, block: BallsBlock, rings: Seq<RingView>) -> bool {
    &&& block.at + BALLS_WORDS <= mem.len()
    &&& rings.len() == MAX_BALLS
    &&& forall|i: int|
        0 <= i < MAX_BALLS ==> crate::shared_ring::holds_ring(
            mem,
            block.ring_at(i),
            #[trigger] rings[i],
        ) && rings[i].settled()
}

/// A slot in memory is the one that its words give.
proof fn slot_is_held(mem: Seq<u32>, at: int, slot: PoseSlot)
    requires
        crate::seqlock::holds_slot(mem, at, slot),
    ensures
        slot_of(mem, at) == slot,
{
    let got = slot_of(mem, at);
    assert forall|k: int| 0 <= k < 7 implies got.fields@[k] == slot.fields@[k] by {
        assert(mem[at + 2 + k] == slot.fields@[k]);
    }
    assert(got.fields@ =~= slot.fields@);
    assert(got.fields == slot.fields);
}

/// What was published stays published: every slot that showed only published poses still does.
pub open spec fn keeps(
    mem: Seq<u32>,
    now: Seq<u32>,
    block: BallsBlock,
    acts: Seq<BallAct>,
) -> bool {
    forall|j: int, s: u32|
        0 <= j < MAX_BALLS && shows_published(mem, block, j, s, acts) ==> #[trigger] shows_published(
            now,
            block,
            j,
            s,
            acts,
        )
}

/// The rings and the count have the same latest steps and the same number.
pub open spec fn same_latest(mem: Seq<u32>, now: Seq<u32>, block: BallsBlock) -> bool {
    &&& forall|j: int|
        0 <= j < MAX_BALLS ==> now[#[trigger] block.ring_at(j)] == mem[block.ring_at(j)]
    &&& now[block.at + 3] == mem[block.at + 3]
}

/// The memory while a slot is written: after the first `m` accesses of the write.
proof fn slot_write_in_progress(
    mem: Seq<u32>,
    block: BallsBlock,
    rings: Seq<RingView>,
    act: BallAct,
    v: u32,
    step: u32,
    acts: Seq<BallAct>,
    m: int,
)
    requires
        holds_rings(mem, block, rings),
        0 <= act.index < MAX_BALLS,
        0 <= m <= 13,
        was_published(acts, act.index, step, (act.pos, act.quat)),
        crate::shared::undisturbed(
            mem,
            crate::seqlock::write_events(
                crate::shared_ring::slot_at(block.ring_at(act.index), step),
                v,
                step,
                crate::pose_ring::pose_words(act.pos, act.quat),
            ),
        ),
    ensures
        ({
            let events = crate::seqlock::write_events(
                crate::shared_ring::slot_at(block.ring_at(act.index), step),
                v,
                step,
                crate::pose_ring::pose_words(act.pos, act.quat),
            );
            let now = crate::shared::run(mem, events.take(m));
            &&& now.len() == mem.len()
            &&& keeps(mem, now, block, acts)
            &&& same_latest(mem, now, block)
            &&& m == 13 ==> holds_rings(
                now,
                block,
                rings.update(act.index, rings[act.index].wrote(step, act.pos, act.quat)),
            ) && shows_published(now, block, act.index, step, acts)
        }),
{
    let at = crate::shared_ring::slot_at(block.ring_at(act.index), step);
    let words = crate::pose_ring::pose_words(act.pos, act.quat);
    let events = crate::seqlock::write_events(at, v, step, words);
    let ring = rings[act.index];
    let k = crate::pose_ring::slot_index(step);
    let slot = ring.slots[k];
    assert(crate::shared_ring::holds_ring(mem, block.ring_at(act.index), ring));
    assert(ring.settled());
    assert(crate::seqlock::holds_slot(mem, at, slot));
    crate::shared::first_access_agrees(mem, events);
    assert(v == slot.version);
    crate::seqlock::write_in_progress(mem, at, slot, step, words, m);
    let now = crate::shared::run(mem, events.take(m));
    let part = crate::seqlock::part_written(slot, step, words, m);
    slot_is_held(mem, at, slot);
    slot_is_held(now, at, part);
    crate::pose_ring::pose_words_round_trip(act.pos, act.quat);
    if m == 13 {
        crate::seqlock::last_access_completes_the_write(slot, step, words);
    }
    assert forall|j: int, s: u32|
        0 <= j < MAX_BALLS && shows_published(mem, block, j, s, acts) implies #[trigger]
    shows_published(now, block, j, s, acts) by {
        let there = crate::shared_ring::slot_at(block.ring_at(j), s);
        if j == act.index && crate::pose_ring::slot_index(s) == k {
            if m < 2 {
                assert(part.fields@ =~= slot.fields@);
                assert(part.fields == slot.fields);
            } else if m < 13 {
                assert(part.version % 2 == 1);
            }
        } else {
            assert(there + SLOT_WORDS <= at || at + SLOT_WORDS <= there);
            slot_untouched(mem, now, at, there);
        }
    }
    if m == 13 {
        assert(events.take(13) =~= events);
        ring_written(mem, block, rings, act, v, step);
    }
}

/// Words elsewhere do not matter to a slot.
proof fn slot_untouched(mem: Seq<u32>, now: Seq<u32>, at: int, there: int)
    requires
        crate::seqlock::same_outside_slot(mem, now, at),
        0 <= there,
        there + SLOT_WORDS <= mem.len(),
        there + SLOT_WORDS <= at || at + SLOT_WORDS <= there,
    ensures
        slot_of(now, there) == slot_of(mem, there),
{
    assert(slot_of(now, there).fields@ =~= slot_of(mem, there).fields@);
    assert(slot_of(now, there).fields == slot_of(mem, there).fields);
}

/// The rings after a slot was written.
proof fn ring_written(
    mem: Seq<u32>,
    block: BallsBlock,
    rings: Seq<RingView>,
    act: BallAct,
    v: u32,
    step: u32,
)
    requires
        holds_rings(mem, block, rings),
        0 <= act.index < MAX_BALLS,
        crate::shared::undisturbed(
            mem,
            crate::seqlock::write_events(
                crate::shared_ring::slot_at(block.ring_at(act.index), step),
                v,
                step,
                crate::pose_ring::pose_words(act.pos, act.quat),
            ),
        ),
    ensures
        holds_rings(
            crate::shared::run(
                mem,
                crate::seqlock::write_events(
                    crate::shared_ring::slot_at(block.ring_at(act.index), step),
                    v,
                    step,
                    crate::pose_ring::pose_words(act.pos, act.quat),
                ),
            ),
            block,
            rings.update(act.index, rings[act.index].wrote(step, act.pos, act.quat)),
        ),
{
    let at = block.ring_at(act.index);
    let ring = rings[act.index];
    assert(crate::shared_ring::holds_ring(mem, at, ring) && ring.settled());
    crate::shared_ring::undisturbed_ring_write(mem, at, ring, v, step, act.pos, act.quat);
    crate::pose_ring::wrote_is_settled(ring, step, act.pos, act.quat);
    let now = crate::shared::run(
        mem,
        crate::seqlock::write_events(
            crate::shared_ring::slot_at(at, step),
            v,
            step,
            crate::pose_ring::pose_words(act.pos, act.quat),
        ),
    );
    other_rings_held(
        mem,
        now,
        block,
        rings,
        act.index,
        ring.wrote(step, act.pos, act.quat),
    );
}

/// A change within one ring leaves the others.
proof fn other_rings_held(
    mem: Seq<u32>,
    now: Seq<u32>,
    block: BallsBlock,
    rings: Seq<RingView>,
    index: int,
    ring: RingView,
)
    requires
        holds_rings(mem, block, rings),
        0 <= index < MAX_BALLS,
        crate::shared_ring::holds_ring(now, block.ring_at(index), ring),
        ring.settled(),
        crate::shared::same_outside(mem, now, block.ring_at(index), RING_WORDS as int),
    ensures
        holds_rings(now, block, rings.update(index, ring)),
{
    let next = rings.update(index, ring);
    assert forall|i: int| 0 <= i < MAX_BALLS implies crate::shared_ring::holds_ring(
        now,
        block.ring_at(i),
        #[trigger] next[i],
    ) && next[i].settled() by {
        if i != index {
            assert(crate::shared_ring::holds_ring(mem, block.ring_at(i), rings[i]));
            crate::blocks::ring_unmoved(
                mem,
                now,
                block.ring_at(index),
                RING_WORDS as int,
                block.ring_at(i),
                rings[i],
            );
        }
    }
}

/// The memory while a pose is published: after the first `n` accesses.
proof fn publish_in_progress(
    mem: Seq<u32>,
    block: BallsBlock,
    rings: Seq<RingView>,
    act: BallAct,
    acts: Seq<BallAct>,
    n: int,
)
    requires
        holds_rings(mem, block, rings),
        0 <= act.index < MAX_BALLS,
        0 <= n <= 14,
        was_published(acts, act.index, act.step, (act.pos, act.quat)),
        crate::shared::undisturbed(
            mem,
            crate::shared_ring::publish_events(
                block.ring_at(act.index),
                act.v,
                act.step,
                act.pos,
                act.quat,
            ),
        ),
    ensures
        ({
            let at = block.ring_at(act.index);
            let events = crate::shared_ring::publish_events(
                at,
                act.v,
                act.step,
                act.pos,
                act.quat,
            );
            let now = crate::shared::run(mem, events.take(n));
            &&& events.len() == 14
            &&& now.len() == mem.len()
            &&& keeps(mem, now, block, acts)
            &&& n < 14 ==> same_latest(mem, now, block)
            &&& n == 14 ==> {
                &&& same_latest(mem.update(at, act.step), now, block)
                &&& shows_published(now, block, act.index, act.step, acts)
                &&& holds_rings(
                    now,
                    block,
                    rings.update(
                        act.index,
                        rings[act.index].published(act.step, act.pos, act.quat),
                    ),
                )
            }
        }),
{
    let at = block.ring_at(act.index);
    let write = crate::seqlock::write_events(
        crate::shared_ring::slot_at(at, act.step),
        act.v,
        act.step,
        crate::pose_ring::pose_words(act.pos, act.quat),
    );
    let events = crate::shared_ring::publish_events(at, act.v, act.step, act.pos, act.quat);
    let last = Event::Store { at, order: Order::Release, value: act.step };
    crate::shared::undisturbed_push(mem, write, last);
    assert(write.len() == 13);
    let m = if n < 14 { n } else { 13 };
    assert(events.take(m) =~= write.take(m));
    slot_write_in_progress(mem, block, rings, act, act.v, act.step, acts, m);
    if n == 14 {
        let mid = crate::shared::run(mem, write.take(13));
        assert(events.take(14) =~= write.take(13).push(last));
        crate::shared::run_push(mem, write.take(13), last);
        let now = crate::shared::run(mem, events.take(14));
        assert(now == mid.update(at, act.step));
        latest_stored(mid, block, act, acts);
        let ring = rings[act.index].wrote(act.step, act.pos, act.quat);
        let mids = rings.update(act.index, ring);
        assert(mids[act.index] == ring);
        crate::shared_ring::ring_with_latest(mid, at, ring, act.step);
        let done = rings[act.index].published(act.step, act.pos, act.quat);
        other_rings_held(mid, now, block, mids, act.index, done);
        assert(mids.update(act.index, done) =~= rings.update(act.index, done));
    }
}

/// Storing the latest step leaves all slots.
proof fn latest_stored(mem: Seq<u32>, block: BallsBlock, act: BallAct, acts: Seq<BallAct>)
    requires
        block.at + BALLS_WORDS <= mem.len(),
        0 <= act.index < MAX_BALLS,
    ensures
        ({
            let now = mem.update(block.ring_at(act.index), act.step);
            &&& keeps(mem, now, block, acts)
            &&& forall|j: int, s: u32|
                0 <= j < MAX_BALLS ==> #[trigger] shows_published(now, block, j, s, acts)
                    == shows_published(mem, block, j, s, acts)
        }),
{
    let at = block.ring_at(act.index);
    let now = mem.update(at, act.step);
    assert forall|j: int, s: u32| 0 <= j < MAX_BALLS implies #[trigger] shows_published(
        now,
        block,
        j,
        s,
        acts,
    ) == shows_published(mem, block, j, s, acts) by {
        let there = crate::shared_ring::slot_at(block.ring_at(j), s);
        assert(there + SLOT_WORDS <= at || at < there);
        assert(slot_of(now, there).fields@ =~= slot_of(mem, there).fields@);
        assert(slot_of(now, there).fields == slot_of(mem, there).fields);
    }
}

/// The memory while a teleport is published: after the first `n` accesses.
proof fn snap_in_progress(
    mem: Seq<u32>,
    block: BallsBlock,
    rings: Seq<RingView>,
    act: BallAct,
    acts: Seq<BallAct>,
    n: int,
)
    requires
        holds_rings(mem, block, rings),
        0 <= act.index < MAX_BALLS,
        0 <= n <= 27,
        was_published(acts, act.index, act.step, (act.pos, act.quat)),
        was_published(acts, act.index, act.step.wrapping_sub(1), (act.pos, act.quat)),
        crate::shared::undisturbed(
            mem,
            crate::shared_ring::snap_events(
                block.ring_at(act.index),
                act.u,
                act.v,
                act.step,
                act.pos,
                act.quat,
            ),
        ),
    ensures
        ({
            let at = block.ring_at(act.index);
            let events = crate::shared_ring::snap_events(
                at,
                act.u,
                act.v,
                act.step,
                act.pos,
                act.quat,
            );
            let now = crate::shared::run(mem, events.take(n));
            &&& events.len() == 27
            &&& now.len() == mem.len()
            &&& keeps(mem, now, block, acts)
            &&& n < 27 ==> same_latest(mem, now, block)
            &&& n == 27 ==> {
                &&& same_latest(mem.update(at, act.step), now, block)
                &&& shows_published(now, block, act.index, act.step, acts)
                &&& holds_rings(
                    now,
                    block,
                    rings.update(
                        act.index,
                        rings[act.index].snapped(act.step, act.pos, act.quat),
                    ),
                )
            }
        }),
{
    let at = block.ring_at(act.index);
    let before = act.step.wrapping_sub(1);
    let write = crate::seqlock::write_events(
        crate::shared_ring::slot_at(at, before),
        act.u,
        before,
        crate::pose_ring::pose_words(act.pos, act.quat),
    );
    let publish = crate::shared_ring::publish_events(at, act.v, act.step, act.pos, act.quat);
    let events = crate::shared_ring::snap_events(at, act.u, act.v, act.step, act.pos, act.quat);
    crate::shared::run_of_two_parts(mem, write, publish);
    assert(write.len() == 13);
    assert(publish.len() == 14);
    let m = if n < 13 { n } else { 13 };
    slot_write_in_progress(mem, block, rings, act, act.u, before, acts, m);
    if n <= 13 {
        assert(events.take(n) =~= write.take(n));
    } else {
        assert(write.take(13) =~= write);
        assert(events.take(n) =~= write + publish.take(n - 13));
        crate::shared::run_of_two_parts(mem, write, publish.take(n - 13));
        let mid = crate::shared::run(mem, write);
        let ring = rings[act.index].wrote(before, act.pos, act.quat);
        let mids = rings.update(act.index, ring);
        publish_in_progress(mid, block, mids, act, acts, n - 13);
        let done = rings[act.index].snapped(act.step, act.pos, act.quat);
        assert(mids[act.index] == ring);
        assert(mids.update(act.index, done) =~= rings.update(act.index, done));
        if n == 27 {
            let now = crate::shared::run(mem, events.take(n));
            assert(same_latest(mid.update(at, act.step), now, block));
            assert forall|j: int| 0 <= j < MAX_BALLS implies now[#[trigger] block.ring_at(j)]
                == mem.update(at, act.step)[block.ring_at(j)] by {
                assert(mid.update(at, act.step)[block.ring_at(j)] == mem.update(
                    at,
                    act.step,
                )[block.ring_at(j)]);
            }
        }
    }
}

/// The ring of the ball after the operation.
pub open spec fn ring_after(rings: Seq<RingView>, act: BallAct) -> RingView {
    if act.deed is Publish {
        rings[act.index].published(act.step, act.pos, act.quat)
    } else {
        rings[act.index].snapped(act.step, act.pos, act.quat)
    }
}

/// The memory while physics is at an operation: after the first `n` accesses.
proof fn act_in_progress(
    mem: Seq<u32>,
    block: BallsBlock,
    rings: Seq<RingView>,
    act: BallAct,
    acts: Seq<BallAct>,
    n: int,
)
    requires
        holds_rings(mem, block, rings),
        0 <= act.index < MAX_BALLS,
        0 <= n <= act.events(block).len(),
        acts.contains(act),
        crate::shared::undisturbed(mem, act.events(block)),
    ensures
        ({
            let at = block.ring_at(act.index);
            let events = act.events(block);
            let now = crate::shared::run(mem, events.take(n));
            let done = if act.deed is Seed {
                mem.update(at, act.step).update(block.at + 3, (act.index + 1) as u32)
            } else {
                mem.update(at, act.step)
            };
            &&& now.len() == mem.len()
            &&& events.len() > 0
            &&& keeps(mem, now, block, acts)
            &&& n < events.len() && !(act.deed is Seed) ==> same_latest(mem, now, block)
            &&& n < events.len() && act.deed is Seed ==> same_latest(mem, now, block)
                || same_latest(mem.update(at, act.step), now, block)
            &&& n == events.len() ==> {
                &&& same_latest(done, now, block)
                &&& shows_published(now, block, act.index, act.step, acts)
                &&& holds_rings(now, block, rings.update(act.index, ring_after(rings, act)))
            }
        }),
{
    let at = block.ring_at(act.index);
    let events = act.events(block);
    let k = choose|k: int| 0 <= k < acts.len() && acts[k] == act;
    assert(acts[k].published(act.index, act.step, (act.pos, act.quat)));
    if act.deed is Publish {
        publish_in_progress(mem, block, rings, act, acts, n);
    } else {
        assert(acts[k].published(act.index, act.step.wrapping_sub(1), (act.pos, act.quat)));
        let snap = crate::shared_ring::snap_events(
            at,
            act.u,
            act.v,
            act.step,
            act.pos,
            act.quat,
        );
        if act.deed is Snap {
            snap_in_progress(mem, block, rings, act, acts, n);
        } else {
            let last = Event::Store {
                at: block.at + 3,
                order: Order::Release,
                value: (act.index + 1) as u32,
            };
            crate::shared::undisturbed_push(mem, snap, last);
            let m = if n < 28 { n } else { 27 };
            snap_in_progress(mem, block, rings, act, acts, m);
            assert(snap.len() == 27);
            assert(events.take(m) =~= snap.take(m));
            if n == 28 {
                let mid = crate::shared::run(mem, snap.take(27));
                assert(events.take(28) =~= snap.take(27).push(last));
                crate::shared::run_push(mem, snap.take(27), last);
                count_stored(mid, block, act, rings.update(act.index, ring_after(rings, act)), acts);
                let now = crate::shared::run(mem, events.take(28));
                assert(now == mid.update(block.at + 3, (act.index + 1) as u32));
                assert forall|j: int| 0 <= j < MAX_BALLS implies now[#[trigger] block.ring_at(j)]
                    == mem.update(at, act.step)[block.ring_at(j)] by {
                    assert(mid[block.ring_at(j)] == mem.update(at, act.step)[block.ring_at(j)]);
                }
            }
        }
    }
}

/// Storing the count leaves all rings.
proof fn count_stored(
    mem: Seq<u32>,
    block: BallsBlock,
    act: BallAct,
    rings: Seq<RingView>,
    acts: Seq<BallAct>,
)
    requires
        holds_rings(mem, block, rings),
    ensures
        ({
            let now = mem.update(block.at + 3, (act.index + 1) as u32);
            &&& holds_rings(now, block, rings)
            &&& forall|j: int, s: u32|
                0 <= j < MAX_BALLS ==> #[trigger] shows_published(now, block, j, s, acts)
                    == shows_published(mem, block, j, s, acts)
        }),
{
    let now = mem.update(block.at + 3, (act.index + 1) as u32);
    assert forall|i: int| 0 <= i < MAX_BALLS implies crate::shared_ring::holds_ring(
        now,
        block.ring_at(i),
        #[trigger] rings[i],
    ) && rings[i].settled() by {
        crate::blocks::ring_unmoved(mem, now, block.at + 3, 1, block.ring_at(i), rings[i]);
    }
    assert forall|j: int, s: u32| 0 <= j < MAX_BALLS implies #[trigger] shows_published(
        now,
        block,
        j,
        s,
        acts,
    ) == shows_published(mem, block, j, s, acts) by {
        let there = crate::shared_ring::slot_at(block.ring_at(j), s);
        assert(slot_of(now, there).fields@ =~= slot_of(mem, there).fields@);
        assert(slot_of(now, there).fields == slot_of(mem, there).fields);
    }
}

/// The rings after the operations.
pub open spec fn rings_after(rings: Seq<RingView>, acts: Seq<BallAct>) -> Seq<RingView>
    decreases acts.len(),
{
    if acts.len() == 0 {
        rings
    } else {
        let before = rings_after(rings, acts.drop_last());
        before.update(acts.last().index, ring_after(before, acts.last()))
    }
}

/// The memory after the first `t` accesses of the operations.
pub open spec fn memory_at(mem: Seq<u32>, block: BallsBlock, acts: Seq<BallAct>, t: int) -> Seq<
    u32,
> {
    crate::shared::run(mem, acts_events(block, acts).take(t))
}

/// What was published by some operations was published by more.
proof fn shown_by_more(
    mem: Seq<u32>,
    block: BallsBlock,
    index: int,
    step: u32,
    acts: Seq<BallAct>,
)
    requires
        acts.len() > 0,
        shows_published(mem, block, index, step, acts.drop_last()),
    ensures
        shows_published(mem, block, index, step, acts),
{
    let slot = slot_of(mem, crate::shared_ring::slot_at(block.ring_at(index), step));
    let pose = crate::pose_ring::words_pose(slot.fields);
    if slot.version % 2 == 0 {
        let rest = acts.drop_last();
        let k = choose|k: int|
            0 <= k < rest.len() && (#[trigger] rest[k]).published(index, slot.step, pose);
        assert(acts[k].published(index, slot.step, pose));
    }
}

/// The number of balls made visible lies within bounds, and so does every ball of an operation.
proof fn order_bounds(acts: Seq<BallAct>)
    requires
        in_order(acts),
    ensures
        0 <= seeded(acts) <= MAX_BALLS,
        acts.len() > 0 ==> 0 <= acts.last().index < MAX_BALLS,
    decreases acts.len(),
{
    if acts.len() > 0 {
        order_bounds(acts.drop_last());
    }
}

/// The memory after the operations: the rings, the count, and published poses below the count.
proof fn after_acts(mem: Seq<u32>, block: BallsBlock, rings: Seq<RingView>, acts: Seq<BallAct>)
    requires
        holds_rings(mem, block, rings),
        mem[block.at + 3] == 0,
        in_order(acts),
        crate::shared::undisturbed(mem, acts_events(block, acts)),
    ensures
        ({
            let now = crate::shared::run(mem, acts_events(block, acts));
            &&& holds_rings(now, block, rings_after(rings, acts))
            &&& now[block.at + 3] == seeded(acts)
            &&& forall|i: int|
                0 <= i < seeded(acts) ==> shows_published(
                    now,
                    block,
                    i,
                    now[#[trigger] block.ring_at(i)],
                    acts,
                ) && rings_after(rings, acts)[i].seeded()
        }),
    decreases acts.len(),
{
    if acts.len() > 0 {
        let rest = acts.drop_last();
        let act = acts.last();
        let base = crate::shared::run(mem, acts_events(block, rest));
        let before = rings_after(rings, rest);
        order_bounds(acts);
        order_bounds(rest);
        crate::shared::run_of_two_parts(mem, acts_events(block, rest), act.events(block));
        after_acts(mem, block, rings, rest);
        let n = act.events(block).len() as int;
        assert(act.events(block).take(n) =~= act.events(block));
        assert(acts[acts.len() - 1] == act);
        act_in_progress(base, block, before, act, acts, n);
        let now = crate::shared::run(base, act.events(block));
        assert(before[act.index].settled());
        crate::pose_ring::wrote_is_settled(
            before[act.index],
            act.step.wrapping_sub(1),
            act.pos,
            act.quat,
        );
        crate::pose_ring::published_is_seeded(before[act.index], act.step, act.pos, act.quat);
        crate::pose_ring::published_is_seeded(
            before[act.index].wrote(act.step.wrapping_sub(1), act.pos, act.quat),
            act.step,
            act.pos,
            act.quat,
        );
        assert forall|i: int| 0 <= i < seeded(acts) implies shows_published(
            now,
            block,
            i,
            now[#[trigger] block.ring_at(i)],
            acts,
        ) && rings_after(rings, acts)[i].seeded() by {
            if i == act.index {
                assert(now[block.ring_at(i)] == act.step);
            } else {
                let latest = base[block.ring_at(i)];
                assert(now[block.ring_at(i)] == latest);
                assert(shows_published(base, block, i, latest, rest));
                shown_by_more(base, block, i, latest, acts);
                assert(shows_published(now, block, i, latest, acts));
            }
        }
    }
}

/// A ball that render can see always has a pose that physics published. Let physics make balls
/// visible, one after the other, and publish poses for them; at any moment (after `t` of its
/// accesses) let render find the ball `i` below the count and look up its latest step, and at any
/// later moment (after `t2` accesses) read that step. What it reads is nothing, because a write is
/// in flight or the step is gone, or a pose that physics published for this ball at this step:
/// never what the ring held before. (No other thread writes the rings and the count.)
pub proof fn visible_balls_have_poses(
    mem: Seq<u32>,
    block: BallsBlock,
    rings: Seq<RingView>,
    acts: Seq<BallAct>,
    t: int,
    t2: int,
    i: int,
)
    requires
        holds_rings(mem, block, rings),
        mem[block.at + 3] == 0,
        in_order(acts),
        crate::shared::undisturbed(mem, acts_events(block, acts)),
        0 <= t <= t2 <= acts_events(block, acts).len(),
        0 <= i < memory_at(mem, block, acts, t)[block.at + 3],
    ensures
        i < MAX_BALLS,
        ({
            let latest = memory_at(mem, block, acts, t)[block.ring_at(i)];
            let later = memory_at(mem, block, acts, t2);
            &&& shows_published(later, block, i, latest, acts)
            &&& reading(later, block.ring_at(i), latest) matches Some(pose) ==> was_published(
                acts,
                i,
                latest,
                pose,
            )
        }),
    decreases acts.len(),
{
    let events = acts_events(block, acts);
    if acts.len() == 0 {
        assert(events.take(t) =~= Seq::empty());
    } else {
        let rest = acts.drop_last();
        let act = acts.last();
        let first = acts_events(block, rest);
        let base = crate::shared::run(mem, first);
        let before = rings_after(rings, rest);
        order_bounds(acts);
        order_bounds(rest);
        crate::shared::run_of_two_parts(mem, first, act.events(block));
        after_acts(mem, block, rings, rest);
        assert(acts[acts.len() - 1] == act);
        let latest = memory_at(mem, block, acts, t)[block.ring_at(i)];
        if t2 <= first.len() {
            assert(events.take(t) =~= first.take(t));
            assert(events.take(t2) =~= first.take(t2));
            visible_balls_have_poses(mem, block, rings, rest, t, t2, i);
            shown_by_more(memory_at(mem, block, acts, t2), block, i, latest, acts);
        } else {
            let n2 = t2 - first.len();
            assert(events.take(t2) =~= first + act.events(block).take(n2));
            crate::shared::run_of_two_parts(mem, first, act.events(block).take(n2));
            act_in_progress(base, block, before, act, acts, n2);
            if t <= first.len() {
                assert(events.take(t) =~= first.take(t));
                assert(first.take(first.len() as int) =~= first);
                visible_balls_have_poses(mem, block, rings, rest, t, first.len() as int, i);
                shown_by_more(base, block, i, latest, acts);
            } else {
                let n = t - first.len();
                assert(events.take(t) =~= first + act.events(block).take(n));
                crate::shared::run_of_two_parts(mem, first, act.events(block).take(n));
                act_in_progress(base, block, before, act, acts, n);
                let then_mem = memory_at(mem, block, acts, t);
                if n == act.events(block).len() && i == act.index {
                    assert(then_mem[block.ring_at(i)] == act.step);
                } else {
                    assert(i < seeded(rest));
                    assert(then_mem[block.ring_at(i)] == base[block.ring_at(i)]);
                    assert(shows_published(base, block, i, latest, rest));
                    shown_by_more(base, block, i, latest, acts);
                }
            }
        }
    }
}

/// Whenever physics is not at work on the balls, the latest pose of every visible ball can be read
/// at once.
pub proof fn visible_balls_can_be_read(
    mem: Seq<u32>,
    block: BallsBlock,
    rings: Seq<RingView>,
    acts: Seq<BallAct>,
    i: int,
)
    requires
        holds_rings(mem, block, rings),
        mem[block.at + 3] == 0,
        in_order(acts),
        crate::shared::undisturbed(mem, acts_events(block, acts)),
    ensures
        ({
            let now = crate::shared::run(mem, acts_events(block, acts));
            &&& now[block.at + 3] == seeded(acts) <= MAX_BALLS
            &&& 0 <= i < now[block.at + 3] ==> reading(
                now,
                block.ring_at(i),
                now[block.ring_at(i)],
            ) is Some
        }),
{
    order_bounds(acts);
    after_acts(mem, block, rings, acts);
    let now = crate::shared::run(mem, acts_events(block, acts));
    if 0 <= i < now[block.at + 3] {
        let at = block.ring_at(i);
        let ring = rings_after(rings, acts)[i];
        assert(ring.seeded());
        assert(crate::shared_ring::holds_ring(now, at, ring));
        let k = crate::pose_ring::slot_index(ring.latest);
        assert(crate::seqlock::holds_slot(now, at + 1 + SLOT_WORDS * k, ring.slots[k]));
        slot_is_held(now, at + 1 + SLOT_WORDS * k, ring.slots[k]);
    }
}

/// A block that was just made holds its rings, and no ball is visible.
pub proof fn fresh_block_shows_no_ball(
    mem: Seq<u32>,
    block: BallsBlock,
    balls: crate::ball_motions::BallMotions,
)
    requires
        crate::blocks::holds_balls(mem, block, balls),
        balls.fresh(),
    ensures
        holds_rings(mem, block, Seq::new(MAX_BALLS as nat, |i: int| balls.slots@[i]@)),
        mem[block.at + 3] == 0,
{
    let rings = Seq::new(MAX_BALLS as nat, |i: int| balls.slots@[i]@);
    assert forall|i: int| 0 <= i < MAX_BALLS implies crate::shared_ring::holds_ring(
        mem,
        block.ring_at(i),
        #[trigger] rings[i],
    ) && rings[i].settled() by {
        assert(crate::shared_ring::holds_ring(mem, block.ring_at(i), balls.slots@[i]@));
    }
}

} // verus!
