//! Pose rings in shared memory.
//!
//! A ring is one word for the latest step and then its slots, in order. A publication writes the
//! slot of its step and only then moves the latest step on, so that the step a reader finds there
//! can be read: see [`latest_is_always_readable`].

use vstd::prelude::*;

use crate::seqlock::{read_slot, write_slot, Attempt, SLOT_WORDS};
use crate::shared::{Event, Port};
use crate::words::Order;

verus! {

/// Words of one ring.
pub const RING_WORDS: usize = 289;

/// Where the ring at `at` keeps the slot of `step`.
pub open spec fn slot_at(at: int, step: u32) -> int {
    at + 1 + SLOT_WORDS * crate::pose_ring::slot_index(step)
}

/// The accesses of one publication into the ring at `at`; `v` is the version that it found in the
/// slot.
pub open spec fn publish_events(
    at: int,
    v: u32,
    step: u32,
    pos: [u32; 3],
    quat: [u32; 4],
) -> Seq<Event> {
    crate::seqlock::write_events(
        slot_at(at, step),
        v,
        step,
        crate::pose_ring::pose_words(pos, quat),
    ).push(Event::Store { at, order: Order::Release, value: step })
}

/// The accesses of the publication of a teleport: the step before is written first.
pub open spec fn snap_events(
    at: int,
    u: u32,
    v: u32,
    step: u32,
    pos: [u32; 3],
    quat: [u32; 4],
) -> Seq<Event> {
    crate::seqlock::write_events(
        slot_at(at, step.wrapping_sub(1)),
        u,
        step.wrapping_sub(1),
        crate::pose_ring::pose_words(pos, quat),
    ) + publish_events(at, v, step, pos, quat)
}

/// The accesses of one look at the latest pose.
pub open spec fn latest_events(at: int, latest: u32, tries: Seq<Attempt>) -> Seq<Event> {
    seq![Event::Load { at, order: Order::Acquire, seen: latest }] + crate::seqlock::tries_events(
        slot_at(at, latest),
        tries,
    )
}

/// A publication moves the latest step on last, with a release store behind all that it wrote of
/// the pose, and does not touch the latest step before; a teleport writes the step before first. A
/// look at the latest pose takes the latest step first, with an acquire load.
pub proof fn latest_step_moves_last(
    at: int,
    u: u32,
    v: u32,
    step: u32,
    pos: [u32; 3],
    quat: [u32; 4],
    latest: u32,
    tries: Seq<Attempt>,
)
    ensures
        ({
            let events = publish_events(at, v, step, pos, quat);
            &&& events.len() == 14
            &&& events[13] == (Event::Store { at, order: Order::Release, value: step })
            &&& forall|i: int|
                0 <= i < 13 && (#[trigger] events[i]) is Store ==> events[i]->Store_at > at
            &&& snap_events(at, u, v, step, pos, quat).len() == 27
            &&& snap_events(at, u, v, step, pos, quat).skip(13) == events
            &&& forall|i: int|
                0 <= i < 13 && (#[trigger] snap_events(at, u, v, step, pos, quat)[i]) is Store
                    ==> snap_events(at, u, v, step, pos, quat)[i]->Store_at > at
        }),
        latest_events(at, latest, tries).len() > 0,
        latest_events(at, latest, tries)[0] == (Event::Load {
            at,
            order: Order::Acquire,
            seen: latest,
        }),
{
    let events = publish_events(at, v, step, pos, quat);
    assert(snap_events(at, u, v, step, pos, quat).skip(13) =~= events);
}

/// The word where the ring at `at` keeps the slot of `step`.
fn slot_address(at: usize, step: u32) -> (slot: usize)
    requires
        at + RING_WORDS <= usize::MAX,
    ensures
        slot == slot_at(at as int, step),
        slot + SLOT_WORDS <= at + RING_WORDS,
{
    at + 1 + SLOT_WORDS * (step as usize % crate::pose_ring::POSE_RING)
}

/// Writer side: publishes the pose at absolute step `step` into the ring at `at`.
pub fn publish(port: &mut Port, at: usize, step: u32, pos: [u32; 3], quat: [u32; 4])
    requires
        at + RING_WORDS <= old(port).size(),
    ensures
        exists|v: u32|
            final(port).extends(
                *old(port),
                #[trigger] publish_events(at as int, v, step, pos, quat),
            ),
{
    let slot: usize = slot_address(at, step);
    write_slot(port, slot, step, pos, quat);
    let ghost v = choose|v: u32|
        port.extends(
            *old(port),
            crate::seqlock::write_events(
                slot as int,
                v,
                step,
                crate::pose_ring::pose_words(pos, quat),
            ),
        );
    port.store(at, Order::Release, step);
    assert(port.trace() =~= old(port).trace() + publish_events(at as int, v, step, pos, quat));
    assert(port.extends(*old(port), publish_events(at as int, v, step, pos, quat)));
}

/// Writer side: publishes a teleport into the ring at `at`: the pose stands for `step` and for
/// the step before.
pub fn publish_snap(port: &mut Port, at: usize, step: u32, pos: [u32; 3], quat: [u32; 4])
    requires
        at + RING_WORDS <= old(port).size(),
    ensures
        exists|u: u32, v: u32|
            final(port).extends(
                *old(port),
                #[trigger] snap_events(at as int, u, v, step, pos, quat),
            ),
{
    let before: u32 = step.wrapping_sub(1);
    let slot: usize = slot_address(at, before);
    write_slot(port, slot, before, pos, quat);
    let ghost mid = *port;
    let ghost words = crate::pose_ring::pose_words(pos, quat);
    let ghost u = choose|u: u32|
        mid.extends(*old(port), crate::seqlock::write_events(slot as int, u, before, words));
    publish(port, at, step, pos, quat);
    proof {
        let v = choose|v: u32|
            port.extends(mid, #[trigger] publish_events(at as int, v, step, pos, quat));
        assert(port.trace() =~= old(port).trace() + snap_events(
            at as int,
            u,
            v,
            step,
            pos,
            quat,
        ));
        assert(port.extends(*old(port), snap_events(at as int, u, v, step, pos, quat)));
    }
}

/// Latest published absolute step of the ring at `at`.
pub fn latest_step(port: &mut Port, at: usize) -> (step: u32)
    requires
        at + RING_WORDS <= old(port).size(),
    ensures
        final(port).extends(
            *old(port),
            seq![Event::Load { at: at as int, order: Order::Acquire, seen: step }],
        ),
{
    port.load(at, Order::Acquire)
}

/// The pose published for `step` in the ring at `at`, if the ring still holds it.
pub fn read_step(port: &mut Port, at: usize, step: u32) -> (pose: Option<([u32; 3], [u32; 4])>)
    requires
        at + RING_WORDS <= old(port).size(),
    ensures
        exists|tries: Seq<Attempt>|
            crate::seqlock::one_read(tries) && pose == crate::seqlock::read_outcome(tries, step)
                && final(port).extends(
                *old(port),
                #[trigger] crate::seqlock::tries_events(slot_at(at as int, step), tries),
            ),
{
    let slot: usize = slot_address(at, step);
    read_slot(port, slot, step)
}

/// One look at the latest pose of the ring at `at`. `None` means that the writer was racing onto
/// the next step: look again.
pub fn read_latest(port: &mut Port, at: usize) -> (pose: Option<([u32; 3], [u32; 4])>)
    requires
        at + RING_WORDS <= old(port).size(),
    ensures
        exists|latest: u32, tries: Seq<Attempt>|
            crate::seqlock::one_read(tries) && pose == crate::seqlock::read_outcome(tries, latest)
                && final(port).extends(
                *old(port),
                #[trigger] latest_events(at as int, latest, tries),
            ),
{
    let latest: u32 = latest_step(port, at);
    let ghost mid = *port;
    let pose = read_step(port, at, latest);
    proof {
        let tries = choose|tries: Seq<Attempt>|
            crate::seqlock::one_read(tries) && pose == crate::seqlock::read_outcome(tries, latest)
                && port.extends(
                mid,
                #[trigger] crate::seqlock::tries_events(slot_at(at as int, latest), tries),
            );
        assert(port.trace() =~= old(port).trace() + latest_events(at as int, latest, tries));
        assert(port.extends(*old(port), latest_events(at as int, latest, tries)));
    }
    pose
}

/// The words at `at` are those of the ring.
pub open spec fn holds_ring(mem: Seq<u32>, at: int, ring: crate::pose_ring::RingView) -> bool {
    &&& 0 <= at
    &&& at + RING_WORDS <= mem.len()
    &&& ring.slots.len() == crate::pose_ring::POSE_RING
    &&& mem[at] == ring.latest
    &&& forall|i: int|
        0 <= i < crate::pose_ring::POSE_RING ==> crate::seqlock::holds_slot(
            mem,
            at + 1 + SLOT_WORDS * i,
            #[trigger] ring.slots[i],
        )
}

/// Replacing one slot's words replaces that slot of the ring.
proof fn ring_with_slot(
    mem: Seq<u32>,
    now: Seq<u32>,
    at: int,
    ring: crate::pose_ring::RingView,
    k: int,
    slot: crate::pose_ring::PoseSlot,
)
    requires
        holds_ring(mem, at, ring),
        0 <= k < crate::pose_ring::POSE_RING,
        crate::seqlock::same_outside_slot(mem, now, at + 1 + SLOT_WORDS * k),
        crate::seqlock::holds_slot(now, at + 1 + SLOT_WORDS * k, slot),
    ensures
        holds_ring(
            now,
            at,
            (crate::pose_ring::RingView { slots: ring.slots.update(k, slot), ..ring }),
        ),
        crate::shared::same_outside(mem, now, at, RING_WORDS as int),
{
    let next = crate::pose_ring::RingView { slots: ring.slots.update(k, slot), ..ring };
    assert forall|i: int| 0 <= i < crate::pose_ring::POSE_RING implies crate::seqlock::holds_slot(
        now,
        at + 1 + SLOT_WORDS * i,
        #[trigger] next.slots[i],
    ) by {
        if i != k {
            let was = ring.slots[i];
            assert(crate::seqlock::holds_slot(mem, at + 1 + SLOT_WORDS * i, was));
            assert forall|j: int| 0 <= j < 7 implies now[at + 1 + SLOT_WORDS * i + 2 + j]
                == #[trigger] was.fields@[j] by {
                assert(mem[at + 1 + SLOT_WORDS * i + 2 + j] == was.fields@[j]);
            }
        }
    }
}

/// Moving the latest word moves the latest step of the ring.
pub proof fn ring_with_latest(mem: Seq<u32>, at: int, ring: crate::pose_ring::RingView, latest: u32)
    requires
        holds_ring(mem, at, ring),
    ensures
        holds_ring(
            mem.update(at, latest),
            at,
            (crate::pose_ring::RingView { latest, ..ring }),
        ),
        crate::shared::same_outside(mem, mem.update(at, latest), at, RING_WORDS as int),
{
    let now = mem.update(at, latest);
    assert forall|i: int| 0 <= i < crate::pose_ring::POSE_RING implies crate::seqlock::holds_slot(
        now,
        at + 1 + SLOT_WORDS * i,
        #[trigger] ring.slots[i],
    ) by {
        let was = ring.slots[i];
        assert(crate::seqlock::holds_slot(mem, at + 1 + SLOT_WORDS * i, was));
        assert forall|j: int| 0 <= j < 7 implies now[at + 1 + SLOT_WORDS * i + 2 + j]
            == #[trigger] was.fields@[j] by {
            assert(mem[at + 1 + SLOT_WORDS * i + 2 + j] == was.fields@[j]);
        }
    }
}

/// A slot write that nothing interferes with writes the ring as
/// [`crate::pose_ring::RingView::wrote`] says.
pub proof fn undisturbed_ring_write(
    mem: Seq<u32>,
    at: int,
    ring: crate::pose_ring::RingView,
    v: u32,
    step: u32,
    pos: [u32; 3],
    quat: [u32; 4],
)
    requires
        holds_ring(mem, at, ring),
        crate::shared::undisturbed(
            mem,
            crate::seqlock::write_events(
                slot_at(at, step),
                v,
                step,
                crate::pose_ring::pose_words(pos, quat),
            ),
        ),
    ensures
        ({
            let now = crate::shared::run(
                mem,
                crate::seqlock::write_events(
                    slot_at(at, step),
                    v,
                    step,
                    crate::pose_ring::pose_words(pos, quat),
                ),
            );
            &&& holds_ring(now, at, ring.wrote(step, pos, quat))
            &&& crate::shared::same_outside(mem, now, at, RING_WORDS as int)
        }),
{
    let k = crate::pose_ring::slot_index(step);
    let slot = ring.slots[k];
    crate::seqlock::undisturbed_write(mem, slot_at(at, step), slot, v, step, pos, quat);
    let now = crate::shared::run(
        mem,
        crate::seqlock::write_events(
            slot_at(at, step),
            v,
            step,
            crate::pose_ring::pose_words(pos, quat),
        ),
    );
    ring_with_slot(mem, now, at, ring, k, slot.written(step, pos, quat));
}

/// A publication that nothing interferes with does to the ring what
/// [`crate::pose_ring::PoseRing::publish`] does, and touches nothing else.
pub proof fn undisturbed_publish(
    mem: Seq<u32>,
    at: int,
    ring: crate::pose_ring::RingView,
    v: u32,
    step: u32,
    pos: [u32; 3],
    quat: [u32; 4],
)
    requires
        holds_ring(mem, at, ring),
        crate::shared::undisturbed(mem, publish_events(at, v, step, pos, quat)),
    ensures
        ({
            let now = crate::shared::run(mem, publish_events(at, v, step, pos, quat));
            &&& holds_ring(now, at, ring.published(step, pos, quat))
            &&& crate::shared::same_outside(mem, now, at, RING_WORDS as int)
        }),
{
    let write = crate::seqlock::write_events(
        slot_at(at, step),
        v,
        step,
        crate::pose_ring::pose_words(pos, quat),
    );
    let last = Event::Store { at, order: Order::Release, value: step };
    crate::shared::run_push(mem, write, last);
    crate::shared::undisturbed_push(mem, write, last);
    undisturbed_ring_write(mem, at, ring, v, step, pos, quat);
    ring_with_latest(crate::shared::run(mem, write), at, ring.wrote(step, pos, quat), step);
}

/// The publication of a teleport that nothing interferes with does to the ring what
/// [`crate::pose_ring::PoseRing::publish_snap`] does, and touches nothing else.
pub proof fn undisturbed_snap(
    mem: Seq<u32>,
    at: int,
    ring: crate::pose_ring::RingView,
    u: u32,
    v: u32,
    step: u32,
    pos: [u32; 3],
    quat: [u32; 4],
)
    requires
        holds_ring(mem, at, ring),
        crate::shared::undisturbed(mem, snap_events(at, u, v, step, pos, quat)),
    ensures
        ({
            let now = crate::shared::run(mem, snap_events(at, u, v, step, pos, quat));
            &&& holds_ring(now, at, ring.snapped(step, pos, quat))
            &&& crate::shared::same_outside(mem, now, at, RING_WORDS as int)
        }),
{
    let before = step.wrapping_sub(1);
    let write = crate::seqlock::write_events(
        slot_at(at, before),
        u,
        before,
        crate::pose_ring::pose_words(pos, quat),
    );
    crate::shared::run_of_two_parts(mem, write, publish_events(at, v, step, pos, quat));
    undisturbed_ring_write(mem, at, ring, u, before, pos, quat);
    undisturbed_publish(
        crate::shared::run(mem, write),
        at,
        ring.wrote(before, pos, quat),
        v,
        step,
        pos,
        quat,
    );
}

/// A read that nothing interferes with gives what [`crate::pose_ring::PoseRing::read_step`]
/// gives.
pub proof fn undisturbed_read_step(
    mem: Seq<u32>,
    at: int,
    ring: crate::pose_ring::RingView,
    step: u32,
    tries: Seq<Attempt>,
)
    requires
        holds_ring(mem, at, ring),
        crate::seqlock::one_read(tries),
        crate::shared::undisturbed(
            mem,
            crate::seqlock::tries_events(slot_at(at, step), tries),
        ),
    ensures
        crate::seqlock::read_outcome(tries, step) == ring.reading(step),
{
    let k = crate::pose_ring::slot_index(step);
    let slot = ring.slots[k];
    crate::seqlock::undisturbed_read(mem, slot_at(at, step), slot, tries, step);
}

/// A look at the latest pose that nothing interferes with finds it at once when the ring is
/// seeded, and gives what [`crate::pose_ring::PoseRing::read_latest`] gives.
pub proof fn undisturbed_read_latest(
    mem: Seq<u32>,
    at: int,
    ring: crate::pose_ring::RingView,
    latest: u32,
    tries: Seq<Attempt>,
)
    requires
        holds_ring(mem, at, ring),
        ring.seeded(),
        crate::seqlock::one_read(tries),
        crate::shared::undisturbed(mem, latest_events(at, latest, tries)),
    ensures
        latest == ring.latest,
        crate::seqlock::read_outcome(tries, latest) == ring.reading(ring.latest),
        ring.reading(ring.latest) is Some,
{
    let load = Event::Load { at, order: Order::Acquire, seen: latest };
    crate::shared::run_of_two_parts(
        mem,
        seq![load],
        crate::seqlock::tries_events(slot_at(at, latest), tries),
    );
    crate::shared::run_of_one(mem, load);
    undisturbed_read_step(mem, at, ring, latest, tries);
}

/// The latest pose can be read at every moment: while the writer publishes the next step, the
/// latest step is the old one and its pose is untouched, up to the very last access, which makes
/// the new step the latest when its pose is complete.
pub proof fn latest_is_always_readable(
    mem: Seq<u32>,
    at: int,
    ring: crate::pose_ring::RingView,
    pos: [u32; 3],
    quat: [u32; 4],
    n: int,
)
    requires
        holds_ring(mem, at, ring),
        ring.seeded(),
        0 <= n <= 14,
    ensures
        ({
            let step = ring.latest.wrapping_add(1);
            let v = ring.slots[crate::pose_ring::slot_index(step)].version;
            let events = publish_events(at, v, step, pos, quat);
            let now = crate::shared::run(mem, events.take(n));
            &&& events.len() == 14
            &&& n < 14 ==> now[at] == ring.latest && crate::seqlock::holds_slot(
                now,
                slot_at(at, ring.latest),
                ring.slots[crate::pose_ring::slot_index(ring.latest)],
            )
            &&& n == 14 ==> now[at] == step && crate::seqlock::holds_slot(
                now,
                slot_at(at, step),
                ring.slots[crate::pose_ring::slot_index(step)].written(step, pos, quat),
            )
        }),
{
    let step = ring.latest.wrapping_add(1);
    let k = crate::pose_ring::slot_index(step);
    let slot = ring.slots[k];
    let words = crate::pose_ring::pose_words(pos, quat);
    let write = crate::seqlock::write_events(slot_at(at, step), slot.version, step, words);
    let events = publish_events(at, slot.version, step, pos, quat);
    let m = if n < 14 { n } else { 13 };
    assert(write.len() == 13);
    assert(events.take(m) =~= write.take(m));
    crate::seqlock::write_in_progress(mem, slot_at(at, step), slot, step, words, m);
    let mid = crate::shared::run(mem, write.take(m));
    let part = crate::seqlock::part_written(slot, step, words, m);
    ring_with_slot(mem, mid, at, ring, k, part);
    let then_ring = crate::pose_ring::RingView { slots: ring.slots.update(k, part), ..ring };
    assert(holds_ring(mid, at, then_ring));
    let j = crate::pose_ring::slot_index(ring.latest);
    assert(j != k);
    assert(then_ring.slots[j] == ring.slots[j]);
    if n == 14 {
        let last = Event::Store { at, order: Order::Release, value: step };
        assert(events.take(14) =~= write.take(13).push(last));
        crate::shared::run_push(mem, write.take(13), last);
        ring_with_latest(mid, at, then_ring, step);
        crate::seqlock::last_access_completes_the_write(slot, step, words);
        let end = crate::pose_ring::RingView { latest: step, ..then_ring };
        assert(end.slots[k] == slot.written(step, pos, quat));
    }
}

/// A ring while one of its slots is written, after the first `m` accesses of the write: a read of
/// any step gives what it gave before, nothing, or the new pose of its step.
proof fn ring_in_progress(
    mem: Seq<u32>,
    at: int,
    ring: crate::pose_ring::RingView,
    step: u32,
    pos: [u32; 3],
    quat: [u32; 4],
    m: int,
) -> (now_ring: crate::pose_ring::RingView)
    requires
        holds_ring(mem, at, ring),
        ring.settled(),
        0 <= m <= 13,
    ensures
        ({
            let k = crate::pose_ring::slot_index(step);
            let words = crate::pose_ring::pose_words(pos, quat);
            let events = crate::seqlock::write_events(
                slot_at(at, step),
                ring.slots[k].version,
                step,
                words,
            );
            &&& holds_ring(crate::shared::run(mem, events.take(m)), at, now_ring)
            &&& now_ring.latest == ring.latest
            &&& forall|s: u32|
                {
                    ||| (#[trigger] now_ring.reading(s)) == ring.reading(s)
                    ||| now_ring.reading(s) is None
                    ||| s == step && now_ring.reading(s) == Some((pos, quat))
                }
            &&& m == 13 ==> now_ring == ring.wrote(step, pos, quat)
        }),
{
    let k = crate::pose_ring::slot_index(step);
    let slot = ring.slots[k];
    let words = crate::pose_ring::pose_words(pos, quat);
    let write = crate::seqlock::write_events(slot_at(at, step), slot.version, step, words);
    let part = crate::seqlock::part_written(slot, step, words, m);
    crate::seqlock::write_in_progress(mem, slot_at(at, step), slot, step, words, m);
    ring_with_slot(mem, crate::shared::run(mem, write.take(m)), at, ring, k, part);
    let now_ring = crate::pose_ring::RingView { slots: ring.slots.update(k, part), ..ring };
    crate::pose_ring::pose_words_round_trip(pos, quat);
    if m < 2 {
        assert(part.fields@ =~= slot.fields@);
        assert(part.fields == slot.fields);
    } else if m < 13 {
        assert(part.version % 2 == 1);
    } else {
        crate::seqlock::last_access_completes_the_write(slot, step, words);
    }
    now_ring
}

/// While a teleport is published, a look at the latest pose gives at every moment the pose from
/// before, nothing because a write is in flight, or the new pose, and the new pose from the last
/// access on.
pub proof fn teleport_shows_old_or_new(
    mem: Seq<u32>,
    at: int,
    ring: crate::pose_ring::RingView,
    step: u32,
    pos: [u32; 3],
    quat: [u32; 4],
    n: int,
) -> (now_ring: crate::pose_ring::RingView)
    requires
        holds_ring(mem, at, ring),
        ring.settled(),
        0 <= n <= 27,
    ensures
        ({
            let u = ring.slots[crate::pose_ring::slot_index(step.wrapping_sub(1))].version;
            let v = ring.slots[crate::pose_ring::slot_index(step)].version;
            let events = snap_events(at, u, v, step, pos, quat);
            let shown = now_ring.reading(now_ring.latest);
            &&& events.len() == 27
            &&& holds_ring(crate::shared::run(mem, events.take(n)), at, now_ring)
            &&& shown == ring.reading(ring.latest) || shown is None || shown == Some((pos, quat))
            &&& n == 27 ==> now_ring == ring.snapped(step, pos, quat) && shown == Some((pos, quat))
        }),
{
    let before = step.wrapping_sub(1);
    let k = crate::pose_ring::slot_index(before);
    let words = crate::pose_ring::pose_words(pos, quat);
    let u = ring.slots[k].version;
    let v = ring.slots[crate::pose_ring::slot_index(step)].version;
    let first = crate::seqlock::write_events(slot_at(at, before), u, before, words);
    let second = crate::seqlock::write_events(slot_at(at, step), v, step, words);
    let events = snap_events(at, u, v, step, pos, quat);
    assert(first.len() == 13 && second.len() == 13);
    let m = if n < 13 { n } else { 13 };
    let mid = ring_in_progress(mem, at, ring, before, pos, quat, m);
    if n <= 13 {
        assert(events.take(n) =~= first.take(n));
        assert(mid.reading(ring.latest) == ring.reading(ring.latest) || mid.reading(ring.latest)
            is None || mid.reading(ring.latest) == Some((pos, quat)));
        mid
    } else {
        assert(first.take(13) =~= first);
        let base = crate::shared::run(mem, first);
        crate::pose_ring::wrote_is_settled(ring, before, pos, quat);
        let i = n - 13;
        let j = if i < 14 { i } else { 13 };
        let late = ring_in_progress(base, at, mid, step, pos, quat, j);
        assert(late.reading(mid.latest) == mid.reading(mid.latest) || late.reading(mid.latest)
            is None || late.reading(mid.latest) == Some((pos, quat)));
        assert(mid.reading(ring.latest) == ring.reading(ring.latest) || mid.reading(ring.latest)
            is None || mid.reading(ring.latest) == Some((pos, quat)));
        crate::shared::run_of_two_parts(mem, first, second.take(j));
        if n < 27 {
            assert(events.take(n) =~= first + second.take(j));
            late
        } else {
            let last = Event::Store { at, order: Order::Release, value: step };
            assert(second.take(13) =~= second);
            assert(events.take(27) =~= (first + second).push(last));
            crate::shared::run_push(mem, first + second, last);
            let done = crate::shared::run(base, second);
            ring_with_latest(done, at, late, step);
            crate::pose_ring::snap_covers_both_steps(ring, step, pos, quat);
            crate::pose_ring::RingView { latest: step, ..late }
        }
    }
}

/// What one thread publishes another reads: with nothing interfering, the ring in memory is then the
/// ring with the pose published, a read of the step gives the pose, and so does a look at the
/// latest.
pub proof fn published_pose_is_read_elsewhere(
    mem: Seq<u32>,
    at: usize,
    ring: crate::pose_ring::RingView,
    writer: &mut Port<'_>,
    reader: &mut Port<'_>,
    watcher: &mut Port<'_>,
    step: u32,
    pos: [u32; 3],
    quat: [u32; 4],
    read: Option<([u32; 3], [u32; 4])>,
    newest: Option<([u32; 3], [u32; 4])>,
)
    requires
        holds_ring(mem, at as int, ring),
        ring.settled(),
        call_ensures(publish, (writer, at, step, pos, quat), ()),
        crate::shared::undisturbed(mem, crate::shared::since(*old(writer), *final(writer))),
        call_ensures(read_step, (reader, at, step), read),
        crate::shared::undisturbed(
            crate::shared::run(mem, crate::shared::since(*old(writer), *final(writer))),
            crate::shared::since(*old(reader), *final(reader)),
        ),
        call_ensures(read_latest, (watcher, at), newest),
        crate::shared::undisturbed(
            crate::shared::run(mem, crate::shared::since(*old(writer), *final(writer))),
            crate::shared::since(*old(watcher), *final(watcher)),
        ),
    ensures
        holds_ring(
            crate::shared::run(mem, crate::shared::since(*old(writer), *final(writer))),
            at as int,
            ring.published(step, pos, quat),
        ),
        read == Some((pos, quat)),
        newest == Some((pos, quat)),
{
    let v = choose|v: u32|
        final(writer).extends(
            *old(writer),
            #[trigger] publish_events(at as int, v, step, pos, quat),
        );
    let events = publish_events(at as int, v, step, pos, quat);
    crate::shared::extension_is_what_was_made_since(*old(writer), *final(writer), events);
    undisturbed_publish(mem, at as int, ring, v, step, pos, quat);
    read_elsewhere(
        crate::shared::run(mem, events),
        at,
        ring.published(step, pos, quat),
        reader,
        watcher,
        step,
        read,
        newest,
    );
    crate::pose_ring::published_is_seeded(ring, step, pos, quat);
    crate::pose_ring::read_after_publish(ring, step, pos, quat, step);
}

/// The same of a teleport, which is read for the step before as well.
pub proof fn teleport_is_read_elsewhere(
    mem: Seq<u32>,
    at: usize,
    ring: crate::pose_ring::RingView,
    writer: &mut Port<'_>,
    reader: &mut Port<'_>,
    watcher: &mut Port<'_>,
    step: u32,
    pos: [u32; 3],
    quat: [u32; 4],
    before: Option<([u32; 3], [u32; 4])>,
    newest: Option<([u32; 3], [u32; 4])>,
)
    requires
        holds_ring(mem, at as int, ring),
        ring.settled(),
        call_ensures(publish_snap, (writer, at, step, pos, quat), ()),
        crate::shared::undisturbed(mem, crate::shared::since(*old(writer), *final(writer))),
        call_ensures(read_step, (reader, at, step.wrapping_sub(1)), before),
        crate::shared::undisturbed(
            crate::shared::run(mem, crate::shared::since(*old(writer), *final(writer))),
            crate::shared::since(*old(reader), *final(reader)),
        ),
        call_ensures(read_latest, (watcher, at), newest),
        crate::shared::undisturbed(
            crate::shared::run(mem, crate::shared::since(*old(writer), *final(writer))),
            crate::shared::since(*old(watcher), *final(watcher)),
        ),
    ensures
        holds_ring(
            crate::shared::run(mem, crate::shared::since(*old(writer), *final(writer))),
            at as int,
            ring.snapped(step, pos, quat),
        ),
        before == Some((pos, quat)),
        newest == Some((pos, quat)),
{
    let (u, v) = choose|u: u32, v: u32|
        final(writer).extends(
            *old(writer),
            #[trigger] snap_events(at as int, u, v, step, pos, quat),
        );
    let events = snap_events(at as int, u, v, step, pos, quat);
    crate::shared::extension_is_what_was_made_since(*old(writer), *final(writer), events);
    undisturbed_snap(mem, at as int, ring, u, v, step, pos, quat);
    crate::pose_ring::wrote_is_settled(ring, step.wrapping_sub(1), pos, quat);
    crate::pose_ring::published_is_seeded(
        ring.wrote(step.wrapping_sub(1), pos, quat),
        step,
        pos,
        quat,
    );
    read_elsewhere(
        crate::shared::run(mem, events),
        at,
        ring.snapped(step, pos, quat),
        reader,
        watcher,
        step.wrapping_sub(1),
        before,
        newest,
    );
    crate::pose_ring::snap_covers_both_steps(ring, step, pos, quat);
}

/// Reads of a ring that nothing interferes with give what the ring holds: the pose of a step, if it
/// is there, and the latest, if the ring is seeded.
pub proof fn read_elsewhere(
    mem: Seq<u32>,
    at: usize,
    ring: crate::pose_ring::RingView,
    reader: &mut Port<'_>,
    watcher: &mut Port<'_>,
    step: u32,
    read: Option<([u32; 3], [u32; 4])>,
    newest: Option<([u32; 3], [u32; 4])>,
)
    requires
        holds_ring(mem, at as int, ring),
        call_ensures(read_step, (reader, at, step), read),
        crate::shared::undisturbed(mem, crate::shared::since(*old(reader), *final(reader))),
        call_ensures(read_latest, (watcher, at), newest),
        crate::shared::undisturbed(mem, crate::shared::since(*old(watcher), *final(watcher))),
    ensures
        read == ring.reading(step),
        ring.seeded() ==> newest is Some && newest == ring.reading(ring.latest),
{
    let tries = choose|tries: Seq<Attempt>|
        crate::seqlock::one_read(tries) && read == crate::seqlock::read_outcome(tries, step)
            && final(reader).extends(
            *old(reader),
            #[trigger] crate::seqlock::tries_events(slot_at(at as int, step), tries),
        );
    crate::shared::extension_is_what_was_made_since(
        *old(reader),
        *final(reader),
        crate::seqlock::tries_events(slot_at(at as int, step), tries),
    );
    undisturbed_read_step(mem, at as int, ring, step, tries);
    let (latest, looks) = choose|latest: u32, looks: Seq<Attempt>|
        crate::seqlock::one_read(looks) && newest == crate::seqlock::read_outcome(looks, latest)
            && final(watcher).extends(
            *old(watcher),
            #[trigger] latest_events(at as int, latest, looks),
        );
    crate::shared::extension_is_what_was_made_since(
        *old(watcher),
        *final(watcher),
        latest_events(at as int, latest, looks),
    );
    if ring.seeded() {
        undisturbed_read_latest(mem, at as int, ring, latest, looks);
    }
}

} // verus!
