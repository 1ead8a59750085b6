//! Pose slots in shared memory: a sequence lock with one writer.
//!
//! A slot is nine words: the version, the step and the seven words of the pose. The writer makes
//! the version odd, writes, and makes it even again; a reader that sees the same even version
//! before and after its loads has read one complete write. [`untorn_read`] is that statement,
//! over every interleaving of the reader's loads with the writer's stores.

use vstd::prelude::*;

use crate::shared::{Event, Port};
use crate::words::Order;

verus! {

/// Words of one slot.
pub const SLOT_WORDS: usize = 9;

/// How often a read tries before it gives up.
pub const READ_TRIES: u32 = 64;

/// The accesses of one write to the slot at `at` that found the version `v`.
pub open spec fn write_events(at: int, v: u32, step: u32, words: [u32; 7]) -> Seq<Event> {
    seq![
        Event::Load { at, order: Order::Relaxed, seen: v },
        Event::Store { at, order: Order::Relaxed, value: v.wrapping_add(1) },
        Event::Fence { order: Order::Release },
        Event::Store { at: at + 1, order: Order::Relaxed, value: step },
        Event::Store { at: at + 2, order: Order::Relaxed, value: words@[0] },
        Event::Store { at: at + 3, order: Order::Relaxed, value: words@[1] },
        Event::Store { at: at + 4, order: Order::Relaxed, value: words@[2] },
        Event::Store { at: at + 5, order: Order::Relaxed, value: words@[3] },
        Event::Store { at: at + 6, order: Order::Relaxed, value: words@[4] },
        Event::Store { at: at + 7, order: Order::Relaxed, value: words@[5] },
        Event::Store { at: at + 8, order: Order::Relaxed, value: words@[6] },
        Event::Fence { order: Order::Release },
        Event::Store { at, order: Order::Relaxed, value: v.wrapping_add(2) },
    ]
}

/// One try to read a slot.
pub enum Attempt {
    /// A write was in flight.
    Busy { version: u32 },
    /// The slot was read; `closing` is the version seen afterwards.
    Seen { version: u32, step: u32, words: [u32; 7], closing: u32 },
}

impl Attempt {
    /// The try stopped at an odd version, or went on from an even one.
    pub open spec fn possible(self) -> bool {
        match self {
            Attempt::Busy { version } => version % 2 != 0,
            Attempt::Seen { version, .. } => version % 2 == 0,
        }
    }

    /// The version did not move while the slot was read.
    pub open spec fn whole(self) -> bool {
        match self {
            Attempt::Busy { .. } => false,
            Attempt::Seen { version, closing, .. } => version == closing,
        }
    }

    /// What a try gives when it was whole.
    pub open spec fn outcome(self, expect: u32) -> Option<([u32; 3], [u32; 4])> {
        match self {
            Attempt::Busy { .. } => None,
            Attempt::Seen { step, words, .. } => if step == expect {
                Some(crate::pose_ring::words_pose(words))
            } else {
                None
            },
        }
    }

    /// The accesses of the try on the slot at `at`.
    pub open spec fn events(self, at: int) -> Seq<Event> {
        match self {
            Attempt::Busy { version } => seq![
                Event::Load { at, order: Order::Relaxed, seen: version },
            ],
            Attempt::Seen { version, step, words, closing } => seq![
                Event::Load { at, order: Order::Relaxed, seen: version },
                Event::Fence { order: Order::Acquire },
                Event::Load { at: at + 1, order: Order::Relaxed, seen: step },
                Event::Load { at: at + 2, order: Order::Relaxed, seen: words@[0] },
                Event::Load { at: at + 3, order: Order::Relaxed, seen: words@[1] },
                Event::Load { at: at + 4, order: Order::Relaxed, seen: words@[2] },
                Event::Load { at: at + 5, order: Order::Relaxed, seen: words@[3] },
                Event::Load { at: at + 6, order: Order::Relaxed, seen: words@[4] },
                Event::Load { at: at + 7, order: Order::Relaxed, seen: words@[5] },
                Event::Load { at: at + 8, order: Order::Relaxed, seen: words@[6] },
                Event::Fence { order: Order::Acquire },
                Event::Load { at, order: Order::Relaxed, seen: closing },
            ],
        }
    }
}

/// The accesses of several tries, one after the other.
pub open spec fn tries_events(at: int, tries: Seq<Attempt>) -> Seq<Event>
    decreases tries.len(),
{
    if tries.len() == 0 {
        Seq::empty()
    } else {
        tries_events(at, tries.drop_last()) + tries.last().events(at)
    }
}

/// The tries are those of one read: it goes on until a try is whole, and gives up after
/// [`READ_TRIES`].
pub open spec fn one_read(tries: Seq<Attempt>) -> bool {
    &&& 0 < tries.len() <= READ_TRIES
    &&& forall|i: int| 0 <= i < tries.len() ==> (#[trigger] tries[i]).possible()
    &&& forall|i: int| 0 <= i < tries.len() - 1 ==> !(#[trigger] tries[i]).whole()
    &&& tries.last().whole() || tries.len() == READ_TRIES
}

/// What a read with these tries gives.
pub open spec fn read_outcome(tries: Seq<Attempt>, expect: u32) -> Option<([u32; 3], [u32; 4])> {
    if tries.last().whole() {
        tries.last().outcome(expect)
    } else {
        None
    }
}

/// A write is bracketed by the version: before any other word of the slot is stored the version is
/// made odd, with a release fence behind it, and after all of them, behind another release fence,
/// it is made even again. In between, the other eight words are stored and nothing else.
pub proof fn writes_are_bracketed(at: int, v: u32, step: u32, words: [u32; 7])
    ensures
        ({
            let events = write_events(at, v, step, words);
            &&& events.len() == 13
            &&& events[0] == (Event::Load { at, order: Order::Relaxed, seen: v })
            &&& events[1] matches Event::Store { at: a, value, .. } && a == at && value
                == v.wrapping_add(1)
            &&& events[2] == (Event::Fence { order: Order::Release })
            &&& forall|i: int|
                3 <= i < 11 ==> (#[trigger] events[i] matches Event::Store { at: a, value, .. } && a
                    == at + i - 2 && value == (if i == 3 {
                    step
                } else {
                    words@[i - 4]
                }))
            &&& events[11] == (Event::Fence { order: Order::Release })
            &&& events[12] matches Event::Store { at: a, value, .. } && a == at && value
                == v.wrapping_add(2)
            &&& v % 2 == 0 ==> v.wrapping_add(1) % 2 == 1 && v.wrapping_add(2) % 2 == 0
        }),
{
}

/// A try looks at the version first and last, with an acquire fence between each of these looks and
/// the words; it goes on to the words only from an even version, and counts only when the version
/// did not move.
pub proof fn reads_are_bracketed(at: int, version: u32, step: u32, words: [u32; 7], closing: u32)
    ensures
        ({
            let attempt = Attempt::Seen { version, step, words, closing };
            let events = attempt.events(at);
            &&& events.len() == 12
            &&& events[0] matches Event::Load { at: a, seen, .. } && a == at && seen == version
            &&& events[1] == (Event::Fence { order: Order::Acquire })
            &&& forall|i: int|
                2 <= i < 10 ==> (#[trigger] events[i] matches Event::Load { at: a, seen, .. } && a
                    == at + i - 1 && seen == (if i == 2 {
                    step
                } else {
                    words@[i - 3]
                }))
            &&& events[10] == (Event::Fence { order: Order::Acquire })
            &&& events[11] matches Event::Load { at: a, seen, .. } && a == at && seen == closing
            &&& attempt.possible() <==> version % 2 == 0
            &&& attempt.whole() <==> version == closing
            &&& forall|expect: u32| #[trigger]
                attempt.outcome(expect) is Some <==> step == expect
        }),
        (Attempt::Busy { version }).possible() <==> version % 2 == 1,
        !(Attempt::Busy { version }).whole(),
{
}

/// A read gives up only after 64 tries, none of which was whole; else it stops at the first whole
/// try, and gives a pose exactly when that one saw the step that was asked for.
pub proof fn reads_try_until_whole(tries: Seq<Attempt>, expect: u32)
    requires
        one_read(tries),
    ensures
        0 < tries.len() <= 64,
        tries.len() < 64 ==> tries.last().whole(),
        forall|i: int| 0 <= i < tries.len() - 1 ==> !(#[trigger] tries[i]).whole(),
        !tries.last().whole() ==> read_outcome(tries, expect) is None,
        tries.last() matches Attempt::Seen { version, step, words, closing } ==> {
            &&& read_outcome(tries, expect) is Some <==> version == closing && step == expect
            &&& read_outcome(tries, expect) matches Some(pose) ==> pose.0@ + pose.1@ == words@
        },
{
    if let Attempt::Seen { version, step, words, closing } = tries.last() {
        let pose = crate::pose_ring::words_pose(words);
        assert(pose.0@ + pose.1@ =~= words@);
    }
}

/// Writes the slot at `at`.
pub fn write_slot(port: &mut Port, at: usize, step: u32, pos: [u32; 3], quat: [u32; 4])
    requires
        at + SLOT_WORDS <= old(port).size(),
    ensures
        exists|v: u32|
            final(port).extends(
                *old(port),
                write_events(at as int, v, step, crate::pose_ring::pose_words(pos, quat)),
            ),
{
    let v: u32 = port.load(at, Order::Relaxed);
    port.store(at, Order::Relaxed, v.wrapping_add(1));
    port.barrier(Order::Release);
    port.store(at + 1, Order::Relaxed, step);
    port.store(at + 2, Order::Relaxed, pos[0]);
    port.store(at + 3, Order::Relaxed, pos[1]);
    port.store(at + 4, Order::Relaxed, pos[2]);
    port.store(at + 5, Order::Relaxed, quat[0]);
    port.store(at + 6, Order::Relaxed, quat[1]);
    port.store(at + 7, Order::Relaxed, quat[2]);
    port.store(at + 8, Order::Relaxed, quat[3]);
    port.barrier(Order::Release);
    port.store(at, Order::Relaxed, v.wrapping_add(2));
    assert(port.trace() =~= old(port).trace() + write_events(
        at as int,
        v,
        step,
        crate::pose_ring::pose_words(pos, quat),
    ));
    assert(port.extends(
        *old(port),
        write_events(at as int, v, step, crate::pose_ring::pose_words(pos, quat)),
    ));
}

/// Tries once to read the slot at `at`: the words when the version did not move.
fn try_read(port: &mut Port, at: usize) -> (r: (Option<(u32, [u32; 7])>, Ghost<Attempt>))
    requires
        at + SLOT_WORDS <= old(port).size(),
    ensures
        r.1@.possible(),
        final(port).extends(*old(port), r.1@.events(at as int)),
        r.0 is Some <==> r.1@.whole(),
        r.0 matches Some(w) ==> r.1@ matches Attempt::Seen { step, words, .. } && w == (
            step,
            words,
        ),
{
    let version: u32 = port.load(at, Order::Relaxed);
    if version % 2 != 0 {
        return (None, Ghost(Attempt::Busy { version }));
    }
    port.barrier(Order::Acquire);
    let step: u32 = port.load(at + 1, Order::Relaxed);
    let w0: u32 = port.load(at + 2, Order::Relaxed);
    let w1: u32 = port.load(at + 3, Order::Relaxed);
    let w2: u32 = port.load(at + 4, Order::Relaxed);
    let w3: u32 = port.load(at + 5, Order::Relaxed);
    let w4: u32 = port.load(at + 6, Order::Relaxed);
    let w5: u32 = port.load(at + 7, Order::Relaxed);
    let w6: u32 = port.load(at + 8, Order::Relaxed);
    port.barrier(Order::Acquire);
    let closing: u32 = port.load(at, Order::Relaxed);
    let words: [u32; 7] = [w0, w1, w2, w3, w4, w5, w6];
    let ghost attempt = Attempt::Seen { version, step, words, closing };
    assert(port.trace() =~= old(port).trace() + attempt.events(at as int));
    if closing == version {
        (Some((step, words)), Ghost(attempt))
    } else {
        (None, Ghost(attempt))
    }
}

/// Reads the slot at `at` for `expect`: an untorn read, or `None` if the slot holds a different
/// step or a write kept racing.
pub fn read_slot(port: &mut Port, at: usize, expect: u32) -> (pose: Option<([u32; 3], [u32; 4])>)
    requires
        at + SLOT_WORDS <= old(port).size(),
    ensures
        exists|tries: Seq<Attempt>|
            one_read(tries) && pose == read_outcome(tries, expect) && final(port).extends(
                *old(port),
                #[trigger] tries_events(at as int, tries),
            ),
{
    let ghost mut tries: Seq<Attempt> = Seq::empty();
    let ghost start = *port;
    assert(start.trace() + tries_events(at as int, tries) =~= start.trace());
    for n in 0..READ_TRIES
        invariant
            start == *old(port),
            at + SLOT_WORDS <= port.size(),
            tries.len() == n,
            forall|i: int| 0 <= i < n ==> (#[trigger] tries[i]).possible(),
            forall|i: int| 0 <= i < n ==> !(#[trigger] tries[i]).whole(),
            port.extends(start, tries_events(at as int, tries)),
    {
        let (read, attempt) = try_read(port, at);
        proof {
            let more = tries.push(attempt@);
            assert(more.drop_last() =~= tries);
            assert(start.trace() + tries_events(at as int, tries) + attempt@.events(at as int)
                =~= start.trace() + tries_events(at as int, more));
            tries = more;
        }
        if let Some((step, f)) = read {
            assert(one_read(tries));
            if step != expect {
                return None;
            }
            return Some(([f[0], f[1], f[2]], [f[3], f[4], f[5], f[6]]));
        }
    }
    assert(one_read(tries));
    None
}

/// The nine words at `at` are those of the slot.
pub open spec fn holds_slot(mem: Seq<u32>, at: int, slot: crate::pose_ring::PoseSlot) -> bool {
    &&& 0 <= at
    &&& at + SLOT_WORDS <= mem.len()
    &&& mem[at] == slot.version
    &&& mem[at + 1] == slot.step
    &&& forall|k: int| 0 <= k < 7 ==> mem[at + 2 + k] == #[trigger] slot.fields@[k]
}

/// Nothing outside the slot at `at` differs.
pub open spec fn same_outside_slot(mem: Seq<u32>, other: Seq<u32>, at: int) -> bool {
    &&& mem.len() == other.len()
    &&& forall|j: int|
        0 <= j < mem.len() && !(at <= j < at + SLOT_WORDS) ==> #[trigger] mem[j] == other[j]
}

/// A slot in the middle of a write, after the first `n` accesses of the write.
pub open spec fn part_written(
    slot: crate::pose_ring::PoseSlot,
    step: u32,
    words: [u32; 7],
    n: int,
) -> crate::pose_ring::PoseSlot {
    crate::pose_ring::PoseSlot {
        version: if n < 2 {
            slot.version
        } else if n < 13 {
            slot.version.wrapping_add(1)
        } else {
            slot.version.wrapping_add(2)
        },
        step: if n < 4 {
            slot.step
        } else {
            step
        },
        fields: [
            if n < 5 { slot.fields@[0] } else { words@[0] },
            if n < 6 { slot.fields@[1] } else { words@[1] },
            if n < 7 { slot.fields@[2] } else { words@[2] },
            if n < 8 { slot.fields@[3] } else { words@[3] },
            if n < 9 { slot.fields@[4] } else { words@[4] },
            if n < 10 { slot.fields@[5] } else { words@[5] },
            if n < 11 { slot.fields@[6] } else { words@[6] },
        ],
    }
}

/// What memory holds after each access of a write.
pub proof fn write_in_progress(
    mem: Seq<u32>,
    at: int,
    slot: crate::pose_ring::PoseSlot,
    step: u32,
    words: [u32; 7],
    n: int,
)
    requires
        holds_slot(mem, at, slot),
        0 <= n <= 13,
    ensures
        ({
            let events = write_events(at, slot.version, step, words);
            let now = crate::shared::run(mem, events.take(n));
            &&& holds_slot(now, at, part_written(slot, step, words, n))
            &&& same_outside_slot(mem, now, at)
            &&& crate::shared::undisturbed(mem, events.take(n))
        }),
    decreases n,
{
    let events = write_events(at, slot.version, step, words);
    if n == 0 {
        assert(events.take(0) =~= Seq::empty());
        assert(part_written(slot, step, words, 0).fields@ =~= slot.fields@);
    } else {
        write_in_progress(mem, at, slot, step, words, n - 1);
        assert(events.take(n) =~= events.take(n - 1).push(events[n - 1]));
        crate::shared::run_push(mem, events.take(n - 1), events[n - 1]);
        crate::shared::undisturbed_push(mem, events.take(n - 1), events[n - 1]);
        let before = crate::shared::run(mem, events.take(n - 1));
        let now = crate::shared::run(mem, events.take(n));
        let was = part_written(slot, step, words, n - 1);
        let next = part_written(slot, step, words, n);
        assert(now == events[n - 1].applied(before));
        assert forall|k: int| 0 <= k < 7 implies now[at + 2 + k] == #[trigger] next.fields@[k] by {
            assert(before[at + 2 + k] == was.fields@[k]);
        }
    }
}

/// A write that nothing interferes with replaces the slot as [`crate::pose_ring::PoseSlot::write`]
/// does, and touches nothing else.
pub proof fn undisturbed_write(
    mem: Seq<u32>,
    at: int,
    slot: crate::pose_ring::PoseSlot,
    v: u32,
    step: u32,
    pos: [u32; 3],
    quat: [u32; 4],
)
    requires
        holds_slot(mem, at, slot),
        crate::shared::undisturbed(
            mem,
            write_events(at, v, step, crate::pose_ring::pose_words(pos, quat)),
        ),
    ensures
        ({
            let now = crate::shared::run(
                mem,
                write_events(at, v, step, crate::pose_ring::pose_words(pos, quat)),
            );
            &&& v == slot.version
            &&& holds_slot(now, at, slot.written(step, pos, quat))
            &&& same_outside_slot(mem, now, at)
        }),
{
    let words = crate::pose_ring::pose_words(pos, quat);
    let events = write_events(at, v, step, words);
    crate::shared::first_access_agrees(mem, events);
    assert(events.take(13) =~= events);
    write_in_progress(mem, at, slot, step, words, 13);
    assert(part_written(slot, step, words, 13).fields@ =~= words@);
}

/// A try that nothing interferes with sees the slot as it is, and changes nothing.
proof fn undisturbed_attempt(
    mem: Seq<u32>,
    at: int,
    slot: crate::pose_ring::PoseSlot,
    attempt: Attempt,
)
    requires
        holds_slot(mem, at, slot),
        attempt.possible(),
        crate::shared::undisturbed(mem, attempt.events(at)),
    ensures
        crate::shared::run(mem, attempt.events(at)) == mem,
        attempt.whole() <==> slot.version % 2 == 0,
        attempt.whole() ==> forall|expect: u32|
            attempt.outcome(expect) == #[trigger] slot.reading(expect),
{
    let events = attempt.events(at);
    assert forall|i: int| 0 <= i < events.len() implies crate::shared::reads_only(
        #[trigger] events[i],
    ) by {}
    crate::shared::run_of_reads(mem, events);
    match attempt {
        Attempt::Busy { version } => {
            assert(events[0].agrees(mem));
        },
        Attempt::Seen { version, step, words, closing } => {
            assert(events[0].agrees(mem));
            assert(events[2].agrees(mem));
            assert(events[11].agrees(mem));
            assert forall|k: int| 0 <= k < 7 implies words@[k] == slot.fields@[k] by {
                assert(events[3 + k].agrees(mem));
                assert(mem[at + 2 + k] == slot.fields@[k]);
            }
            assert(words@ =~= slot.fields@);
            assert(words == slot.fields);
        },
    }
}

/// A read that nothing interferes with gives what [`crate::pose_ring::PoseSlot::read`] gives, and
/// changes nothing.
pub proof fn undisturbed_read(
    mem: Seq<u32>,
    at: int,
    slot: crate::pose_ring::PoseSlot,
    tries: Seq<Attempt>,
    expect: u32,
)
    requires
        holds_slot(mem, at, slot),
        one_read(tries),
        crate::shared::undisturbed(mem, tries_events(at, tries)),
    ensures
        read_outcome(tries, expect) == slot.reading(expect),
        crate::shared::run(mem, tries_events(at, tries)) == mem,
{
    undisturbed_tries(mem, at, slot, tries);
    if slot.version % 2 == 0 {
        assert(tries[0].whole());
        assert(tries.len() == 1);
    }
    assert(tries.last().outcome(expect) == slot.reading(expect) || !tries.last().whole());
}

/// Every try of an undisturbed read sees the slot as it is.
proof fn undisturbed_tries(
    mem: Seq<u32>,
    at: int,
    slot: crate::pose_ring::PoseSlot,
    tries: Seq<Attempt>,
)
    requires
        holds_slot(mem, at, slot),
        forall|i: int| 0 <= i < tries.len() ==> (#[trigger] tries[i]).possible(),
        crate::shared::undisturbed(mem, tries_events(at, tries)),
    ensures
        crate::shared::run(mem, tries_events(at, tries)) == mem,
        forall|i: int|
            0 <= i < tries.len() ==> ((#[trigger] tries[i]).whole() <==> slot.version % 2 == 0),
        forall|i: int, expect: u32|
            0 <= i < tries.len() && tries[i].whole() ==> #[trigger] tries[i].outcome(expect)
                == slot.reading(expect),
    decreases tries.len(),
{
    if tries.len() > 0 {
        let rest = tries.drop_last();
        let last = tries.last();
        crate::shared::run_of_two_parts(mem, tries_events(at, rest), last.events(at));
        assert forall|i: int| 0 <= i < rest.len() implies (#[trigger] rest[i]).possible() by {
            assert(tries[i].possible());
        }
        undisturbed_tries(mem, at, slot, rest);
        assert(tries[tries.len() - 1].possible());
        undisturbed_attempt(mem, at, slot, last);
        assert forall|i: int| 0 <= i < tries.len() implies ((#[trigger] tries[i]).whole()
            <==> slot.version % 2 == 0) by {
            if i < rest.len() {
                assert(rest[i] == tries[i]);
            }
        }
        assert forall|i: int, expect: u32|
            0 <= i < tries.len() && tries[i].whole() implies #[trigger] tries[i].outcome(expect)
            == slot.reading(expect) by {
            if i < rest.len() {
                assert(rest[i].outcome(expect) == slot.reading(expect));
            } else {
                assert(slot.reading(expect) == last.outcome(expect));
            }
        }
    }
}

/// The accesses of the writer that writes the given records, one after the other, into the slot
/// at `at`, which it finds at version `v`.
pub open spec fn writer_events(at: int, v: u32, records: Seq<(u32, [u32; 7])>) -> Seq<Event>
    decreases records.len(),
{
    if records.len() == 0 {
        Seq::empty()
    } else {
        writer_events(at, v, records.drop_last()) + write_events(
            at,
            version_after(v, records.len() - 1),
            records.last().0,
            records.last().1,
        )
    }
}

/// The version after `n` complete writes.
pub open spec fn version_after(v: u32, n: int) -> u32 {
    ((v + 2 * n) % 0x1_0000_0000) as u32
}

/// The slot after the first `n` of the records are completely written.
pub open spec fn slot_after(
    slot: crate::pose_ring::PoseSlot,
    records: Seq<(u32, [u32; 7])>,
    n: int,
) -> crate::pose_ring::PoseSlot {
    crate::pose_ring::PoseSlot {
        version: version_after(slot.version, n),
        step: if n == 0 {
            slot.step
        } else {
            records[n - 1].0
        },
        fields: if n == 0 {
            slot.fields
        } else {
            records[n - 1].1
        },
    }
}

/// The memory after the first `t` accesses of the writer.
pub open spec fn memory_at(
    mem: Seq<u32>,
    at: int,
    v: u32,
    records: Seq<(u32, [u32; 7])>,
    t: int,
) -> Seq<u32> {
    crate::shared::run(mem, writer_events(at, v, records).take(t))
}

/// What the slot holds at any time of the writer's work: all the writes before, and the part of
/// the current write that is done.
#[verifier::spinoff_prover]
proof fn slot_at_time(
    mem: Seq<u32>,
    at: int,
    slot: crate::pose_ring::PoseSlot,
    records: Seq<(u32, [u32; 7])>,
    t: int,
)
    requires
        holds_slot(mem, at, slot),
        0 <= t <= 13 * records.len(),
    ensures
        writer_events(at, slot.version, records).len() == 13 * records.len(),
        ({
            let n = t / 13;
            let r = t % 13;
            let done = slot_after(slot, records, n);
            let now = if n < records.len() {
                part_written(done, records[n].0, records[n].1, r)
            } else {
                done
            };
            holds_slot(memory_at(mem, at, slot.version, records, t), at, now)
        }),
    decreases records.len(),
{
    let events = writer_events(at, slot.version, records);
    if records.len() == 0 {
        assert(events.take(0) =~= Seq::empty());
    } else {
        let rest = records.drop_last();
        let before = writer_events(at, slot.version, rest);
        let m = rest.len() as int;
        let last = write_events(at, version_after(slot.version, m), records.last().0, records.last().1);
        slot_at_time(mem, at, slot, rest, 13 * m);
        assert(last.len() == 13);
        assert(before.take(13 * m) =~= before);
        let base = crate::shared::run(mem, before);
        let done = slot_after(slot, rest, m);
        assert(holds_slot(base, at, done));
        if t < 13 * m {
            slot_at_time(mem, at, slot, rest, t);
            assert(events.take(t) =~= before.take(t));
            let n = t / 13;
            assert(rest[n] == records[n]);
            assert(slot_after(slot, rest, n) == slot_after(slot, records, n));
        } else {
            let r = t - 13 * m;
            assert(events.take(t) =~= before + last.take(r));
            crate::shared::run_of_two_parts(mem, before, last.take(r));
            write_in_progress(base, at, done, records.last().0, records.last().1, r);
            assert(slot_after(slot, rest, m) == slot_after(slot, records, m));
            if r == 13 {
                last_access_completes_the_write(done, records.last().0, records.last().1);
                next_version(slot.version, m);
                assert(t / 13 == m + 1);
            } else {
                assert(t / 13 == m && t % 13 == r);
            }
        }
    }
}

/// After its last access a write is complete.
pub proof fn last_access_completes_the_write(
    slot: crate::pose_ring::PoseSlot,
    step: u32,
    words: [u32; 7],
)
    ensures
        part_written(slot, step, words, 13) == (crate::pose_ring::PoseSlot {
            version: slot.version.wrapping_add(2),
            step,
            fields: words,
        }),
{
    let whole = part_written(slot, step, words, 13);
    assert(whole.fields@ =~= words@);
    assert(whole.fields == words);
}

/// Each write moves the version on by two.
proof fn next_version(v: u32, n: int)
    requires
        0 <= n,
    ensures
        version_after(v, n + 1) == version_after(v, n).wrapping_add(2),
{
}

/// Up to the first access of a write that touches them, the step and the words are those of the
/// write before.
proof fn pose_between_writes(
    mem: Seq<u32>,
    at: int,
    slot: crate::pose_ring::PoseSlot,
    records: Seq<(u32, [u32; 7])>,
    t: int,
)
    requires
        holds_slot(mem, at, slot),
        0 <= t <= 13 * records.len(),
        t % 13 < 2,
    ensures
        ({
            let done = slot_after(slot, records, t / 13);
            let now = memory_at(mem, at, slot.version, records, t);
            &&& now[at + 1] == done.step
            &&& forall|k: int| 0 <= k < 7 ==> now[at + 2 + k] == #[trigger] done.fields@[k]
        }),
{
    slot_at_time(mem, at, slot, records, t);
    let n = t / 13;
    let done = slot_after(slot, records, n);
    if n < records.len() {
        let part = part_written(done, records[n].0, records[n].1, t % 13);
        assert forall|k: int| 0 <= k < 7 implies memory_at(mem, at, slot.version, records, t)[at + 2
            + k] == #[trigger] done.fields@[k] by {
            assert(part.fields@[k] == done.fields@[k]);
        }
    }
}

/// A read is never torn. Let a writer write any records, one after the other, into a slot, and
/// let the accesses of a try interleave with the writer's in any way: the loads at the times
/// `times[0]` (the version), `times[1]` (the step), `times[2]` to `times[8]` (the words) and
/// `times[9]` (the version again), in this order. If the try is whole, the step and the words are
/// those of one and the same write, the last one that was complete when the try began, and the
/// read gives what the slot gave then. (The version counts writes in half the range of a word: a
/// try that sleeps through a full turn of it is left out.)
#[verifier::spinoff_prover]
pub proof fn untorn_read(
    mem: Seq<u32>,
    at: int,
    slot: crate::pose_ring::PoseSlot,
    records: Seq<(u32, [u32; 7])>,
    times: Seq<int>,
    version: u32,
    step: u32,
    words: [u32; 7],
    closing: u32,
)
    requires
        holds_slot(mem, at, slot),
        slot.version % 2 == 0,
        times.len() == 10,
        forall|i: int, j: int| 0 <= i <= j < 10 ==> times[i] <= times[j],
        0 <= times[0],
        times[9] <= 13 * records.len(),
        times[9] / 13 - times[0] / 13 < 0x8000_0000,
        version == memory_at(mem, at, slot.version, records, times[0])[at],
        step == memory_at(mem, at, slot.version, records, times[1])[at + 1],
        forall|k: int|
            0 <= k < 7 ==> #[trigger] words@[k] == memory_at(
                mem,
                at,
                slot.version,
                records,
                times[2 + k],
            )[at + 2 + k],
        closing == memory_at(mem, at, slot.version, records, times[9])[at],
        (Attempt::Seen { version, step, words, closing }).possible(),
        (Attempt::Seen { version, step, words, closing }).whole(),
    ensures
        ({
            let n = times[0] / 13;
            &&& step == slot_after(slot, records, n).step
            &&& words == slot_after(slot, records, n).fields
            &&& version == slot_after(slot, records, n).version
            &&& forall|expect: u32|
                (Attempt::Seen { version, step, words, closing }).outcome(expect)
                    == #[trigger] slot_after(slot, records, n).reading(expect)
        }),
{
    let n = times[0] / 13;
    let done = slot_after(slot, records, n);
    slot_at_time(mem, at, slot, records, times[0]);
    slot_at_time(mem, at, slot, records, times[9]);
    let m = times[9] / 13;
    assert(times[0] <= times[9]);
    assert(n <= m);
    assert(times[0] % 13 < 2);
    assert(times[9] % 13 < 2);
    assert(version_after(slot.version, n) == version_after(slot.version, m));
    assert(n == m);
    assert forall|i: int| 0 <= i < 10 implies (#[trigger] times[i]) / 13 == n && times[i] % 13
        < 2 by {
        assert(times[0] <= times[i] && times[i] <= times[9]);
    }
    pose_between_writes(mem, at, slot, records, times[1]);
    assert(times[1] / 13 == n);
    assert forall|k: int| 0 <= k < 7 implies words@[k] == done.fields@[k] by {
        let t = times[2 + k];
        assert(t / 13 == n && t % 13 < 2);
        pose_between_writes(mem, at, slot, records, t);
        assert(words@[k] == memory_at(mem, at, slot.version, records, t)[at + 2 + k]);
    }
    assert(words@ =~= done.fields@);
    assert(words == done.fields);
}

} // verus!
