//! Edge-triggered requests in shared memory: a pair of values and a counter.
//!
//! One thread posts: it stores the values and then bumps the counter. Another polls: it looks at
//! the counter and, when it moved, at the values. What a poll gives is never older than the post
//! that the counter stands for: see [`poll_is_never_stale`].

use vstd::prelude::*;

use crate::shared::{Event, Port};
use crate::words::Order;

verus! {

/// Where a request keeps its counter and its two values.
#[derive(Clone, Copy, Debug, PartialEq, Eq)]
pub struct Edge {
    pub seq_at: usize,
    pub x_at: usize,
    pub z_at: usize,
}

/// The accesses of one poll: what it saw in the counter and, when the counter had moved, in the
/// values.
pub struct Poll {
    pub seq: u32,
    pub values: Option<(u32, u32)>,
}

impl Edge {
    /// The three words lie within a block of `size` words, and are three.
    pub open spec fn fits(self, size: int) -> bool {
        &&& self.seq_at < size
        &&& self.x_at < size
        &&& self.z_at < size
        &&& self.seq_at != self.x_at
        &&& self.seq_at != self.z_at
        &&& self.x_at != self.z_at
    }

    /// The accesses of one post that found `seen` in the counter.
    pub open spec fn post_events(self, x: u32, z: u32, seen: u32) -> Seq<Event> {
        seq![
            Event::Store { at: self.x_at as int, order: Order::Relaxed, value: x },
            Event::Store { at: self.z_at as int, order: Order::Relaxed, value: z },
            Event::Add { at: self.seq_at as int, order: Order::Release, value: 1, seen },
        ]
    }

    /// The accesses of one poll.
    pub open spec fn poll_events(self, poll: Poll) -> Seq<Event> {
        match poll.values {
            None => seq![
                Event::Load { at: self.seq_at as int, order: Order::Acquire, seen: poll.seq },
            ],
            Some((x, z)) => seq![
                Event::Load { at: self.seq_at as int, order: Order::Acquire, seen: poll.seq },
                Event::Load { at: self.x_at as int, order: Order::Relaxed, seen: x },
                Event::Load { at: self.z_at as int, order: Order::Relaxed, seen: z },
            ],
        }
    }

    /// Posts a request.
    pub fn post(&self, port: &mut Port, x: u32, z: u32)
        requires
            self.fits(old(port).size() as int),
        ensures
            exists|seen: u32|
                final(port).extends(*old(port), #[trigger] self.post_events(x, z, seen)),
    {
        port.store(self.x_at, Order::Relaxed, x);
        port.store(self.z_at, Order::Relaxed, z);
        let seen: u32 = port.add(self.seq_at, Order::Release, 1);
        assert(port.trace() =~= old(port).trace() + self.post_events(x, z, seen));
        assert(port.extends(*old(port), self.post_events(x, z, seen)));
    }

    /// Consumes a pending request: its values when `last_seq` is behind, which moves on to what
    /// the counter was.
    pub fn poll(&self, port: &mut Port, last_seq: &mut u32) -> (request: Option<(u32, u32)>)
        requires
            self.fits(old(port).size() as int),
        ensures
            request is None <==> *final(last_seq) == *old(last_seq),
            final(port).extends(
                *old(port),
                self.poll_events(Poll { seq: *final(last_seq), values: request }),
            ),
    {
        let seq: u32 = port.load(self.seq_at, Order::Acquire);
        if seq == *last_seq {
            return None;
        }
        *last_seq = seq;
        let x: u32 = port.load(self.x_at, Order::Relaxed);
        let z: u32 = port.load(self.z_at, Order::Relaxed);
        assert(port.trace() =~= old(port).trace() + self.poll_events(
            Poll { seq, values: Some((x, z)) },
        ));
        Some((x, z))
    }

    /// The accesses of a thread that posts the given pairs, one after the other, from a counter
    /// that stands at `seq`.
    pub open spec fn posting(self, seq: u32, pairs: Seq<(u32, u32)>) -> Seq<Event>
        decreases pairs.len(),
    {
        if pairs.len() == 0 {
            Seq::empty()
        } else {
            self.posting(seq, pairs.drop_last()) + self.post_events(
                pairs.last().0,
                pairs.last().1,
                crate::body_motion::bumped(seq, (pairs.len() - 1) as nat),
            )
        }
    }

    /// The memory after the first `t` accesses of the posting thread.
    pub open spec fn memory_at(self, mem: Seq<u32>, pairs: Seq<(u32, u32)>, t: int) -> Seq<u32> {
        crate::shared::run(mem, self.posting(mem[self.seq_at as int], pairs).take(t))
    }
}

/// A post bumps the counter last, with a release, after both values are stored; a poll looks at the
/// counter first, with an acquire, and at the values only when there are any.
pub proof fn counter_moves_last(edge: Edge, x: u32, z: u32, seen: u32, poll: Poll)
    ensures
        ({
            let events = edge.post_events(x, z, seen);
            &&& events.len() == 3
            &&& events[0] matches Event::Store { at, value, .. } && at == edge.x_at && value == x
            &&& events[1] matches Event::Store { at, value, .. } && at == edge.z_at && value == z
            &&& events[2] == (Event::Add {
                at: edge.seq_at as int,
                order: Order::Release,
                value: 1,
                seen,
            })
        }),
        ({
            let events = edge.poll_events(poll);
            &&& events.len() == (if poll.values is Some {
                3int
            } else {
                1int
            })
            &&& events[0] == (Event::Load {
                at: edge.seq_at as int,
                order: Order::Acquire,
                seen: poll.seq,
            })
            &&& poll.values matches Some(values) ==> {
                &&& events[1] matches Event::Load { at, seen, .. } && at == edge.x_at && seen
                    == values.0
                &&& events[2] matches Event::Load { at, seen, .. } && at == edge.z_at && seen
                    == values.1
            }
        }),
{
}

/// What a memory holds after the posts of some pairs, of which `xs` first values and `zs` second
/// values were stored and `n` posts were completed.
pub open spec fn posted(
    edge: Edge,
    mem: Seq<u32>,
    now: Seq<u32>,
    pairs: Seq<(u32, u32)>,
    xs: int,
    zs: int,
    n: int,
) -> bool {
    &&& now.len() == mem.len()
    &&& now[edge.seq_at as int] == crate::body_motion::bumped(mem[edge.seq_at as int], n as nat)
    &&& now[edge.x_at as int] == (if xs == 0 {
        mem[edge.x_at as int]
    } else {
        pairs[xs - 1].0
    })
    &&& now[edge.z_at as int] == (if zs == 0 {
        mem[edge.z_at as int]
    } else {
        pairs[zs - 1].1
    })
}

/// What the words hold at any time of the posting thread's work.
proof fn words_at_time(edge: Edge, mem: Seq<u32>, pairs: Seq<(u32, u32)>, t: int)
    requires
        edge.fits(mem.len() as int),
        0 <= t <= 3 * pairs.len(),
    ensures
        edge.posting(mem[edge.seq_at as int], pairs).len() == 3 * pairs.len(),
        posted(
            edge,
            mem,
            edge.memory_at(mem, pairs, t),
            pairs,
            (t + 2) / 3,
            (t + 1) / 3,
            t / 3,
        ),
    decreases pairs.len(),
{
    let seq = mem[edge.seq_at as int];
    let events = edge.posting(seq, pairs);
    if pairs.len() == 0 {
        assert(events.take(0) =~= Seq::empty());
    } else {
        let rest = pairs.drop_last();
        let m = rest.len() as int;
        let before = edge.posting(seq, rest);
        let last = edge.post_events(
            pairs.last().0,
            pairs.last().1,
            crate::body_motion::bumped(seq, m as nat),
        );
        words_at_time(edge, mem, rest, 3 * m);
        assert(before.take(3 * m) =~= before);
        if t < 3 * m {
            words_at_time(edge, mem, rest, t);
            assert(events.take(t) =~= before.take(t));
        } else {
            let r = t - 3 * m;
            let base = crate::shared::run(mem, before);
            assert(events.take(t) =~= before + last.take(r));
            crate::shared::run_of_two_parts(mem, before, last.take(r));
            assert(posted(edge, mem, base, rest, m, m, m));
            assert(last.take(0) =~= Seq::empty());
            assert(last.take(1) =~= last.take(0).push(last[0]));
            assert(last.take(2) =~= last.take(1).push(last[1]));
            assert(last.take(3) =~= last.take(2).push(last[2]));
            crate::shared::run_push(base, last.take(0), last[0]);
            crate::shared::run_push(base, last.take(1), last[1]);
            crate::shared::run_push(base, last.take(2), last[2]);
        }
    }
}

/// A poll never gives a stale value. Let a thread post any pairs, one after the other, and let the
/// three loads of a poll fall between its accesses in any way, at the times `t0` (the counter),
/// `t1` and `t2` (the values). The counter tells how many posts were complete at `t0`; each value
/// is that of the last of them or of a later post; and when no later post had begun, the values
/// are exactly the pair of the last one.
pub proof fn poll_is_never_stale(
    edge: Edge,
    mem: Seq<u32>,
    pairs: Seq<(u32, u32)>,
    t0: int,
    t1: int,
    t2: int,
)
    requires
        edge.fits(mem.len() as int),
        0 <= t0 <= t1 <= t2 <= 3 * pairs.len(),
        t0 >= 3,
    ensures
        ({
            let n = t0 / 3;
            let seq = edge.memory_at(mem, pairs, t0)[edge.seq_at as int];
            let x = edge.memory_at(mem, pairs, t1)[edge.x_at as int];
            let z = edge.memory_at(mem, pairs, t2)[edge.z_at as int];
            &&& seq == crate::body_motion::bumped(mem[edge.seq_at as int], n as nat)
            &&& exists|i: int| n - 1 <= i < pairs.len() && #[trigger] pairs[i].0 == x
            &&& exists|i: int| n - 1 <= i < pairs.len() && #[trigger] pairs[i].1 == z
            &&& t2 <= 3 * n ==> (x, z) == pairs[n - 1]
        }),
{
    words_at_time(edge, mem, pairs, t0);
    words_at_time(edge, mem, pairs, t1);
    words_at_time(edge, mem, pairs, t2);
    let n = t0 / 3;
    let i = (t1 + 2) / 3 - 1;
    let j = (t2 + 1) / 3 - 1;
    assert(n - 1 <= i < pairs.len() && pairs[i].0 == edge.memory_at(mem, pairs, t1)[edge.x_at as int]);
    assert(n - 1 <= j < pairs.len() && pairs[j].1 == edge.memory_at(mem, pairs, t2)[edge.z_at as int]);
}

/// A post that nothing interferes with stores its values and bumps the counter.
pub proof fn undisturbed_post(edge: Edge, mem: Seq<u32>, x: u32, z: u32, seen: u32)
    requires
        edge.fits(mem.len() as int),
        crate::shared::undisturbed(mem, edge.post_events(x, z, seen)),
    ensures
        crate::shared::run(mem, edge.post_events(x, z, seen)) == mem.update(
            edge.x_at as int,
            x,
        ).update(edge.z_at as int, z).update(
            edge.seq_at as int,
            mem[edge.seq_at as int].wrapping_add(1),
        ),
        seen == mem[edge.seq_at as int],
{
    let events = edge.post_events(x, z, seen);
    assert(events.take(0) =~= Seq::empty());
    assert(events.take(1) =~= events.take(0).push(events[0]));
    assert(events.take(2) =~= events.take(1).push(events[1]));
    assert(events =~= events.take(2).push(events[2]));
    crate::shared::run_push(mem, events.take(0), events[0]);
    crate::shared::run_push(mem, events.take(1), events[1]);
    crate::shared::run_push(mem, events.take(2), events[2]);
    crate::shared::undisturbed_push(mem, events.take(2), events[2]);
}

/// A poll that nothing interferes with gives what the memory holds when the counter moved, and
/// changes nothing: it is [`crate::input_state::polled`].
pub proof fn undisturbed_poll(edge: Edge, mem: Seq<u32>, last_seq: u32, poll: Poll)
    requires
        edge.fits(mem.len() as int),
        poll.values is None <==> poll.seq == last_seq,
        crate::shared::undisturbed(mem, edge.poll_events(poll)),
    ensures
        poll.seq == mem[edge.seq_at as int],
        poll.values == crate::input_state::polled(
            mem[edge.seq_at as int],
            last_seq,
            mem[edge.x_at as int],
            mem[edge.z_at as int],
        ),
        poll.values is Some <==> mem[edge.seq_at as int] != last_seq,
        poll.values matches Some(values) ==> values == (
            mem[edge.x_at as int],
            mem[edge.z_at as int],
        ),
        crate::shared::run(mem, edge.poll_events(poll)) == mem,
{
    let events = edge.poll_events(poll);
    assert forall|i: int| 0 <= i < events.len() implies crate::shared::reads_only(
        #[trigger] events[i],
    ) by {}
    crate::shared::run_of_reads(mem, events);
    assert(events[0].agrees(mem));
    if poll.values is Some {
        assert(events[1].agrees(mem));
        assert(events[2].agrees(mem));
    }
}

} // verus!
