//! Words of memory that several threads share, and the accesses that a thread makes to them.
//!
//! What a shared word holds at any moment is up to all threads, so a load may give anything. What
//! can be said of a thread is which accesses it makes, in which order, and what each of them saw:
//! a [`Port`] is a thread's way to the words and keeps that record as a ghost trace. The contracts
//! of the operations on shared blocks speak of the trace; what a trace does to memory is
//! [`Event::applied`].
//!
//! Statements about several threads take their accesses one at a time, in any order that keeps the
//! order of each thread. That the orderings and fences hold the machine to such an order is not
//! modelled.

use vstd::prelude::*;

use crate::words::{order_fence, Order, SharedWords};

verus! {

/// One access of a thread: where it went, with which ordering, and what it saw there.
pub enum Event {
    Load { at: int, order: Order, seen: u32 },
    Store { at: int, order: Order, value: u32 },
    /// Adds, wrapping.
    Add { at: int, order: Order, value: u32, seen: u32 },
    /// Sets bits.
    Or { at: int, order: Order, value: u32, seen: u32 },
    /// Keeps bits.
    And { at: int, order: Order, value: u32, seen: u32 },
    /// Raises to at least a value.
    Max { at: int, order: Order, value: u32, seen: u32 },
    Swap { at: int, order: Order, value: u32, seen: u32 },
    /// Replaces `current` by `new`; leaves any other value.
    Exchange { at: int, order: Order, current: u32, new: u32, seen: u32 },
    Fence { order: Order },
    /// No access: a task was run, out of a slot or, where there is none, at once. `deed` says what
    /// running a callback with a context may come to.
    Ran {
        slot: Option<usize>,
        callback: u32,
        context: u32,
        deed: spec_fn(u32, u32) -> bool,
    },
}

/// What running `run` with a callback and a context may come to.
pub open spec fn deed_of<F: FnOnce(u32, u32)>(run: F) -> spec_fn(u32, u32) -> bool {
    |callback: u32, context: u32| call_ensures(run, (callback, context), ())
}

impl Event {
    /// The memory after the access.
    pub open spec fn applied(self, mem: Seq<u32>) -> Seq<u32> {
        match self {
            Event::Load { .. } => mem,
            Event::Store { at, value, .. } => mem.update(at, value),
            Event::Add { at, value, .. } => mem.update(at, mem[at].wrapping_add(value)),
            Event::Or { at, value, .. } => mem.update(at, mem[at] | value),
            Event::And { at, value, .. } => mem.update(at, mem[at] & value),
            Event::Max { at, value, .. } => mem.update(
                at,
                if mem[at] < value {
                    value
                } else {
                    mem[at]
                },
            ),
            Event::Swap { at, value, .. } => mem.update(at, value),
            Event::Exchange { at, current, new, .. } => if mem[at] == current {
                mem.update(at, new)
            } else {
                mem
            },
            Event::Fence { .. } => mem,
            Event::Ran { .. } => mem,
        }
    }

    /// The access saw what the memory holds.
    pub open spec fn agrees(self, mem: Seq<u32>) -> bool {
        match self {
            Event::Load { at, seen, .. } => seen == mem[at],
            Event::Store { .. } => true,
            Event::Add { at, seen, .. } => seen == mem[at],
            Event::Or { at, seen, .. } => seen == mem[at],
            Event::And { at, seen, .. } => seen == mem[at],
            Event::Max { at, seen, .. } => seen == mem[at],
            Event::Swap { at, seen, .. } => seen == mem[at],
            Event::Exchange { at, seen, .. } => seen == mem[at],
            Event::Fence { .. } => true,
            Event::Ran { .. } => true,
        }
    }
}

/// The access was made: it is a call of the standard library's operation on the block's word, with
/// this ordering and these values, and what was seen is a result of that call. Of a run: the task
/// was run with this callback and context.
pub open spec fn made(block: SharedWords, e: Event) -> bool {
    match e {
        Event::Load { at, order, seen } => block.loaded(at as usize, order, seen),
        Event::Store { at, order, value } => block.stored(at as usize, order, value),
        Event::Add { at, order, value, seen } => block.added(at as usize, order, value, seen),
        Event::Or { at, order, value, seen } => block.ored(at as usize, order, value, seen),
        Event::And { at, order, value, seen } => block.anded(at as usize, order, value, seen),
        Event::Max { at, order, value, seen } => block.raised(at as usize, order, value, seen),
        Event::Swap { at, order, value, seen } => block.swapped(at as usize, order, value, seen),
        Event::Exchange { at, order, current, new, seen } => {
            ||| block.exchanged(at as usize, order, current, new, Ok(seen))
            ||| block.exchanged(at as usize, order, current, new, Err(seen))
        },
        Event::Fence { order } => crate::words::fenced(order),
        Event::Ran { callback, context, deed, .. } => deed(callback, context),
    }
}

/// The memory after a run of accesses that nothing else interferes with.
pub open spec fn run(mem: Seq<u32>, trace: Seq<Event>) -> Seq<u32>
    decreases trace.len(),
{
    if trace.len() == 0 {
        mem
    } else {
        trace.last().applied(run(mem, trace.drop_last()))
    }
}

/// Every access of the run saw what the run itself had left there: no other thread interfered.
pub open spec fn undisturbed(mem: Seq<u32>, trace: Seq<Event>) -> bool
    decreases trace.len(),
{
    if trace.len() == 0 {
        true
    } else {
        &&& undisturbed(mem, trace.drop_last())
        &&& trace.last().agrees(run(mem, trace.drop_last()))
    }
}

/// A run continues where its first part left off.
pub proof fn run_of_two_parts(mem: Seq<u32>, first: Seq<Event>, second: Seq<Event>)
    ensures
        run(mem, first + second) == run(run(mem, first), second),
        undisturbed(mem, first + second) <==> undisturbed(mem, first) && undisturbed(
            run(mem, first),
            second,
        ),
    decreases second.len(),
{
    if second.len() == 0 {
        assert(first + second =~= first);
    } else {
        assert((first + second).drop_last() =~= first + second.drop_last());
        run_of_two_parts(mem, first, second.drop_last());
    }
}

/// One more access after a run.
pub broadcast proof fn run_push(mem: Seq<u32>, trace: Seq<Event>, e: Event)
    ensures
        #[trigger] run(mem, trace.push(e)) == e.applied(run(mem, trace)),
{
    assert(trace.push(e).drop_last() =~= trace);
}

/// One more access after an undisturbed run.
pub broadcast proof fn undisturbed_push(mem: Seq<u32>, trace: Seq<Event>, e: Event)
    ensures
        #[trigger] undisturbed(mem, trace.push(e)) == (undisturbed(mem, trace) && e.agrees(
            run(mem, trace),
        )),
{
    assert(trace.push(e).drop_last() =~= trace);
}

/// The run of one access.
pub proof fn run_of_one(mem: Seq<u32>, e: Event)
    ensures
        run(mem, seq![e]) == e.applied(mem),
        undisturbed(mem, seq![e]) <==> e.agrees(mem),
{
    assert(seq![e].drop_last() =~= Seq::<Event>::empty());
    assert(run(mem, Seq::<Event>::empty()) == mem);
    assert(undisturbed(mem, Seq::<Event>::empty()));
}

/// The first access of an undisturbed run saw the memory that the run started from.
pub proof fn first_access_agrees(mem: Seq<u32>, trace: Seq<Event>)
    requires
        trace.len() > 0,
        undisturbed(mem, trace),
    ensures
        trace[0].agrees(mem),
{
    let rest = trace.skip(1);
    assert(trace =~= seq![trace[0]] + rest);
    run_of_two_parts(mem, seq![trace[0]], rest);
    run_of_one(mem, trace[0]);
}

/// The access changes nothing.
pub open spec fn reads_only(e: Event) -> bool {
    e is Load || e is Fence
}

/// A run that only reads leaves the memory as it is, and is undisturbed exactly when every access
/// saw the memory.
pub proof fn run_of_reads(mem: Seq<u32>, trace: Seq<Event>)
    requires
        forall|i: int| 0 <= i < trace.len() ==> reads_only(#[trigger] trace[i]),
    ensures
        run(mem, trace) == mem,
        undisturbed(mem, trace) <==> (forall|i: int|
            0 <= i < trace.len() ==> (#[trigger] trace[i]).agrees(mem)),
    decreases trace.len(),
{
    if trace.len() > 0 {
        let rest = trace.drop_last();
        assert forall|i: int| 0 <= i < rest.len() implies reads_only(#[trigger] rest[i]) by {
            assert(reads_only(trace[i]));
        }
        run_of_reads(mem, rest);
        assert(reads_only(trace[trace.len() - 1]));
        if undisturbed(mem, trace) {
            assert forall|i: int| 0 <= i < trace.len() implies (#[trigger] trace[i]).agrees(
                mem,
            ) by {
                if i < rest.len() {
                    assert(rest[i].agrees(mem));
                }
            }
        }
        if forall|i: int| 0 <= i < trace.len() ==> (#[trigger] trace[i]).agrees(mem) {
            assert forall|i: int| 0 <= i < rest.len() implies (#[trigger] rest[i]).agrees(mem) by {
                assert(trace[i].agrees(mem));
            }
            assert(trace[trace.len() - 1].agrees(mem));
        }
    }
}

/// The access leaves everything outside the `size` words at `at` alone.
pub open spec fn stays_within(e: Event, at: int, size: int) -> bool {
    match e {
        Event::Load { .. } => true,
        Event::Store { at: a, .. } => at <= a < at + size,
        Event::Add { at: a, .. } => at <= a < at + size,
        Event::Or { at: a, .. } => at <= a < at + size,
        Event::And { at: a, .. } => at <= a < at + size,
        Event::Max { at: a, .. } => at <= a < at + size,
        Event::Swap { at: a, .. } => at <= a < at + size,
        Event::Exchange { at: a, .. } => at <= a < at + size,
        Event::Fence { .. } => true,
        Event::Ran { .. } => true,
    }
}

/// Nothing outside the `size` words at `at` differs.
pub open spec fn same_outside(mem: Seq<u32>, other: Seq<u32>, at: int, size: int) -> bool {
    &&& mem.len() == other.len()
    &&& forall|j: int|
        0 <= j < mem.len() && !(at <= j < at + size) ==> #[trigger] mem[j] == other[j]
}

/// A run whose accesses stay within some words leaves the other words as they are.
pub proof fn run_stays_within(mem: Seq<u32>, trace: Seq<Event>, at: int, size: int)
    requires
        0 <= at,
        at + size <= mem.len(),
        forall|i: int| 0 <= i < trace.len() ==> stays_within(#[trigger] trace[i], at, size),
    ensures
        same_outside(mem, run(mem, trace), at, size),
    decreases trace.len(),
{
    if trace.len() > 0 {
        let rest = trace.drop_last();
        assert forall|i: int| 0 <= i < rest.len() implies stays_within(
            #[trigger] rest[i],
            at,
            size,
        ) by {
            assert(stays_within(trace[i], at, size));
        }
        run_stays_within(mem, rest, at, size);
        assert(stays_within(trace[trace.len() - 1], at, size));
    }
}

/// One thread's way to a block of shared words. Every method makes one access, or runs one task, and
/// adds it to the trace.
pub struct Port<'a> {
    block: &'a SharedWords,
    trace: Ghost<Seq<Event>>,
}

impl<'a> Port<'a> {
    /// The block that is reached.
    pub closed spec fn block(&self) -> SharedWords {
        *self.block
    }

    /// The number of words that can be reached.
    pub open spec fn size(&self) -> usize {
        self.block().size()
    }

    /// The accesses made through this port, oldest first.
    pub closed spec fn trace(&self) -> Seq<Event> {
        self.trace@
    }

    /// Every access in the trace was made on the block.
    pub open spec fn honest(&self) -> bool {
        forall|i: int| 0 <= i < self.trace().len() ==> made(self.block(), #[trigger] self.trace()[i])
    }

    /// This port is `before` after the further accesses `events`: it reaches the same block, the
    /// trace grew by the events, and like those before, which [`Port::new`] starts, they were all
    /// made.
    pub open spec fn extends(&self, before: Port<'a>, events: Seq<Event>) -> bool {
        &&& self.block() == before.block()
        &&& self.trace() == before.trace() + events
        &&& before.honest() ==> self.honest()
    }

    /// A way to the block, with nothing accessed so far.
    pub fn new(block: &'a SharedWords) -> (port: Port<'a>)
        ensures
            port.block() == *block,
            port.trace() == Seq::<Event>::empty(),
            port.honest(),
    {
        Port { block, trace: Ghost(Seq::empty()) }
    }

    /// Adds an access that was just made to the trace.
    fn record(&mut self, e: Ghost<Event>)
        requires
            made(old(self).block(), e@),
        ensures
            final(self).extends(*old(self), seq![e@]),
    {
        self.trace = Ghost(self.trace@ + seq![e@]);
        assert(self.trace() == old(self).trace().push(e@));
        assert forall|i: int|
            old(self).honest() && 0 <= i < self.trace().len() implies made(
            self.block(),
            #[trigger] self.trace()[i],
        ) by {
            if i < old(self).trace().len() {
                assert(made(old(self).block(), old(self).trace()[i]));
            }
        }
    }

    /// Reads a word.
    pub fn load(&mut self, at: usize, order: Order) -> (seen: u32)
        requires
            at < old(self).size(),
            order is Relaxed || order is Acquire,
        ensures
            old(self).block().loaded(at, order, seen),
            final(self).extends(*old(self), seq![Event::Load { at: at as int, order, seen }]),
    {
        let seen: u32 = self.block.load(at, order);
        self.record(Ghost(Event::Load { at: at as int, order, seen }));
        seen
    }

    /// Writes a word.
    pub fn store(&mut self, at: usize, order: Order, value: u32)
        requires
            at < old(self).size(),
            order is Relaxed || order is Release,
        ensures
            old(self).block().stored(at, order, value),
            final(self).extends(*old(self), seq![Event::Store { at: at as int, order, value }]),
    {
        self.block.store(at, order, value);
        self.record(Ghost(Event::Store { at: at as int, order, value }));
    }

    /// Adds to a word, wrapping, and gives what it held.
    pub fn add(&mut self, at: usize, order: Order, value: u32) -> (seen: u32)
        requires
            at < old(self).size(),
        ensures
            old(self).block().added(at, order, value, seen),
            final(self).extends(*old(self), seq![Event::Add { at: at as int, order, value, seen }]),
    {
        let seen: u32 = self.block.add(at, order, value);
        self.record(Ghost(Event::Add { at: at as int, order, value, seen }));
        seen
    }

    /// Sets bits of a word and gives what it held.
    pub fn or(&mut self, at: usize, order: Order, value: u32) -> (seen: u32)
        requires
            at < old(self).size(),
        ensures
            old(self).block().ored(at, order, value, seen),
            final(self).extends(*old(self), seq![Event::Or { at: at as int, order, value, seen }]),
    {
        let seen: u32 = self.block.or(at, order, value);
        self.record(Ghost(Event::Or { at: at as int, order, value, seen }));
        seen
    }

    /// Keeps bits of a word and gives what it held.
    pub fn and(&mut self, at: usize, order: Order, value: u32) -> (seen: u32)
        requires
            at < old(self).size(),
        ensures
            old(self).block().anded(at, order, value, seen),
            final(self).extends(*old(self), seq![Event::And { at: at as int, order, value, seen }]),
    {
        let seen: u32 = self.block.and(at, order, value);
        self.record(Ghost(Event::And { at: at as int, order, value, seen }));
        seen
    }

    /// Raises a word to at least `value` and gives what it held.
    pub fn max(&mut self, at: usize, order: Order, value: u32) -> (seen: u32)
        requires
            at < old(self).size(),
        ensures
            old(self).block().raised(at, order, value, seen),
            final(self).extends(*old(self), seq![Event::Max { at: at as int, order, value, seen }]),
    {
        let seen: u32 = self.block.max(at, order, value);
        self.record(Ghost(Event::Max { at: at as int, order, value, seen }));
        seen
    }

    /// Replaces a word and gives what it held.
    pub fn swap(&mut self, at: usize, order: Order, value: u32) -> (seen: u32)
        requires
            at < old(self).size(),
        ensures
            old(self).block().swapped(at, order, value, seen),
            final(self).extends(*old(self), seq![Event::Swap { at: at as int, order, value, seen }]),
    {
        let seen: u32 = self.block.swap(at, order, value);
        self.record(Ghost(Event::Swap { at: at as int, order, value, seen }));
        seen
    }

    /// Replaces a word by `new` if it holds `current`, and gives what it held.
    pub fn exchange(&mut self, at: usize, order: Order, current: u32, new: u32) -> (seen: u32)
        requires
            at < old(self).size(),
        ensures
            made(
                old(self).block(),
                (Event::Exchange { at: at as int, order, current, new, seen }),
            ),
            final(self).extends(
                *old(self),
                seq![Event::Exchange { at: at as int, order, current, new, seen }],
            ),
    {
        let seen: u32 = match self.block.exchange(at, order, current, new) {
            Ok(seen) => seen,
            Err(seen) => seen,
        };
        self.record(Ghost(Event::Exchange { at: at as int, order, current, new, seen }));
        seen
    }

    /// Orders the accesses before and after.
    pub fn barrier(&mut self, order: Order)
        requires
            !(order is Relaxed),
        ensures
            crate::words::fenced(order),
            final(self).extends(*old(self), seq![Event::Fence { order }]),
    {
        order_fence(order);
        self.record(Ghost(Event::Fence { order }));
    }

    /// Runs a task, and adds the run to the trace where it stands among the accesses.
    pub fn run<F: FnOnce(u32, u32)>(
        &mut self,
        run: F,
        slot: Option<usize>,
        callback: u32,
        context: u32,
    )
        requires
            call_requires(run, (callback, context)),
        ensures
            call_ensures(run, (callback, context), ()),
            final(self).extends(
                *old(self),
                seq![Event::Ran { slot, callback, context, deed: deed_of(run) }],
            ),
    {
        run(callback, context);
        self.record(Ghost(Event::Ran { slot, callback, context, deed: deed_of(run) }));
    }
}

/// What a trace says was made: an access in it is a call of the operation that it names, on the word
/// that it names, with the ordering and the values that it names, and what it saw is a result of that
/// call; a run in it was run with what it names.
pub proof fn honest_traces_were_made(port: Port<'_>, before: Port<'_>, events: Seq<Event>, i: int)
    requires
        before.honest(),
        port.extends(before, events),
        0 <= i < events.len(),
    ensures
        port.block() == before.block(),
        port.trace() == before.trace() + events,
        port.honest(),
        match events[i] {
            Event::Load { at, order, seen } => port.block().loaded(at as usize, order, seen),
            Event::Store { at, order, value } => port.block().stored(at as usize, order, value),
            Event::Add { at, order, value, seen } => port.block().added(
                at as usize,
                order,
                value,
                seen,
            ),
            Event::Or { at, order, value, seen } => port.block().ored(
                at as usize,
                order,
                value,
                seen,
            ),
            Event::And { at, order, value, seen } => port.block().anded(
                at as usize,
                order,
                value,
                seen,
            ),
            Event::Max { at, order, value, seen } => port.block().raised(
                at as usize,
                order,
                value,
                seen,
            ),
            Event::Swap { at, order, value, seen } => port.block().swapped(
                at as usize,
                order,
                value,
                seen,
            ),
            Event::Exchange { at, order, current, new, seen } => port.block().exchanged(
                at as usize,
                order,
                current,
                new,
                Ok(seen),
            ) || port.block().exchanged(at as usize, order, current, new, Err(seen)),
            Event::Fence { order } => crate::words::fenced(order),
            Event::Ran { callback, context, deed, .. } => deed(callback, context),
        },
{
    assert(port.trace()[before.trace().len() + i] == events[i]);
    assert(made(port.block(), port.trace()[before.trace().len() + i]));
}

/// The accesses that were made through a port since it was `before`.
pub open spec fn since(before: Port<'_>, after: Port<'_>) -> Seq<Event> {
    after.trace().skip(before.trace().len() as int)
}

/// What extends a port is what was made through it since.
pub proof fn extension_is_what_was_made_since(
    before: Port<'_>,
    after: Port<'_>,
    events: Seq<Event>,
)
    requires
        after.extends(before, events),
    ensures
        since(before, after) == events,
{
    assert(since(before, after) =~= events);
}

} // verus!
