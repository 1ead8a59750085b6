//! What all threads together do to the task pool in one world step.
//!
//! Each thread runs operations on the pool, one after the other; their accesses interleave in any
//! way. From a pool that was reset, every task that is enqueued is claimed once, run once by the
//! thread that claimed it, and only then complete: see [`each_task_runs_once`] and
//! [`finished_task_was_run`]. When all are complete, a reset makes the pool ready for the next step:
//! see [`reset_starts_over`].

use vstd::prelude::*;

use crate::physics_tasks::{CLAIMED, COMPLETE, FREE, MAX_TASKS, MAX_WORKERS, PENDING};
use crate::shared::Event;
use crate::shared_pool::{Claim, PoolBlock, Scan, CLAIMS_AT, POOL_WORDS};
use crate::words::Order;

verus! {

/// One operation of a thread on the pool, with what it saw.
pub enum PoolAct {
    /// [`PoolBlock::enqueue_task`].
    Enqueue { drawn: u32, callback: u32, context: u32, credits: u32 },
    /// The search of [`PoolBlock::execute_one`].
    Search { scan: Scan, claim: Option<Claim> },
    /// A task was run: by [`PoolBlock::execute_one`] out of its slot, or at once by
    /// [`PoolBlock::enqueue_or_run`]. It stands where the run ended.
    Run {
        slot: Option<usize>,
        callback: u32,
        context: u32,
        deed: spec_fn(u32, u32) -> bool,
    },
    /// The report of [`PoolBlock::execute_one`].
    Complete { index: usize },
    /// [`PoolBlock::count_claim`], the end of [`PoolBlock::execute_one`].
    Count { who: usize, seen: u32 },
    /// [`PoolBlock::take_credit`].
    Credit { credits: u32, exchanged: u32 },
    /// The look of [`PoolBlock::finish_task`] at its task.
    Look { index: usize, status: u32 },
    /// [`PoolBlock::claim_counts`].
    Counts { counts: Seq<u32> },
}

impl PoolAct {
    /// The operation is called as it may be, and a search found what it saw.
    pub open spec fn valid(self) -> bool {
        match self {
            PoolAct::Search { scan, claim } => crate::shared_pool::scan_found(scan, claim),
            PoolAct::Complete { index } => index < MAX_TASKS,
            PoolAct::Look { index, .. } => index < MAX_TASKS,
            PoolAct::Counts { counts } => counts.len() <= MAX_WORKERS,
            _ => true,
        }
    }

    /// The accesses of the operation.
    pub open spec fn events(self, block: PoolBlock) -> Seq<Event> {
        match self {
            PoolAct::Enqueue { drawn, callback, context, credits } => block.enqueue_events(
                drawn,
                callback,
                context,
                credits,
            ),
            PoolAct::Search { scan, claim } => block.scan_events(scan, claim),
            PoolAct::Run { slot, callback, context, deed } => seq![
                Event::Ran { slot, callback, context, deed },
            ],
            PoolAct::Complete { index } => seq![
                Event::Store {
                    at: block.status_at(index as int),
                    order: Order::Release,
                    value: COMPLETE,
                },
            ],
            PoolAct::Count { who, seen } => seq![
                crate::blocks::added(
                    block.at + CLAIMS_AT + crate::physics_tasks::claim_counter(who),
                    1,
                    seen,
                ),
            ],
            PoolAct::Credit { credits, exchanged } => block.credit_events(credits, exchanged),
            PoolAct::Look { index, status } => seq![
                Event::Load {
                    at: block.status_at(index as int),
                    order: Order::Acquire,
                    seen: status,
                },
            ],
            PoolAct::Counts { counts } => block.count_events(counts),
        }
    }

    /// The operation claimed the task.
    pub open spec fn claims(self, index: int) -> bool {
        self matches PoolAct::Search { claim, .. } && claim matches Some(c) && c.index == index
    }

    /// The operation claimed the task and found this callback and context.
    pub open spec fn claims_task(self, index: int, callback: u32, context: u32) -> bool {
        self matches PoolAct::Search { claim, .. } && claim matches Some(c) && c.index == index
            && c.callback == callback && c.context == context
    }

    /// The operation ran the task out of its slot.
    pub open spec fn runs(self, index: int) -> bool {
        self matches PoolAct::Run { slot, .. } && slot matches Some(i) && i == index
    }

    /// The operation completed the task.
    pub open spec fn completes(self, index: int) -> bool {
        self matches PoolAct::Complete { index: i } && i == index
    }
}

/// The accesses of a thread's operations, one after the other.
pub open spec fn acts_events(block: PoolBlock, acts: Seq<PoolAct>) -> Seq<Event>
    decreases acts.len(),
{
    if acts.len() == 0 {
        Seq::empty()
    } else {
        acts_events(block, acts.drop_last()) + acts.last().events(block)
    }
}

/// How often the operations claimed the task.
pub open spec fn acts_claiming(acts: Seq<PoolAct>, index: int) -> int
    decreases acts.len(),
{
    if acts.len() == 0 {
        0
    } else {
        acts_claiming(acts.drop_last(), index) + if acts.last().claims(index) {
            1int
        } else {
            0int
        }
    }
}

/// How often the operations completed the task.
pub open spec fn acts_completing(acts: Seq<PoolAct>, index: int) -> int
    decreases acts.len(),
{
    if acts.len() == 0 {
        0
    } else {
        acts_completing(acts.drop_last(), index) + if acts.last().completes(index) {
            1int
        } else {
            0int
        }
    }
}

/// How often the operations ran the task.
pub open spec fn acts_running(acts: Seq<PoolAct>, index: int) -> int
    decreases acts.len(),
{
    if acts.len() == 0 {
        0
    } else {
        acts_running(acts.drop_last(), index) + if acts.last().runs(index) {
            1int
        } else {
            0int
        }
    }
}

/// The task was completed at most as often as it was run, and run at most as often as it was
/// claimed.
pub open spec fn balanced(acts: Seq<PoolAct>, index: int) -> bool {
    acts_completing(acts, index) <= acts_running(acts, index) <= acts_claiming(acts, index)
}

/// A task that is run out of its slot at place `n` was claimed before, and is run with the callback
/// and the context that the claim found.
pub open spec fn runs_what_it_claimed(acts: Seq<PoolAct>, n: int) -> bool {
    acts[n] matches PoolAct::Run { slot, callback, context, .. } ==> slot matches Some(index)
        ==> exists|m: int|
        0 <= m < n && (#[trigger] acts[m]).claims_task(index as int, callback, context)
}

/// An executor at work: it runs what it claimed, and at every moment it has completed a task at
/// most as often as it has run it, and run it at most as often as it has claimed it.
pub open spec fn executor(acts: Seq<PoolAct>) -> bool {
    &&& forall|n: int| 0 <= n < acts.len() ==> (#[trigger] acts[n]).valid()
    &&& forall|n: int| 0 <= n < acts.len() ==> #[trigger] runs_what_it_claimed(acts, n)
    &&& forall|n: int, index: int|
        0 <= n <= acts.len() ==> #[trigger] balanced(acts.take(n), index)
}

/// The first operations of an executor are those of an executor.
proof fn executor_before(acts: Seq<PoolAct>)
    requires
        executor(acts),
        acts.len() > 0,
    ensures
        executor(acts.drop_last()),
        acts.last().valid(),
        forall|index: int| #[trigger] balanced(acts, index),
        forall|index: int| #[trigger] balanced(acts.drop_last(), index),
{
    let rest = acts.drop_last();
    assert(acts[acts.len() - 1].valid());
    assert forall|n: int| 0 <= n < rest.len() implies (#[trigger] rest[n]).valid() by {
        assert(acts[n].valid());
    }
    assert forall|n: int| 0 <= n < rest.len() implies #[trigger] runs_what_it_claimed(
        rest,
        n,
    ) by {
        assert(runs_what_it_claimed(acts, n));
        if let PoolAct::Run { slot: Some(index), callback, context, .. } = acts[n] {
            let m = choose|m: int|
                0 <= m < n && (#[trigger] acts[m]).claims_task(index as int, callback, context);
            assert(rest[m].claims_task(index as int, callback, context));
        }
    }
    assert forall|n: int, index: int| 0 <= n <= rest.len() implies #[trigger] balanced(
        rest.take(n),
        index,
    ) by {
        assert(rest.take(n) =~= acts.take(n));
        assert(balanced(acts.take(n), index));
    }
    assert(acts.take(acts.len() as int) =~= acts);
    assert(rest.take(rest.len() as int) =~= rest);
    assert forall|index: int| #[trigger] balanced(acts, index) by {
        assert(balanced(acts.take(acts.len() as int), index));
    }
    assert forall|index: int| #[trigger] balanced(rest, index) by {
        assert(balanced(rest.take(rest.len() as int), index));
    }
}

/// The accesses of one thread, out of those of all threads.
pub open spec fn of_thread(history: Seq<(int, Event)>, thread: int) -> Seq<Event>
    decreases history.len(),
{
    if history.len() == 0 {
        Seq::empty()
    } else {
        let before = of_thread(history.drop_last(), thread);
        if history.last().0 == thread {
            before.push(history.last().1)
        } else {
            before
        }
    }
}

/// The accesses of all threads, in the order in which they took effect.
pub open spec fn of_all(history: Seq<(int, Event)>) -> Seq<Event> {
    Seq::new(history.len(), |i: int| history[i].1)
}

/// The sequence starts with `part`.
pub open spec fn begins_with(whole: Seq<Event>, part: Seq<Event>) -> bool {
    part.len() <= whole.len() && part == whole.take(part.len() as int)
}

/// The history is that of as many threads as there are lists of operations, each of which has come
/// some way through its list.
pub open spec fn interleaves(
    history: Seq<(int, Event)>,
    block: PoolBlock,
    acts: Seq<Seq<PoolAct>>,
) -> bool {
    &&& forall|k: int| 0 <= k < history.len() ==> 0 <= (#[trigger] history[k]).0 < acts.len()
    &&& forall|w: int|
        0 <= w < acts.len() ==> executor(#[trigger] acts[w]) && begins_with(
            acts_events(block, acts[w]),
            of_thread(history, w),
        )
}

/// The pool was reset: nothing is drawn and every slot is free.
pub open spec fn clean(mem: Seq<u32>, block: PoolBlock) -> bool {
    &&& block.at + POOL_WORDS <= mem.len()
    &&& mem[block.at as int] == 0
    &&& forall|i: int| 0 <= i < MAX_TASKS ==> mem[#[trigger] block.status_at(i)] == FREE
}

/// The accesses that complete the task with its status at `at`.
pub open spec fn completion_kind(at: int) -> spec_fn(Event) -> bool {
    |e: Event| e matches Event::Store { at: a, value, .. } && a == at && value == COMPLETE
}

/// The accesses that draw the slot `index` from the word at `at`.
pub open spec fn draw_kind(at: int, index: int) -> spec_fn(Event) -> bool {
    |e: Event| e matches Event::Add { at: a, seen, .. } && a == at && seen == index
}

/// The runs of the task out of its slot.
pub open spec fn run_kind(index: int) -> spec_fn(Event) -> bool {
    |e: Event| e matches Event::Ran { slot, .. } && slot matches Some(i) && i == index
}

/// How many times the task was run out of its slot.
pub open spec fn runs(history: Seq<Event>, index: int) -> int {
    crate::shared_pool::counted(history, run_kind(index))
}

/// How many accesses completed the task.
pub open spec fn completions(history: Seq<Event>, at: int) -> int {
    crate::shared_pool::counted(history, completion_kind(at))
}

/// How many accesses drew the slot.
pub open spec fn draws(history: Seq<Event>, at: int, index: int) -> int {
    crate::shared_pool::counted(history, draw_kind(at, index))
}

/// Counting over two parts.
proof fn counted_two(a: Seq<Event>, b: Seq<Event>, kind: spec_fn(Event) -> bool)
    ensures
        crate::shared_pool::counted(a + b, kind) == crate::shared_pool::counted(a, kind)
            + crate::shared_pool::counted(b, kind),
    decreases b.len(),
{
    if b.len() == 0 {
        assert(a + b =~= a);
    } else {
        assert((a + b).drop_last() =~= a + b.drop_last());
        counted_two(a, b.drop_last(), kind);
    }
}

/// A count is not negative, and zero where nothing is of the kind.
proof fn counted_bounds(a: Seq<Event>, kind: spec_fn(Event) -> bool)
    ensures
        crate::shared_pool::counted(a, kind) >= 0,
        (forall|i: int| 0 <= i < a.len() ==> !kind(#[trigger] a[i]))
            ==> crate::shared_pool::counted(a, kind) == 0,
    decreases a.len(),
{
    if a.len() > 0 {
        let rest = a.drop_last();
        counted_bounds(rest, kind);
        if forall|i: int| 0 <= i < a.len() ==> !kind(#[trigger] a[i]) {
            assert forall|i: int| 0 <= i < rest.len() implies !kind(#[trigger] rest[i]) by {
                assert(!kind(a[i]));
            }
            assert(!kind(a[a.len() - 1]));
        }
    }
}

/// Something of the kind counts.
proof fn counted_some(a: Seq<Event>, kind: spec_fn(Event) -> bool, k: int)
    requires
        0 <= k < a.len(),
        kind(a[k]),
    ensures
        crate::shared_pool::counted(a, kind) >= 1,
    decreases a.len(),
{
    counted_bounds(a.drop_last(), kind);
    if k < a.len() - 1 {
        counted_some(a.drop_last(), kind, k);
    }
}

/// Where no two accesses are of the kind, at most one is counted.
proof fn counted_once(a: Seq<Event>, kind: spec_fn(Event) -> bool)
    requires
        forall|i: int, j: int|
            0 <= i < j < a.len() ==> !(kind(#[trigger] a[i]) && kind(#[trigger] a[j])),
    ensures
        crate::shared_pool::counted(a, kind) <= 1,
    decreases a.len(),
{
    if a.len() > 0 {
        let rest = a.drop_last();
        assert forall|i: int, j: int| 0 <= i < j < rest.len() implies !(kind(#[trigger] rest[i])
            && kind(#[trigger] rest[j])) by {
            assert(!(kind(a[i]) && kind(a[j])));
        }
        if kind(a.last()) {
            assert forall|i: int| 0 <= i < rest.len() implies !kind(#[trigger] rest[i]) by {
                assert(!(kind(a[i]) && kind(a[a.len() - 1])));
            }
            counted_bounds(rest, kind);
        } else {
            counted_once(rest, kind);
        }
    }
}

/// The counts of the first `n` threads, added up.
spec fn thread_counts(history: Seq<(int, Event)>, n: int, kind: spec_fn(Event) -> bool) -> int
    decreases n,
{
    if n <= 0 {
        0
    } else {
        thread_counts(history, n - 1, kind) + crate::shared_pool::counted(
            of_thread(history, n - 1),
            kind,
        )
    }
}

/// One more access counts for its thread.
proof fn thread_counts_push(history: Seq<(int, Event)>, n: int, kind: spec_fn(Event) -> bool)
    requires
        history.len() > 0,
        0 <= history.last().0,
    ensures
        thread_counts(history, n, kind) == thread_counts(history.drop_last(), n, kind) + (if
        history.last().0 < n && kind(history.last().1) {
            1int
        } else {
            0int
        }),
    decreases n,
{
    if n > 0 {
        thread_counts_push(history, n - 1, kind);
        let now = of_thread(history, n - 1);
        if history.last().0 == n - 1 {
            assert(now.drop_last() =~= of_thread(history.drop_last(), n - 1));
        }
    }
}

/// The counts of all threads add up to that of the whole history.
proof fn thread_counts_add_up(history: Seq<(int, Event)>, n: int, kind: spec_fn(Event) -> bool)
    requires
        forall|k: int| 0 <= k < history.len() ==> 0 <= (#[trigger] history[k]).0 < n,
    ensures
        thread_counts(history, n, kind) == crate::shared_pool::counted(of_all(history), kind),
    decreases history.len(),
{
    if history.len() == 0 {
        thread_counts_of_none(history, n, kind);
    } else {
        let rest = history.drop_last();
        assert forall|k: int| 0 <= k < rest.len() implies 0 <= (#[trigger] rest[k]).0 < n by {
            assert(0 <= history[k].0 < n);
        }
        assert(0 <= history[history.len() - 1].0 < n);
        thread_counts_add_up(rest, n, kind);
        thread_counts_push(history, n, kind);
        assert(of_all(history).drop_last() =~= of_all(rest));
    }
}

/// Without accesses nothing is counted.
proof fn thread_counts_of_none(history: Seq<(int, Event)>, n: int, kind: spec_fn(Event) -> bool)
    requires
        history.len() == 0,
    ensures
        thread_counts(history, n, kind) == 0,
    decreases n,
{
    if n > 0 {
        thread_counts_of_none(history, n - 1, kind);
    }
}

/// What each thread does at most as often as something else, all threads together do at most as
/// often.
proof fn thread_counts_compare(
    history: Seq<(int, Event)>,
    n: int,
    kind: spec_fn(Event) -> bool,
    other: spec_fn(Event) -> bool,
)
    requires
        forall|w: int|
            0 <= w < n ==> crate::shared_pool::counted(#[trigger] of_thread(history, w), kind)
                <= crate::shared_pool::counted(of_thread(history, w), other),
    ensures
        thread_counts(history, n, kind) <= thread_counts(history, n, other),
    decreases n,
{
    if n > 0 {
        thread_counts_compare(history, n - 1, kind, other);
        assert(crate::shared_pool::counted(of_thread(history, n - 1), kind)
            <= crate::shared_pool::counted(of_thread(history, n - 1), other));
    }
}

/// What an operation may do to the words of the pool, seen from the slot `index`.
pub open spec fn step_access(e: Event, block: PoolBlock, index: int) -> bool {
    &&& crate::shared_pool::task_access(e, block.status_at(index))
    &&& !crate::shared_pool::is_reset(e, block.status_at(index))
    &&& crate::shared_pool::draw_access(e, block.at as int)
    &&& crate::shared::stays_within(e, block.at as int, POOL_WORDS as int)
}

/// A search only looks and claims.
pub open spec fn looks_or_claims(e: Event) -> bool {
    e is Load || e is Exchange
}

/// The glances of a search keep to the rules.
proof fn glance_accesses(
    block: PoolBlock,
    glances: Seq<crate::shared_pool::Glance>,
    index: int,
    k: int,
)
    requires
        glances.len() <= MAX_TASKS,
        0 <= index < MAX_TASKS,
        0 <= k < block.glance_events(glances).len(),
    ensures
        step_access(block.glance_events(glances)[k], block, index),
        looks_or_claims(block.glance_events(glances)[k]),
    decreases glances.len(),
{
    let rest = glances.drop_last();
    let before = block.glance_events(rest);
    if k < before.len() {
        glance_accesses(block, rest, index, k);
    } else {
        let last = glances.last().events(block.status_at(glances.len() - 1));
        assert(block.glance_events(glances)[k] == last[k - before.len()]);
    }
}

/// The accesses of an operation keep to the rules.
proof fn act_accesses(block: PoolBlock, act: PoolAct, index: int, k: int)
    requires
        act.valid(),
        0 <= index < MAX_TASKS,
        0 <= k < act.events(block).len(),
    ensures
        step_access(act.events(block)[k], block, index),
        act is Search ==> looks_or_claims(act.events(block)[k]),
{
    if let PoolAct::Search { scan, .. } = act {
        let middle = block.glance_events(scan.glances);
        if 1 <= k < 1 + middle.len() {
            glance_accesses(block, scan.glances, index, k - 1);
            assert(act.events(block)[k] == middle[k - 1]);
        }
    }
}

/// A search that claimed a task made the claim.
proof fn search_claims(block: PoolBlock, scan: Scan, claim: Claim)
    requires
        crate::shared_pool::scan_found(scan, Some(claim)),
    ensures
        crate::shared_pool::claims(
            block.scan_events(scan, Some(claim)),
            block.status_at(claim.index as int),
        ) >= 1,
{
    let events = block.scan_events(scan, Some(claim));
    let at = block.status_at(claim.index as int);
    let before = block.glance_events(scan.glances.drop_last());
    let k: int = 1 + before.len() as int + 1;
    let last = scan.glances.last().events(at);
    assert(last[1] == events[k]);
    counted_some(events, crate::shared_pool::claim_kind(at), k);
}

/// What an operation counts for, after its first `m` accesses.
proof fn act_counts(block: PoolBlock, act: PoolAct, index: int, m: int)
    requires
        act.valid(),
        0 <= index < MAX_TASKS,
        0 <= m <= act.events(block).len(),
    ensures
        ({
            let part = act.events(block).take(m);
            let at = block.status_at(index);
            &&& crate::shared_pool::enqueues(part, at) <= draws(part, block.at as int, index)
            &&& completions(part, at) <= (if act.completes(index) && m > 0 {
                1int
            } else {
                0int
            })
            &&& runs(part, index) == (if act.runs(index) && m > 0 {
                1int
            } else {
                0int
            })
            &&& act.claims(index) && m == act.events(block).len()
                ==> crate::shared_pool::claims(part, at) >= 1
            &&& crate::shared_pool::claims(part, at) >= 0
        }),
{
    let events = act.events(block);
    let part = events.take(m);
    let at = block.status_at(index);
    let enqueue = crate::shared_pool::enqueue_kind(at);
    let draw = draw_kind(block.at as int, index);
    let complete = completion_kind(at);
    counted_bounds(part, enqueue);
    counted_bounds(part, draw);
    counted_bounds(part, complete);
    counted_bounds(part, crate::shared_pool::claim_kind(at));
    counted_bounds(part, run_kind(index));
    assert(events.take(events.len() as int) =~= events);
    if act.runs(index) && m > 0 {
        counted_some(part, run_kind(index), 0);
        counted_once(part, run_kind(index));
    } else {
        assert forall|i: int| 0 <= i < part.len() implies !run_kind(index)(#[trigger] part[i]) by {
            act_accesses(block, act, index, i);
            assert(part[i] == events[i]);
        }
    }
    match act {
        PoolAct::Enqueue { drawn, .. } => {
            assert forall|i: int| 0 <= i < part.len() implies !complete(#[trigger] part[i]) by {
                assert(part[i] == events[i]);
            }
            if drawn == index && m >= 4 {
                counted_some(part, draw, 0);
                assert forall|i: int, j: int| 0 <= i < j < part.len() implies !(enqueue(
                    #[trigger] part[i],
                ) && enqueue(#[trigger] part[j])) by {
                    assert(part[i] == events[i] && part[j] == events[j]);
                }
                counted_once(part, enqueue);
            } else {
                assert forall|i: int| 0 <= i < part.len() implies !enqueue(#[trigger] part[i]) by {
                    assert(part[i] == events[i]);
                }
            }
        },
        PoolAct::Search { scan, claim } => {
            assert forall|i: int| 0 <= i < part.len() implies !enqueue(#[trigger] part[i])
                && !complete(part[i]) by {
                act_accesses(block, act, index, i);
                assert(part[i] == events[i]);
            }
            if act.claims(index) && m == events.len() {
                search_claims(block, scan, claim->0);
            }
        },
        PoolAct::Complete { .. } => {
            assert forall|i: int| 0 <= i < part.len() implies !enqueue(#[trigger] part[i]) by {
                assert(part[i] == events[i]);
            }
            if !act.completes(index) {
                assert forall|i: int| 0 <= i < part.len() implies !complete(#[trigger] part[i]) by {
                    assert(part[i] == events[i]);
                }
            } else {
                counted_once(part, complete);
            }
        },
        _ => {
            assert forall|i: int| 0 <= i < part.len() implies !enqueue(#[trigger] part[i])
                && !complete(part[i]) by {
                assert(part[i] == events[i]);
            }
        },
    }
}

/// What all the operations of a list count for.
proof fn acts_counts(block: PoolBlock, acts: Seq<PoolAct>, index: int)
    requires
        forall|n: int| 0 <= n < acts.len() ==> (#[trigger] acts[n]).valid(),
        0 <= index < MAX_TASKS,
    ensures
        ({
            let events = acts_events(block, acts);
            let at = block.status_at(index);
            &&& crate::shared_pool::enqueues(events, at) <= draws(events, block.at as int, index)
            &&& completions(events, at) <= acts_completing(acts, index)
            &&& runs(events, index) == acts_running(acts, index)
            &&& crate::shared_pool::claims(events, at) >= acts_claiming(acts, index)
        }),
    decreases acts.len(),
{
    if acts.len() > 0 {
        let rest = acts.drop_last();
        let last = acts.last();
        let at = block.status_at(index);
        assert forall|n: int| 0 <= n < rest.len() implies (#[trigger] rest[n]).valid() by {
            assert(acts[n].valid());
        }
        assert(acts[acts.len() - 1].valid());
        acts_counts(block, rest, index);
        let m = last.events(block).len() as int;
        act_counts(block, last, index, m);
        assert(last.events(block).take(m) =~= last.events(block));
        two_parts(acts_events(block, rest), last.events(block), block.at as int, at, index);
    }
}

/// The counts that matter, over two parts.
proof fn two_parts(a: Seq<Event>, b: Seq<Event>, next_at: int, at: int, index: int)
    ensures
        crate::shared_pool::enqueues(a + b, at) == crate::shared_pool::enqueues(a, at)
            + crate::shared_pool::enqueues(b, at),
        crate::shared_pool::claims(a + b, at) == crate::shared_pool::claims(a, at)
            + crate::shared_pool::claims(b, at),
        completions(a + b, at) == completions(a, at) + completions(b, at),
        runs(a + b, index) == runs(a, index) + runs(b, index),
        draws(a + b, next_at, index) == draws(a, next_at, index) + draws(b, next_at, index),
{
    counted_two(a, b, crate::shared_pool::enqueue_kind(at));
    counted_two(a, b, crate::shared_pool::claim_kind(at));
    counted_two(a, b, completion_kind(at));
    counted_two(a, b, run_kind(index));
    counted_two(a, b, draw_kind(next_at, index));
}

/// A thread that has come some way through its operations has made a task pending at most as often
/// as it has drawn its slot, completed it at most as often as it has run it, and run it at most as
/// often as it has claimed it.
proof fn thread_keeps_order(block: PoolBlock, acts: Seq<PoolAct>, part: Seq<Event>, index: int)
    requires
        executor(acts),
        begins_with(acts_events(block, acts), part),
        0 <= index < MAX_TASKS,
    ensures
        ({
            let at = block.status_at(index);
            &&& crate::shared_pool::enqueues(part, at) <= draws(part, block.at as int, index)
            &&& completions(part, at) <= runs(part, index)
            &&& runs(part, index) <= crate::shared_pool::claims(part, at)
        }),
    decreases acts.len(),
{
    if acts.len() > 0 {
        let rest = acts.drop_last();
        let last = acts.last();
        let at = block.status_at(index);
        let before = acts_events(block, rest);
        executor_before(acts);
        if part.len() <= before.len() {
            assert(part =~= before.take(part.len() as int));
            thread_keeps_order(block, rest, part, index);
        } else {
            let m = part.len() - before.len();
            let tail = last.events(block).take(m);
            assert(part =~= before + tail);
            acts_counts(block, rest, index);
            act_counts(block, last, index, m);
            two_parts(before, tail, block.at as int, at, index);
            assert(balanced(rest, index));
            assert(balanced(acts, index));
        }
    } else {
        assert(part =~= Seq::empty());
    }
}

/// The accesses of a thread on its way through its operations keep to the rules.
proof fn thread_accesses(block: PoolBlock, acts: Seq<PoolAct>, index: int, k: int)
    requires
        forall|n: int| 0 <= n < acts.len() ==> (#[trigger] acts[n]).valid(),
        0 <= index < MAX_TASKS,
        0 <= k < acts_events(block, acts).len(),
    ensures
        step_access(acts_events(block, acts)[k], block, index),
    decreases acts.len(),
{
    let rest = acts.drop_last();
    let before = acts_events(block, rest);
    assert forall|n: int| 0 <= n < rest.len() implies (#[trigger] rest[n]).valid() by {
        assert(acts[n].valid());
    }
    assert(acts[acts.len() - 1].valid());
    if k < before.len() {
        thread_accesses(block, rest, index, k);
    } else {
        act_accesses(block, acts.last(), index, k - before.len());
    }
}

/// Where an access stands among those of its thread.
proof fn place_in_thread(history: Seq<(int, Event)>, k: int) -> (p: int)
    requires
        0 <= k < history.len(),
    ensures
        0 <= p < of_thread(history, history[k].0).len(),
        of_thread(history, history[k].0)[p] == history[k].1,
    decreases history.len(),
{
    if k == history.len() - 1 {
        of_thread(history, history[k].0).len() - 1
    } else {
        assert(history.drop_last()[k] == history[k]);
        place_in_thread(history.drop_last(), k)
    }
}

/// Every access keeps to the rules, whichever thread made it.
proof fn all_accesses(
    history: Seq<(int, Event)>,
    block: PoolBlock,
    acts: Seq<Seq<PoolAct>>,
    index: int,
    k: int,
)
    requires
        interleaves(history, block, acts),
        0 <= index < MAX_TASKS,
        0 <= k < history.len(),
    ensures
        step_access(of_all(history)[k], block, index),
{
    let w = history[k].0;
    let p = place_in_thread(history, k);
    assert(executor(acts[w]));
    thread_accesses(block, acts[w], index, p);
}

/// Before its last access, the threads had come some way too.
proof fn interleaves_before(
    history: Seq<(int, Event)>,
    block: PoolBlock,
    acts: Seq<Seq<PoolAct>>,
)
    requires
        interleaves(history, block, acts),
        history.len() > 0,
    ensures
        interleaves(history.drop_last(), block, acts),
        of_all(history).drop_last() == of_all(history.drop_last()),
{
    let rest = history.drop_last();
    assert forall|k: int| 0 <= k < rest.len() implies 0 <= (#[trigger] rest[k]).0
        < acts.len() by {
        assert(0 <= history[k].0 < acts.len());
    }
    assert forall|w: int| 0 <= w < acts.len() implies executor(#[trigger] acts[w])
        && begins_with(acts_events(block, acts[w]), of_thread(rest, w)) by {
        let whole = acts_events(block, acts[w]);
        let now = of_thread(history, w);
        assert(begins_with(whole, now));
        let before = of_thread(rest, w);
        if history.last().0 == w {
            assert(before =~= now.drop_last());
            assert(before =~= whole.take(before.len() as int));
        }
    }
    assert(of_all(history).drop_last() =~= of_all(rest));
}

/// All threads together make a task pending at most as often as they draw its slot, complete it at
/// most as often as they run it, and run it at most as often as they claim it.
proof fn threads_keep_order(
    history: Seq<(int, Event)>,
    block: PoolBlock,
    acts: Seq<Seq<PoolAct>>,
    index: int,
)
    requires
        interleaves(history, block, acts),
        0 <= index < MAX_TASKS,
    ensures
        ({
            let all = of_all(history);
            let at = block.status_at(index);
            &&& crate::shared_pool::enqueues(all, at) <= draws(all, block.at as int, index)
            &&& completions(all, at) <= runs(all, index)
            &&& runs(all, index) <= crate::shared_pool::claims(all, at)
        }),
{
    let n = acts.len() as int;
    let at = block.status_at(index);
    let enqueue = crate::shared_pool::enqueue_kind(at);
    let claim = crate::shared_pool::claim_kind(at);
    let draw = draw_kind(block.at as int, index);
    let complete = completion_kind(at);
    let run = run_kind(index);
    assert forall|w: int| 0 <= w < n implies crate::shared_pool::counted(
        #[trigger] of_thread(history, w),
        enqueue,
    ) <= crate::shared_pool::counted(of_thread(history, w), draw) && crate::shared_pool::counted(
        of_thread(history, w),
        complete,
    ) <= crate::shared_pool::counted(of_thread(history, w), run) && crate::shared_pool::counted(
        of_thread(history, w),
        run,
    ) <= crate::shared_pool::counted(of_thread(history, w), claim) by {
        assert(executor(acts[w]));
        thread_keeps_order(block, acts[w], of_thread(history, w), index);
    }
    thread_counts_compare(history, n, enqueue, draw);
    thread_counts_compare(history, n, complete, run);
    thread_counts_compare(history, n, run, claim);
    thread_counts_add_up(history, n, run);
    thread_counts_add_up(history, n, enqueue);
    thread_counts_add_up(history, n, draw);
    thread_counts_add_up(history, n, complete);
    thread_counts_add_up(history, n, claim);
}

/// No slot is drawn twice.
proof fn drawn_at_most_once(
    mem: Seq<u32>,
    history: Seq<(int, Event)>,
    block: PoolBlock,
    acts: Seq<Seq<PoolAct>>,
    index: int,
)
    requires
        clean(mem, block),
        interleaves(history, block, acts),
        crate::shared::undisturbed(mem, of_all(history)),
        crate::shared_pool::additions(of_all(history), block.at as int) <= u32::MAX,
        0 <= index < MAX_TASKS,
    ensures
        draws(of_all(history), block.at as int, index) <= 1,
{
    let all = of_all(history);
    let draw = draw_kind(block.at as int, index);
    assert forall|k: int| 0 <= k < all.len() implies crate::shared_pool::draw_access(
        #[trigger] all[k],
        block.at as int,
    ) && crate::shared::stays_within(all[k], 0, mem.len() as int) by {
        all_accesses(history, block, acts, index, k);
    }
    assert forall|i: int, j: int| 0 <= i < j < all.len() implies !(draw(#[trigger] all[i]) && draw(
        #[trigger] all[j],
    )) by {
        if draw(all[i]) && draw(all[j]) {
            crate::shared_pool::slots_are_drawn_once(mem, all, block.at as int, i, j);
        }
    }
    counted_once(all, draw);
}

/// The status of a task that was made pending, claimed and completed so many times since the
/// reset.
pub open spec fn status_after(enqueues: int, claims: int, completions: int) -> u32 {
    if enqueues == 0 {
        FREE
    } else if claims == 0 {
        PENDING
    } else if completions == 0 {
        CLAIMED
    } else {
        COMPLETE
    }
}

/// Each task runs exactly once. From a pool that was reset, let any number of threads run their
/// operations, interleaved in any way, where each runs a task only after it claimed it and completes
/// it only after it ran it. Then a slot is used for at most one task; the writes to its status come
/// at their time; and the status says how far the task is: it was claimed exactly once when it is
/// claimed or complete, it was run exactly once when it is complete, and neither when it is still
/// pending. (The counter of slots is left room: a step draws fewer than `2^32`.)
pub proof fn each_task_runs_once(
    mem: Seq<u32>,
    history: Seq<(int, Event)>,
    block: PoolBlock,
    acts: Seq<Seq<PoolAct>>,
    index: int,
)
    requires
        clean(mem, block),
        interleaves(history, block, acts),
        crate::shared::undisturbed(mem, of_all(history)),
        crate::shared_pool::additions(of_all(history), block.at as int) <= u32::MAX,
        0 <= index < MAX_TASKS,
    ensures
        ({
            let all = of_all(history);
            let at = block.status_at(index);
            let enqueues = crate::shared_pool::enqueues(all, at);
            let claims = crate::shared_pool::claims(all, at);
            let now = crate::shared::run(mem, all);
            &&& now.len() == mem.len()
            &&& 0 <= completions(all, at) <= runs(all, index) <= claims <= enqueues <= 1
            &&& now[at] == status_after(enqueues, claims, completions(all, at))
            &&& crate::shared_pool::orderly(mem, all, at)
            &&& claims + crate::shared_pool::pending(now[at]) == enqueues
            &&& now[at] == PENDING ==> runs(all, index) == 0
            &&& now[at] == COMPLETE ==> runs(all, index) == 1
        }),
    decreases history.len(),
{
    let all = of_all(history);
    let at = block.status_at(index);
    if history.len() > 0 {
        let before = of_all(history.drop_last());
        let e = all.last();
        interleaves_before(history, block, acts);
        counted_bounds(before, crate::shared_pool::addition_kind(block.at as int));
        each_task_runs_once(mem, history.drop_last(), block, acts, index);
        threads_keep_order(history, block, acts, index);
        drawn_at_most_once(mem, history, block, acts, index);
        all_accesses(history, block, acts, index, history.len() - 1);
        assert(step_access(e, block, index));
    } else {
        assert(all =~= Seq::empty());
    }
}

/// A slot that no one drew is not in use.
proof fn slots_in_use_are_drawn(
    mem: Seq<u32>,
    history: Seq<(int, Event)>,
    block: PoolBlock,
    acts: Seq<Seq<PoolAct>>,
    index: int,
)
    requires
        clean(mem, block),
        interleaves(history, block, acts),
        crate::shared::undisturbed(mem, of_all(history)),
        crate::shared_pool::additions(of_all(history), block.at as int) <= u32::MAX,
        0 <= index < MAX_TASKS,
        crate::shared_pool::enqueues(of_all(history), block.status_at(index)) > 0,
    ensures
        crate::shared::run(mem, of_all(history))[block.at as int] > index,
{
    let all = of_all(history);
    let draw = draw_kind(block.at as int, index);
    threads_keep_order(history, block, acts, index);
    counted_bounds(all, draw);
    let k = choose|k: int| 0 <= k < all.len() && draw(#[trigger] all[k]);
    assert forall|i: int| 0 <= i < all.len() implies crate::shared_pool::draw_access(
        #[trigger] all[i],
        block.at as int,
    ) && crate::shared::stays_within(all[i], 0, mem.len() as int) by {
        all_accesses(history, block, acts, index, i);
    }
    crate::shared_pool::draws_are_counted(mem, all, block.at as int);
    crate::shared_pool::draw_sees_its_number(mem, all, block.at as int, k);
    crate::shared_pool::added_up_to(all, block.at as int, k + 1, all.len() as int);
    assert(all.take(all.len() as int) =~= all);
    assert(all.take(k + 1).drop_last() =~= all.take(k));
    assert(all.take(k + 1).last() == all[k]);
}

/// After a step, a reset that nothing interferes with makes the pool ready for the next one.
pub proof fn reset_starts_over(
    mem: Seq<u32>,
    history: Seq<(int, Event)>,
    block: PoolBlock,
    acts: Seq<Seq<PoolAct>>,
    used: u32,
)
    requires
        clean(mem, block),
        interleaves(history, block, acts),
        crate::shared::undisturbed(mem, of_all(history)),
        crate::shared_pool::additions(of_all(history), block.at as int) <= u32::MAX,
        crate::shared::undisturbed(
            crate::shared::run(mem, of_all(history)),
            block.reset_events(used),
        ),
    ensures
        clean(
            crate::shared::run(
                crate::shared::run(mem, of_all(history)),
                block.reset_events(used),
            ),
            block,
        ),
{
    let now = crate::shared::run(mem, of_all(history));
    let swap = Event::Swap { at: block.at as int, order: Order::Relaxed, value: 0, seen: used };
    let n = crate::physics_tasks::used_slots(used);
    each_task_runs_once(mem, history, block, acts, 0);
    crate::shared::run_of_two_parts(now, seq![swap], block.free_events(n));
    crate::shared::run_of_one(now, swap);
    let base = now.update(block.at as int, 0);
    frees(base, block, n);
    let end = crate::shared::run(base, block.free_events(n));
    assert forall|i: int| 0 <= i < MAX_TASKS implies end[#[trigger] block.status_at(i)]
        == FREE by {
        if i >= n {
            each_task_runs_once(mem, history, block, acts, i);
            if crate::shared_pool::enqueues(of_all(history), block.status_at(i)) > 0 {
                slots_in_use_are_drawn(mem, history, block, acts, i);
            }
            assert(end[block.status_at(i)] == base[block.status_at(i)]);
        }
    }
}

/// What freeing the first `n` slots leaves.
proof fn frees(mem: Seq<u32>, block: PoolBlock, n: int)
    requires
        block.at + POOL_WORDS <= mem.len(),
        0 <= n <= MAX_TASKS,
    ensures
        ({
            let now = crate::shared::run(mem, block.free_events(n));
            &&& now.len() == mem.len()
            &&& now[block.at as int] == mem[block.at as int]
            &&& forall|i: int|
                0 <= i < MAX_TASKS ==> now[#[trigger] block.status_at(i)] == (if i < n {
                    FREE
                } else {
                    mem[block.status_at(i)]
                })
        }),
    decreases n,
{
    if n > 0 {
        frees(mem, block, n - 1);
        assert(block.free_events(n).drop_last() =~= block.free_events(n - 1));
    } else {
        assert(block.free_events(n) =~= Seq::empty());
    }
}

/// The accesses that store to the word at `at`.
pub open spec fn store_kind(at: int) -> spec_fn(Event) -> bool {
    |e: Event| e matches Event::Store { at: a, .. } && a == at
}

/// The accesses that store the value to the word at `at`.
pub open spec fn value_kind(at: int, value: u32) -> spec_fn(Event) -> bool {
    |e: Event| e matches Event::Store { at: a, value: v, .. } && a == at && v == value
}

/// The accesses that load the word at `at`.
pub open spec fn load_kind(at: int) -> spec_fn(Event) -> bool {
    |e: Event| e matches Event::Load { at: a, .. } && a == at
}

/// An operation, at each of its accesses, has stored the callback only after it drew the slot, the
/// context only after the callback, and made the task pending only after the context; and has
/// looked up the callback only after it claimed the task.
proof fn act_order(block: PoolBlock, act: PoolAct, index: int, m: int)
    requires
        act.valid(),
        0 <= index < MAX_TASKS,
        0 <= m <= act.events(block).len(),
    ensures
        ({
            let part = act.events(block).take(m);
            let at = block.status_at(index);
            &&& crate::shared_pool::counted(part, store_kind(at + 1)) <= draws(
                part,
                block.at as int,
                index,
            )
            &&& crate::shared_pool::counted(part, store_kind(at + 2))
                <= crate::shared_pool::counted(part, store_kind(at + 1))
            &&& crate::shared_pool::enqueues(part, at) <= crate::shared_pool::counted(
                part,
                store_kind(at + 2),
            )
            &&& crate::shared_pool::counted(part, load_kind(at + 1)) <= crate::shared_pool::claims(
                part,
                at,
            )
            &&& crate::shared_pool::counted(part, load_kind(at + 2)) <= crate::shared_pool::claims(
                part,
                at,
            )
        }),
{
    let events = act.events(block);
    let part = events.take(m);
    let at = block.status_at(index);
    let enqueue = crate::shared_pool::enqueue_kind(at);
    let draw = draw_kind(block.at as int, index);
    let claim = crate::shared_pool::claim_kind(at);
    counted_bounds(part, enqueue);
    counted_bounds(part, draw);
    counted_bounds(part, claim);
    counted_bounds(part, store_kind(at + 1));
    counted_bounds(part, store_kind(at + 2));
    counted_bounds(part, load_kind(at + 1));
    counted_bounds(part, load_kind(at + 2));
    match act {
        PoolAct::Enqueue { drawn, .. } => {
            assert forall|i: int| 0 <= i < part.len() implies !load_kind(at + 1)(#[trigger] part[i])
                && !load_kind(at + 2)(part[i]) by {
                assert(part[i] == events[i]);
            }
            if drawn == index {
                if m >= 2 {
                    counted_some(part, draw, 0);
                    assert forall|i: int, j: int| 0 <= i < j < part.len() implies !(store_kind(
                        at + 1,
                    )(#[trigger] part[i]) && store_kind(at + 1)(#[trigger] part[j])) by {
                        assert(part[i] == events[i] && part[j] == events[j]);
                    }
                    counted_once(part, store_kind(at + 1));
                } else {
                    assert forall|i: int| 0 <= i < part.len() implies !store_kind(at + 1)(
                        #[trigger] part[i],
                    ) by {
                        assert(part[i] == events[i]);
                    }
                }
                if m >= 3 {
                    counted_some(part, store_kind(at + 1), 1);
                    assert forall|i: int, j: int| 0 <= i < j < part.len() implies !(store_kind(
                        at + 2,
                    )(#[trigger] part[i]) && store_kind(at + 2)(#[trigger] part[j])) by {
                        assert(part[i] == events[i] && part[j] == events[j]);
                    }
                    counted_once(part, store_kind(at + 2));
                } else {
                    assert forall|i: int| 0 <= i < part.len() implies !store_kind(at + 2)(
                        #[trigger] part[i],
                    ) by {
                        assert(part[i] == events[i]);
                    }
                }
                if m >= 4 {
                    counted_some(part, store_kind(at + 2), 2);
                    assert forall|i: int, j: int| 0 <= i < j < part.len() implies !(enqueue(
                        #[trigger] part[i],
                    ) && enqueue(#[trigger] part[j])) by {
                        assert(part[i] == events[i] && part[j] == events[j]);
                    }
                    counted_once(part, enqueue);
                } else {
                    assert forall|i: int| 0 <= i < part.len() implies !enqueue(
                        #[trigger] part[i],
                    ) by {
                        assert(part[i] == events[i]);
                    }
                }
            } else {
                assert forall|i: int| 0 <= i < part.len() implies !enqueue(#[trigger] part[i])
                    && !store_kind(at + 1)(part[i]) && !store_kind(at + 2)(part[i]) by {
                    assert(part[i] == events[i]);
                }
            }
        },
        PoolAct::Search { scan, claim: found } => {
            search_order(block, scan, found, index, m);
        },
        _ => {
            assert forall|i: int| 0 <= i < part.len() implies !enqueue(#[trigger] part[i])
                && !store_kind(at + 1)(part[i]) && !store_kind(at + 2)(part[i]) && !load_kind(
                at + 1,
            )(part[i]) && !load_kind(at + 2)(part[i]) by {
                assert(part[i] == events[i]);
            }
        },
    }
}

/// The glances of a search look at no callback and no context.
proof fn glances_look_at_statuses(
    block: PoolBlock,
    glances: Seq<crate::shared_pool::Glance>,
    index: int,
    k: int,
)
    requires
        0 <= k < block.glance_events(glances).len(),
    ensures
        !load_kind(block.status_at(index) + 1)(block.glance_events(glances)[k]),
        !load_kind(block.status_at(index) + 2)(block.glance_events(glances)[k]),
    decreases glances.len(),
{
    let rest = glances.drop_last();
    let before = block.glance_events(rest);
    if k < before.len() {
        glances_look_at_statuses(block, rest, index, k);
    } else {
        let last = glances.last().events(block.status_at(glances.len() - 1));
        assert(block.glance_events(glances)[k] == last[k - before.len()]);
    }
}

/// The statement of [`act_order`] for a search.
proof fn search_order(block: PoolBlock, scan: Scan, found: Option<Claim>, index: int, m: int)
    requires
        crate::shared_pool::scan_found(scan, found),
        0 <= index < MAX_TASKS,
        0 <= m <= block.scan_events(scan, found).len(),
    ensures
        ({
            let part = block.scan_events(scan, found).take(m);
            let at = block.status_at(index);
            &&& crate::shared_pool::enqueues(part, at) == 0
            &&& crate::shared_pool::counted(part, store_kind(at + 1)) == 0
            &&& crate::shared_pool::counted(part, store_kind(at + 2)) == 0
            &&& crate::shared_pool::counted(part, load_kind(at + 1)) <= crate::shared_pool::claims(
                part,
                at,
            )
            &&& crate::shared_pool::counted(part, load_kind(at + 2)) <= crate::shared_pool::claims(
                part,
                at,
            )
        }),
{
    let act = PoolAct::Search { scan, claim: found };
    let events = block.scan_events(scan, found);
    let part = events.take(m);
    let at = block.status_at(index);
    let middle = block.glance_events(scan.glances);
    let enqueue = crate::shared_pool::enqueue_kind(at);
    let claim = crate::shared_pool::claim_kind(at);
    let one = load_kind(at + 1);
    let two = load_kind(at + 2);
    counted_bounds(part, enqueue);
    counted_bounds(part, store_kind(at + 1));
    counted_bounds(part, store_kind(at + 2));
    counted_bounds(part, claim);
    counted_bounds(part, one);
    counted_bounds(part, two);
    assert forall|i: int| 0 <= i < part.len() implies !enqueue(#[trigger] part[i]) && !store_kind(
        at + 1,
    )(part[i]) && !store_kind(at + 2)(part[i]) by {
        act_accesses(block, act, index, i);
        assert(part[i] == events[i]);
    }
    let end = 1 + middle.len() as int;
    assert forall|i: int| 0 <= i < part.len() && i < end implies !one(#[trigger] part[i]) && !two(
        part[i],
    ) by {
        assert(part[i] == events[i]);
        if i > 0 {
            glances_look_at_statuses(block, scan.glances, index, i - 1);
            assert(events[i] == middle[i - 1]);
        }
    }
    if m > end && act.claims(index) {
        let c = found->0;
        let before = block.glance_events(scan.glances.drop_last());
        let k: int = 1 + before.len() as int + 1;
        let last = scan.glances.last().events(at);
        assert(last[1] == events[k]);
        assert(part[k] == events[k]);
        counted_some(part, claim, k);
        assert(events[end] == crate::blocks::look(at + 1, c.callback));
        if m > end + 1 {
            assert(events[end + 1] == crate::blocks::look(at + 2, c.context));
        }
        assert forall|i: int, j: int| 0 <= i < j < part.len() implies !(one(#[trigger] part[i])
            && one(#[trigger] part[j])) && !(two(part[i]) && two(part[j])) by {
            assert(part[i] == events[i] && part[j] == events[j]);
        }
        counted_once(part, one);
        counted_once(part, two);
    } else {
        assert forall|i: int| 0 <= i < part.len() implies !one(#[trigger] part[i]) && !two(
            part[i],
        ) by {
            assert(part[i] == events[i]);
            if i >= end {
                let c = found->0;
                let other = block.status_at(c.index as int);
                if i == end {
                    assert(events[end] == crate::blocks::look(other + 1, c.callback));
                } else {
                    assert(events[end + 1] == crate::blocks::look(other + 2, c.context));
                }
            }
        }
    }
}

/// What every operation has done at most as often as something else, at each of its accesses, a
/// thread on its way through its operations has.
proof fn part_compares(
    block: PoolBlock,
    acts: Seq<PoolAct>,
    part: Seq<Event>,
    kind: spec_fn(Event) -> bool,
    other: spec_fn(Event) -> bool,
)
    requires
        begins_with(acts_events(block, acts), part),
        forall|n: int, m: int|
            0 <= n < acts.len() && 0 <= m <= acts[n].events(block).len()
                ==> crate::shared_pool::counted(#[trigger] acts[n].events(block).take(m), kind)
                <= crate::shared_pool::counted(acts[n].events(block).take(m), other),
    ensures
        crate::shared_pool::counted(part, kind) <= crate::shared_pool::counted(part, other),
    decreases acts.len(),
{
    if acts.len() == 0 {
        assert(part =~= Seq::empty());
    } else {
        let rest = acts.drop_last();
        let last = acts[acts.len() - 1];
        let before = acts_events(block, rest);
        assert forall|n: int, m: int|
            0 <= n < rest.len() && 0 <= m <= rest[n].events(block).len() implies
        crate::shared_pool::counted(#[trigger] rest[n].events(block).take(m), kind)
            <= crate::shared_pool::counted(rest[n].events(block).take(m), other) by {
            assert(rest[n] == acts[n]);
            assert(crate::shared_pool::counted(acts[n].events(block).take(m), kind)
                <= crate::shared_pool::counted(acts[n].events(block).take(m), other));
        }
        if part.len() <= before.len() {
            assert(part =~= before.take(part.len() as int));
            part_compares(block, rest, part, kind, other);
        } else {
            let m = part.len() - before.len();
            let tail = last.events(block).take(m);
            assert(part =~= before + tail);
            assert(before.take(before.len() as int) =~= before);
            part_compares(block, rest, before, kind, other);
            counted_two(before, tail, kind);
            counted_two(before, tail, other);
            assert(crate::shared_pool::counted(tail, kind) <= crate::shared_pool::counted(
                tail,
                other,
            ));
        }
    }
}

/// What every operation has done at most as often as something else, at each of its accesses, all
/// threads together have.
proof fn all_compare(
    history: Seq<(int, Event)>,
    block: PoolBlock,
    acts: Seq<Seq<PoolAct>>,
    kind: spec_fn(Event) -> bool,
    other: spec_fn(Event) -> bool,
)
    requires
        interleaves(history, block, acts),
        forall|act: PoolAct, m: int|
            act.valid() && 0 <= m <= act.events(block).len() ==> crate::shared_pool::counted(
                #[trigger] act.events(block).take(m),
                kind,
            ) <= crate::shared_pool::counted(act.events(block).take(m), other),
    ensures
        crate::shared_pool::counted(of_all(history), kind) <= crate::shared_pool::counted(
            of_all(history),
            other,
        ),
{
    let n = acts.len() as int;
    assert forall|w: int| 0 <= w < n implies crate::shared_pool::counted(
        #[trigger] of_thread(history, w),
        kind,
    ) <= crate::shared_pool::counted(of_thread(history, w), other) by {
        assert(executor(acts[w]));
        part_compares(block, acts[w], of_thread(history, w), kind, other);
    }
    thread_counts_compare(history, n, kind, other);
    thread_counts_add_up(history, n, kind);
    thread_counts_add_up(history, n, other);
}

/// The order of [`act_order`], for all threads together.
proof fn words_in_order(
    history: Seq<(int, Event)>,
    block: PoolBlock,
    acts: Seq<Seq<PoolAct>>,
    index: int,
)
    requires
        interleaves(history, block, acts),
        0 <= index < MAX_TASKS,
    ensures
        ({
            let all = of_all(history);
            let at = block.status_at(index);
            &&& crate::shared_pool::counted(all, store_kind(at + 1)) <= draws(
                all,
                block.at as int,
                index,
            )
            &&& crate::shared_pool::counted(all, store_kind(at + 2)) <= crate::shared_pool::counted(
                all,
                store_kind(at + 1),
            )
            &&& crate::shared_pool::enqueues(all, at) <= crate::shared_pool::counted(
                all,
                store_kind(at + 2),
            )
            &&& crate::shared_pool::counted(all, load_kind(at + 1)) <= crate::shared_pool::claims(
                all,
                at,
            )
            &&& crate::shared_pool::counted(all, load_kind(at + 2)) <= crate::shared_pool::claims(
                all,
                at,
            )
        }),
{
    let at = block.status_at(index);
    let draw = draw_kind(block.at as int, index);
    let claim = crate::shared_pool::claim_kind(at);
    let enqueue = crate::shared_pool::enqueue_kind(at);
    assert forall|act: PoolAct, m: int| act.valid() && 0 <= m <= act.events(block).len() implies ({
        let part = #[trigger] act.events(block).take(m);
        &&& crate::shared_pool::counted(part, store_kind(at + 1)) <= crate::shared_pool::counted(
            part,
            draw,
        )
        &&& crate::shared_pool::counted(part, store_kind(at + 2)) <= crate::shared_pool::counted(
            part,
            store_kind(at + 1),
        )
        &&& crate::shared_pool::counted(part, enqueue) <= crate::shared_pool::counted(
            part,
            store_kind(at + 2),
        )
        &&& crate::shared_pool::counted(part, load_kind(at + 1)) <= crate::shared_pool::counted(
            part,
            claim,
        )
        &&& crate::shared_pool::counted(part, load_kind(at + 2)) <= crate::shared_pool::counted(
            part,
            claim,
        )
    }) by {
        act_order(block, act, index, m);
    }
    all_compare(history, block, acts, store_kind(at + 1), draw);
    all_compare(history, block, acts, store_kind(at + 2), store_kind(at + 1));
    all_compare(history, block, acts, enqueue, store_kind(at + 2));
    all_compare(history, block, acts, load_kind(at + 1), claim);
    all_compare(history, block, acts, load_kind(at + 2), claim);
}

/// The word at `at` is only loaded and stored.
pub open spec fn plain_access(e: Event, at: int) -> bool {
    match e {
        Event::Load { .. } => true,
        Event::Store { .. } => true,
        Event::Fence { .. } => true,
        Event::Ran { .. } => true,
        Event::Add { at: a, .. } => a != at,
        Event::Or { at: a, .. } => a != at,
        Event::And { at: a, .. } => a != at,
        Event::Max { at: a, .. } => a != at,
        Event::Swap { at: a, .. } => a != at,
        Event::Exchange { at: a, .. } => a != at,
    }
}

/// A word that was stored to holds one of the stored values.
proof fn word_holds_a_stored_value(mem: Seq<u32>, history: Seq<Event>, at: int)
    requires
        0 <= at < mem.len(),
        forall|k: int|
            0 <= k < history.len() ==> plain_access(#[trigger] history[k], at)
                && crate::shared::stays_within(history[k], 0, mem.len() as int),
    ensures
        crate::shared::run(mem, history).len() == mem.len(),
        crate::shared_pool::counted(history, store_kind(at)) >= 1 ==> crate::shared_pool::counted(
            history,
            value_kind(at, crate::shared::run(mem, history)[at]),
        ) >= 1,
    decreases history.len(),
{
    if history.len() > 0 {
        let rest = history.drop_last();
        assert forall|k: int| 0 <= k < rest.len() implies plain_access(#[trigger] rest[k], at)
            && crate::shared::stays_within(rest[k], 0, mem.len() as int) by {
            assert(plain_access(history[k], at));
        }
        word_holds_a_stored_value(mem, rest, at);
        let e = history[history.len() - 1];
        assert(plain_access(e, at));
        let now = crate::shared::run(mem, history)[at];
        counted_bounds(rest, value_kind(at, now));
    }
}

/// Where a word was stored to once, only one value was stored.
proof fn one_value(history: Seq<Event>, at: int, a: u32, b: u32)
    requires
        a != b,
    ensures
        crate::shared_pool::counted(history, value_kind(at, a)) + crate::shared_pool::counted(
            history,
            value_kind(at, b),
        ) <= crate::shared_pool::counted(history, store_kind(at)),
    decreases history.len(),
{
    if history.len() > 0 {
        one_value(history.drop_last(), at, a, b);
    }
}

/// What one thread did counts for all.
proof fn thread_counts_part(
    history: Seq<(int, Event)>,
    n: int,
    kind: spec_fn(Event) -> bool,
    w: int,
)
    requires
        0 <= w < n,
    ensures
        crate::shared_pool::counted(of_thread(history, w), kind) <= thread_counts(
            history,
            n,
            kind,
        ),
        thread_counts(history, n, kind) >= 0,
    decreases n,
{
    counted_bounds(of_thread(history, n - 1), kind);
    if w < n - 1 {
        thread_counts_part(history, n - 1, kind, w);
    } else {
        thread_counts_not_negative(history, n - 1, kind);
    }
}

/// Counts add up to no less than zero.
proof fn thread_counts_not_negative(
    history: Seq<(int, Event)>,
    n: int,
    kind: spec_fn(Event) -> bool,
)
    ensures
        thread_counts(history, n, kind) >= 0,
    decreases n,
{
    if n > 0 {
        counted_bounds(of_thread(history, n - 1), kind);
        thread_counts_not_negative(history, n - 1, kind);
    }
}

/// The callback and the context of a task are only loaded and stored.
proof fn glance_plain(
    block: PoolBlock,
    glances: Seq<crate::shared_pool::Glance>,
    index: int,
    k: int,
)
    requires
        0 <= k < block.glance_events(glances).len(),
    ensures
        plain_access(block.glance_events(glances)[k], block.status_at(index) + 1),
        plain_access(block.glance_events(glances)[k], block.status_at(index) + 2),
    decreases glances.len(),
{
    let rest = glances.drop_last();
    let before = block.glance_events(rest);
    if k < before.len() {
        glance_plain(block, rest, index, k);
    } else {
        let last = glances.last().events(block.status_at(glances.len() - 1));
        assert(block.glance_events(glances)[k] == last[k - before.len()]);
    }
}

/// Every operation only loads and stores the callback and the context of a task.
proof fn act_plain(block: PoolBlock, act: PoolAct, index: int, k: int)
    requires
        act.valid(),
        0 <= index < MAX_TASKS,
        0 <= k < act.events(block).len(),
    ensures
        plain_access(act.events(block)[k], block.status_at(index) + 1),
        plain_access(act.events(block)[k], block.status_at(index) + 2),
{
    if let PoolAct::Search { scan, .. } = act {
        let middle = block.glance_events(scan.glances);
        if 1 <= k < 1 + middle.len() {
            glance_plain(block, scan.glances, index, k - 1);
            assert(act.events(block)[k] == middle[k - 1]);
        }
    }
}

/// Every access of a thread only loads and stores the callback and the context of a task; and a
/// store to the context comes right after one to the callback, both from the operation that
/// enqueues the task.
proof fn thread_words(block: PoolBlock, acts: Seq<PoolAct>, index: int, k: int) -> (n: int)
    requires
        forall|n: int| 0 <= n < acts.len() ==> (#[trigger] acts[n]).valid(),
        0 <= index < MAX_TASKS,
        0 <= k < acts_events(block, acts).len(),
    ensures
        ({
            let events = acts_events(block, acts);
            let at = block.status_at(index);
            &&& plain_access(events[k], at + 1)
            &&& plain_access(events[k], at + 2)
            &&& store_kind(at + 2)(events[k]) ==> {
                &&& 0 <= n < acts.len()
                &&& acts[n] is Enqueue
                &&& acts[n]->drawn == index
                &&& value_kind(at + 2, acts[n]->Enqueue_context)(events[k])
                &&& k >= 1
                &&& value_kind(at + 1, acts[n]->Enqueue_callback)(events[k - 1])
            }
        }),
    decreases acts.len(),
{
    let rest = acts.drop_last();
    let last = acts[acts.len() - 1];
    let before = acts_events(block, rest);
    let events = acts_events(block, acts);
    assert forall|n: int| 0 <= n < rest.len() implies (#[trigger] rest[n]).valid() by {
        assert(acts[n].valid());
    }
    if k < before.len() {
        let n = thread_words(block, rest, index, k);
        assert(store_kind(block.status_at(index) + 2)(events[k]) ==> rest[n] == acts[n]);
        n
    } else {
        let j = k - before.len();
        let own = last.events(block);
        assert(events[k] == own[j]);
        act_plain(block, last, index, j);
        if store_kind(block.status_at(index) + 2)(events[k]) {
            act_accesses(block, last, index, j);
            assert(last is Enqueue);
            assert(j == 2);
            assert(events[k - 1] == own[1]);
        }
        acts.len() - 1
    }
}

/// Every access of all threads only loads and stores the callback and the context of a task.
proof fn all_plain(
    history: Seq<(int, Event)>,
    block: PoolBlock,
    acts: Seq<Seq<PoolAct>>,
    index: int,
    k: int,
)
    requires
        interleaves(history, block, acts),
        0 <= index < MAX_TASKS,
        0 <= k < history.len(),
    ensures
        plain_access(of_all(history)[k], block.status_at(index) + 1),
        plain_access(of_all(history)[k], block.status_at(index) + 2),
{
    let w = history[k].0;
    let p = place_in_thread(history, k);
    assert(executor(acts[w]));
    let n = thread_words(block, acts[w], index, p);
}

/// The words are those of a task that one of the threads enqueues into the slot.
pub open spec fn words_of_a_task(
    mem: Seq<u32>,
    block: PoolBlock,
    acts: Seq<Seq<PoolAct>>,
    index: int,
) -> bool {
    exists|w: int, n: int|
        #![trigger acts[w][n]]
        0 <= w < acts.len() && 0 <= n < acts[w].len() && acts[w][n] is Enqueue && acts[w][n]->drawn
            == index && acts[w][n]->Enqueue_callback == mem[block.status_at(index) + 1]
            && acts[w][n]->Enqueue_context == mem[block.status_at(index) + 2]
}

/// The callback word holds the only value that was stored to it.
proof fn callback_is_kept(
    mem: Seq<u32>,
    history: Seq<(int, Event)>,
    block: PoolBlock,
    acts: Seq<Seq<PoolAct>>,
    index: int,
    value: u32,
)
    requires
        clean(mem, block),
        interleaves(history, block, acts),
        crate::shared::undisturbed(mem, of_all(history)),
        crate::shared_pool::additions(of_all(history), block.at as int) <= u32::MAX,
        0 <= index < MAX_TASKS,
        crate::shared_pool::counted(
            of_all(history),
            value_kind(block.status_at(index) + 1, value),
        ) >= 1,
    ensures
        crate::shared::run(mem, of_all(history))[block.status_at(index) + 1] == value,
{
    let all = of_all(history);
    let at = block.status_at(index) + 1;
    assert forall|k: int| 0 <= k < all.len() implies plain_access(#[trigger] all[k], at)
        && crate::shared::stays_within(all[k], 0, mem.len() as int) by {
        all_plain(history, block, acts, index, k);
        all_accesses(history, block, acts, index, k);
    }
    words_in_order(history, block, acts, index);
    drawn_at_most_once(mem, history, block, acts, index);
    let now = crate::shared::run(mem, all)[at];
    let unlike: u32 = if value == 0 { 1 } else { 0 };
    one_value(all, at, value, unlike);
    counted_bounds(all, value_kind(at, unlike));
    word_holds_a_stored_value(mem, all, at);
    if now != value {
        one_value(all, at, value, now);
    }
}

/// From the moment its context is stored, the words of a slot are those of the task that was
/// enqueued into it.
proof fn slot_holds_its_task(
    mem: Seq<u32>,
    history: Seq<(int, Event)>,
    block: PoolBlock,
    acts: Seq<Seq<PoolAct>>,
    index: int,
)
    requires
        clean(mem, block),
        interleaves(history, block, acts),
        crate::shared::undisturbed(mem, of_all(history)),
        crate::shared_pool::additions(of_all(history), block.at as int) <= u32::MAX,
        0 <= index < MAX_TASKS,
    ensures
        crate::shared_pool::counted(of_all(history), store_kind(block.status_at(index) + 2)) >= 1
            ==> words_of_a_task(
            crate::shared::run(mem, of_all(history)),
            block,
            acts,
            index,
        ),
    decreases history.len(),
{
    let all = of_all(history);
    let at = block.status_at(index);
    if history.len() > 0 {
        let rest = history.drop_last();
        let before = of_all(rest);
        let e = all.last();
        let w = history[history.len() - 1].0;
        interleaves_before(history, block, acts);
        counted_bounds(before, crate::shared_pool::addition_kind(block.at as int));
        counted_bounds(before, store_kind(at + 1));
        slot_holds_its_task(mem, rest, block, acts, index);
        words_in_order(history, block, acts, index);
        words_in_order(rest, block, acts, index);
        drawn_at_most_once(mem, history, block, acts, index);
        each_task_runs_once(mem, rest, block, acts, index);
        all_plain(history, block, acts, index, history.len() - 1);
        all_accesses(history, block, acts, index, history.len() - 1);
        let now = crate::shared::run(mem, all);
        let was = crate::shared::run(mem, before);
        assert(now == e.applied(was));
        if store_kind(at + 2)(e) {
            let own = of_thread(history, w);
            let p = own.len() - 1;
            assert(executor(acts[w]));
            let n = thread_words(block, acts[w], index, p);
            assert(acts_events(block, acts[w])[p] == own[p]);
            assert(own[p - 1] == acts_events(block, acts[w])[p - 1]);
            let callback = acts[w][n]->Enqueue_callback;
            counted_some(own, value_kind(at + 1, callback), p - 1);
            thread_counts_part(history, acts.len() as int, value_kind(at + 1, callback), w);
            thread_counts_add_up(history, acts.len() as int, value_kind(at + 1, callback));
            callback_is_kept(mem, history, block, acts, index, callback);
        } else if crate::shared_pool::counted(before, store_kind(at + 2)) >= 1 {
            assert(!store_kind(at + 1)(e));
            let (x, n) = choose|x: int, n: int|
                #![trigger acts[x][n]]
                0 <= x < acts.len() && 0 <= n < acts[x].len() && acts[x][n] is Enqueue
                    && acts[x][n]->drawn == index && acts[x][n]->Enqueue_callback == was[at + 1]
                    && acts[x][n]->Enqueue_context == was[at + 2];
            assert(acts[x][n]->Enqueue_callback == now[at + 1]);
        }
    } else {
        assert(all =~= Seq::empty());
    }
}

/// Where the accesses of one operation stand among those of its thread.
proof fn act_in_thread(block: PoolBlock, acts: Seq<PoolAct>, m: int, j: int)
    requires
        0 <= m < acts.len(),
        0 <= j < acts[m].events(block).len(),
    ensures
        ({
            let p = acts_events(block, acts.take(m)).len() + j;
            &&& p < acts_events(block, acts).len()
            &&& acts_events(block, acts)[p] == acts[m].events(block)[j]
            &&& acts_events(block, acts.take(m + 1)).len() == acts_events(
                block,
                acts.take(m),
            ).len() + acts[m].events(block).len()
        }),
    decreases acts.len(),
{
    let rest = acts.drop_last();
    assert(acts.take(m + 1).drop_last() =~= acts.take(m));
    if m == acts.len() - 1 {
        assert(acts.take(m) =~= rest);
        assert(acts.take(m + 1) =~= acts);
    } else {
        assert(rest.take(m) =~= acts.take(m));
        assert(rest.take(m + 1) =~= acts.take(m + 1));
        assert(rest[m] == acts[m]);
        act_in_thread(block, rest, m, j);
    }
}

/// Where an access of a thread stands among those of all.
proof fn place_in_all(history: Seq<(int, Event)>, thread: int, p: int) -> (k: int)
    requires
        0 <= p < of_thread(history, thread).len(),
    ensures
        0 <= k < history.len(),
        history[k] == (thread, of_thread(history, thread)[p]),
    decreases history.len(),
{
    let rest = history.drop_last();
    if p < of_thread(rest, thread).len() {
        place_in_all(rest, thread, p)
    } else {
        history.len() - 1
    }
}

/// What holds of a history holds of its first accesses, and what they counted still counts.
proof fn earlier(
    mem: Seq<u32>,
    history: Seq<(int, Event)>,
    block: PoolBlock,
    acts: Seq<Seq<PoolAct>>,
    n: int,
    kind: spec_fn(Event) -> bool,
)
    requires
        interleaves(history, block, acts),
        crate::shared::undisturbed(mem, of_all(history)),
        0 <= n <= history.len(),
    ensures
        interleaves(history.take(n), block, acts),
        crate::shared::undisturbed(mem, of_all(history.take(n))),
        crate::shared_pool::counted(of_all(history.take(n)), kind) <= crate::shared_pool::counted(
            of_all(history),
            kind,
        ),
    decreases history.len() - n,
{
    if n == history.len() {
        assert(history.take(n) =~= history);
    } else {
        let longer = history.take(n + 1);
        earlier(mem, history, block, acts, n + 1, kind);
        interleaves_before(longer, block, acts);
        assert(longer.drop_last() =~= history.take(n));
    }
}

/// A look at the callback or the context of a slot that ends a history: the slot then holds its
/// task, and the look sees a word of it.
proof fn look_sees_the_task(
    mem: Seq<u32>,
    history: Seq<(int, Event)>,
    block: PoolBlock,
    acts: Seq<Seq<PoolAct>>,
    index: int,
    k: int,
    word: int,
    seen: u32,
)
    requires
        clean(mem, block),
        interleaves(history, block, acts),
        crate::shared::undisturbed(mem, of_all(history)),
        crate::shared_pool::additions(of_all(history), block.at as int) <= u32::MAX,
        0 <= index < MAX_TASKS,
        0 <= k < history.len(),
        word == 1 || word == 2,
        history[k].1 == crate::blocks::look(block.status_at(index) + word, seen),
    ensures
        ({
            let at = block.status_at(index);
            let now = crate::shared::run(mem, of_all(history.take(k + 1)));
            &&& words_of_a_task(now, block, acts, index)
            &&& now[at + word] == seen
            &&& now[at + 1] == crate::shared::run(mem, of_all(history))[at + 1]
        }),
{
    let part = history.take(k + 1);
    let all = of_all(part);
    let at = block.status_at(index);
    earlier(
        mem,
        history,
        block,
        acts,
        k + 1,
        crate::shared_pool::addition_kind(block.at as int),
    );
    assert(all[k] == history[k].1);
    assert(all.last() == all[k]);
    counted_some(all, load_kind(at + word), k);
    words_in_order(part, block, acts, index);
    each_task_runs_once(mem, part, block, acts, index);
    slot_holds_its_task(mem, part, block, acts, index);
    let now = crate::shared::run(mem, all);
    assert forall|i: int| 0 <= i < all.len() implies plain_access(#[trigger] all[i], at + 1)
        && crate::shared::stays_within(all[i], 0, mem.len() as int) by {
        all_plain(part, block, acts, index, i);
        all_accesses(part, block, acts, index, i);
    }
    word_holds_a_stored_value(mem, all, at + 1);
    earlier(mem, history, block, acts, k + 1, value_kind(at + 1, now[at + 1]));
    callback_is_kept(mem, history, block, acts, index, now[at + 1]);
}

/// A task that was enqueued into the slot, with this callback and context.
pub open spec fn was_enqueued(
    acts: Seq<Seq<PoolAct>>,
    index: int,
    callback: u32,
    context: u32,
) -> bool {
    exists|w: int, n: int|
        #![trigger acts[w][n]]
        0 <= w < acts.len() && 0 <= n < acts[w].len() && acts[w][n] is Enqueue && acts[w][n]->drawn
            == index && acts[w][n]->Enqueue_callback == callback && acts[w][n]->Enqueue_context
            == context
}

/// A claim finds the task's own callback and context: whichever thread claims a task, what it reads
/// out of the slot are the callback and the context of one operation that enqueued a task into this
/// slot.
pub proof fn claimed_task_is_its_own(
    mem: Seq<u32>,
    history: Seq<(int, Event)>,
    block: PoolBlock,
    acts: Seq<Seq<PoolAct>>,
    thread: int,
    m: int,
    scan: Scan,
    claim: Claim,
)
    requires
        clean(mem, block),
        interleaves(history, block, acts),
        crate::shared::undisturbed(mem, of_all(history)),
        crate::shared_pool::additions(of_all(history), block.at as int) <= u32::MAX,
        0 <= thread < acts.len(),
        0 <= m < acts[thread].len(),
        acts[thread][m] == (PoolAct::Search { scan, claim: Some(claim) }),
        acts_events(block, acts[thread].take(m + 1)).len() <= of_thread(history, thread).len(),
    ensures
        was_enqueued(acts, claim.index as int, claim.callback, claim.context),
{
    let list = acts[thread];
    let own = of_thread(history, thread);
    let index = claim.index as int;
    let at = block.status_at(index);
    assert(executor(list));
    assert(list[m].valid());
    let events = list[m].events(block);
    let start = acts_events(block, list.take(m)).len() as int;
    let end = events.len() as int;
    assert(events[end - 2] == crate::blocks::look(at + 1, claim.callback));
    assert(events[end - 1] == crate::blocks::look(at + 2, claim.context));
    act_in_thread(block, list, m, end - 2);
    act_in_thread(block, list, m, end - 1);
    assert(own[start + end - 2] == events[end - 2]);
    assert(own[start + end - 1] == events[end - 1]);
    let k1 = place_in_all(history, thread, start + end - 2);
    let k2 = place_in_all(history, thread, start + end - 1);
    look_sees_the_task(mem, history, block, acts, index, k1, 1, claim.callback);
    look_sees_the_task(mem, history, block, acts, index, k2, 2, claim.context);
}

/// A pool that was just made is clean.
pub proof fn fresh_pool_is_clean(
    mem: Seq<u32>,
    block: PoolBlock,
    pool: crate::physics_tasks::TaskPool,
)
    requires
        crate::shared_pool::holds_pool(mem, block, pool),
        pool.fresh(),
    ensures
        clean(mem, block),
{
    assert forall|i: int| 0 <= i < MAX_TASKS implies mem[#[trigger] block.status_at(i)]
        == FREE by {
        assert(crate::shared_pool::holds_task(mem, block.status_at(i), pool.tasks@[i]));
    }
}

/// A task that is run stands in the list of its thread, and so does the claim before it.
proof fn run_in_thread(block: PoolBlock, acts: Seq<PoolAct>, p: int) -> (n: int)
    requires
        0 <= p < acts_events(block, acts).len(),
        acts_events(block, acts)[p] is Ran,
        forall|n: int| 0 <= n < acts.len() ==> (#[trigger] acts[n]).valid(),
    ensures
        0 <= n < acts.len(),
        acts[n] is Run,
        acts[n].events(block)[0] == acts_events(block, acts)[p],
        acts_events(block, acts.take(n)).len() == p,
    decreases acts.len(),
{
    let rest = acts.drop_last();
    let before = acts_events(block, rest);
    let last = acts[acts.len() - 1];
    assert forall|n: int| 0 <= n < rest.len() implies (#[trigger] rest[n]).valid() by {
        assert(acts[n].valid());
    }
    if p < before.len() {
        let n = run_in_thread(block, rest, p);
        assert(rest.take(n) =~= acts.take(n));
        assert(rest[n] == acts[n]);
        n
    } else {
        assert(acts_events(block, acts)[p] == last.events(block)[p - before.len()]);
        act_accesses(block, last, 0, p - before.len());
        assert(acts.take(acts.len() - 1) =~= rest);
        acts.len() - 1
    }
}

/// More operations make no fewer accesses.
proof fn longer_list(block: PoolBlock, acts: Seq<PoolAct>, m: int, n: int)
    requires
        0 <= m <= n <= acts.len(),
    ensures
        acts_events(block, acts.take(m)).len() <= acts_events(block, acts.take(n)).len(),
    decreases n,
{
    if m < n {
        longer_list(block, acts, m, n - 1);
        assert(acts.take(n).drop_last() =~= acts.take(n - 1));
    }
}

/// Whatever is run out of a slot is the task that was enqueued into it: its callback with its
/// context.
pub proof fn tasks_run_with_their_own_context(
    mem: Seq<u32>,
    history: Seq<(int, Event)>,
    block: PoolBlock,
    acts: Seq<Seq<PoolAct>>,
    k: int,
    index: usize,
    callback: u32,
    context: u32,
    deed: spec_fn(u32, u32) -> bool,
)
    requires
        clean(mem, block),
        interleaves(history, block, acts),
        crate::shared::undisturbed(mem, of_all(history)),
        crate::shared_pool::additions(of_all(history), block.at as int) <= u32::MAX,
        0 <= k < history.len(),
        history[k].1 == (Event::Ran { slot: Some(index), callback, context, deed }),
    ensures
        was_enqueued(acts, index as int, callback, context),
{
    let w = history[k].0;
    let list = acts[w];
    let p = place_in_thread(history, k);
    assert(executor(list));
    let n = run_in_thread(block, list, p);
    assert(runs_what_it_claimed(list, n));
    let m = choose|m: int|
        0 <= m < n && (#[trigger] list[m]).claims_task(index as int, callback, context);
    assert(list[m].claims_task(index as int, callback, context));
    longer_list(block, list, m + 1, n);
    claimed_task_is_its_own(
        mem,
        history,
        block,
        acts,
        w,
        m,
        list[m]->scan,
        list[m]->claim->0,
    );
}

/// A waiter that sees its task complete knows that it was run: before the look, the history holds
/// a run out of the slot, with a callback and a context that were enqueued into it; it is the only
/// one.
pub proof fn finished_task_was_run(
    mem: Seq<u32>,
    history: Seq<(int, Event)>,
    block: PoolBlock,
    acts: Seq<Seq<PoolAct>>,
    index: usize,
    order: Order,
) -> (k: int)
    requires
        clean(mem, block),
        interleaves(history, block, acts),
        crate::shared::undisturbed(mem, of_all(history)),
        crate::shared_pool::additions(of_all(history), block.at as int) <= u32::MAX,
        index < MAX_TASKS,
        history.len() > 0,
        history.last().1 == (Event::Load {
            at: block.status_at(index as int),
            order,
            seen: COMPLETE,
        }),
    ensures
        0 <= k < history.len() - 1,
        history[k].1 is Ran,
        history[k].1->slot == Some(index),
        was_enqueued(
            acts,
            index as int,
            history[k].1->callback,
            history[k].1->context,
        ),
        runs(of_all(history), index as int) == 1,
{
    let all = of_all(history);
    let run = run_kind(index as int);
    each_task_runs_once(mem, history, block, acts, index as int);
    assert(all.last() == history.last().1);
    counted_bounds(all, run);
    let k = choose|k: int| 0 <= k < all.len() && run(#[trigger] all[k]);
    assert(all[k] == history[k].1);
    tasks_run_with_their_own_context(
        mem,
        history,
        block,
        acts,
        k,
        index,
        history[k].1->callback,
        history[k].1->context,
        history[k].1->deed,
    );
    k
}

/// The slots are handed out in order: an enqueue draws the number of those before it, so that it
/// gets a slot exactly when fewer than [`MAX_TASKS`] came before, and one that nobody else got.
pub proof fn slots_are_drawn_in_order(
    mem: Seq<u32>,
    history: Seq<(int, Event)>,
    block: PoolBlock,
    acts: Seq<Seq<PoolAct>>,
    k: int,
)
    requires
        clean(mem, block),
        interleaves(history, block, acts),
        crate::shared::undisturbed(mem, of_all(history)),
        crate::shared_pool::additions(of_all(history), block.at as int) <= u32::MAX,
        0 <= k < history.len(),
        history[k].1 matches Event::Add { at, .. } && at == block.at,
    ensures
        history[k].1->Add_seen == crate::shared_pool::additions(
            of_all(history).take(k),
            block.at as int,
        ),
        forall|j: int|
            #![trigger history[j]]
            0 <= j < history.len() && j != k && (history[j].1 matches Event::Add { at, .. } && at
                == block.at) ==> history[j].1->Add_seen != history[k].1->Add_seen,
{
    let all = of_all(history);
    let at = block.at as int;
    assert forall|i: int| 0 <= i < all.len() implies crate::shared_pool::draw_access(
        #[trigger] all[i],
        at,
    ) && crate::shared::stays_within(all[i], 0, mem.len() as int) by {
        all_accesses(history, block, acts, 0, i);
    }
    assert(all[k] == history[k].1);
    crate::shared_pool::draw_sees_its_number(mem, all, at, k);
    assert forall|j: int|
        #![trigger history[j]]
        0 <= j < history.len() && j != k && (history[j].1 matches Event::Add { at: a, .. } && a
            == at) implies history[j].1->Add_seen != history[k].1->Add_seen by {
        assert(all[j] == history[j].1);
        if j < k {
            crate::shared_pool::slots_are_drawn_once(mem, all, at, j, k);
        } else {
            crate::shared_pool::slots_are_drawn_once(mem, all, at, k, j);
        }
    }
}

/// Counting over two lists of operations.
proof fn acts_two(a: Seq<PoolAct>, b: Seq<PoolAct>, index: int)
    ensures
        acts_completing(a + b, index) == acts_completing(a, index) + acts_completing(b, index),
        acts_running(a + b, index) == acts_running(a, index) + acts_running(b, index),
        acts_claiming(a + b, index) == acts_claiming(a, index) + acts_claiming(b, index),
    decreases b.len(),
{
    if b.len() == 0 {
        assert(a + b =~= a);
    } else {
        assert((a + b).drop_last() =~= a + b.drop_last());
        acts_two(a, b.drop_last(), index);
    }
}

/// One more operation.
proof fn acts_more(acts: Seq<PoolAct>, act: PoolAct, index: int)
    ensures
        acts_completing(acts.push(act), index) == acts_completing(acts, index) + (if act.completes(
            index,
        ) {
            1int
        } else {
            0int
        }),
        acts_running(acts.push(act), index) == acts_running(acts, index) + (if act.runs(index) {
            1int
        } else {
            0int
        }),
        acts_claiming(acts.push(act), index) == acts_claiming(acts, index) + (if act.claims(
            index,
        ) {
            1int
        } else {
            0int
        }),
{
    assert(acts.push(act).drop_last() =~= acts);
}

/// A list of operations stays that of an executor with one more that keeps the balance and, if it
/// runs a task, runs what was claimed.
proof fn executor_push(acts: Seq<PoolAct>, act: PoolAct)
    requires
        executor(acts),
        act.valid(),
        runs_what_it_claimed(acts.push(act), acts.len() as int),
        forall|index: int| #[trigger] balanced(acts.push(act), index),
    ensures
        executor(acts.push(act)),
{
    let more = acts.push(act);
    assert forall|n: int| 0 <= n < more.len() implies (#[trigger] more[n]).valid() by {
        if n < acts.len() {
            assert(acts[n].valid());
        }
    }
    assert forall|n: int| 0 <= n < more.len() implies #[trigger] runs_what_it_claimed(
        more,
        n,
    ) by {
        if n < acts.len() {
            assert(runs_what_it_claimed(acts, n));
            if let PoolAct::Run { slot: Some(index), callback, context, .. } = acts[n] {
                let m = choose|m: int|
                    0 <= m < n && (#[trigger] acts[m]).claims_task(
                        index as int,
                        callback,
                        context,
                    );
                assert(more[m].claims_task(index as int, callback, context));
            }
        }
    }
    assert forall|n: int, index: int| 0 <= n <= more.len() implies #[trigger] balanced(
        more.take(n),
        index,
    ) by {
        if n <= acts.len() {
            assert(more.take(n) =~= acts.take(n));
            assert(balanced(acts.take(n), index));
        } else {
            assert(more.take(n) =~= more);
        }
    }
}

/// The operation of one that neither runs a task out of a slot nor reports one.
pub open spec fn is_plain(act: PoolAct) -> bool {
    match act {
        PoolAct::Run { slot, .. } => slot is None,
        PoolAct::Complete { .. } => false,
        _ => true,
    }
}

/// What [`PoolBlock::execute_one`] makes of one claimed task; `nested` are the operations that the
/// task itself runs.
pub open spec fn execution(
    scan: Scan,
    claim: Claim,
    nested: Seq<PoolAct>,
    deed: spec_fn(u32, u32) -> bool,
    who: usize,
    counted: u32,
) -> Seq<PoolAct> {
    (seq![PoolAct::Search { scan, claim: Some(claim) }] + nested).push(
        PoolAct::Run {
            slot: Some(claim.index),
            callback: claim.callback,
            context: claim.context,
            deed,
        },
    ).push(PoolAct::Complete { index: claim.index }).push(PoolAct::Count { who, seen: counted })
}

/// An executor at work stays one: by any operation that neither runs nor reports a task of a slot,
/// and by executing a task, whatever the task itself executes.
pub proof fn executing_keeps_order(
    acts: Seq<PoolAct>,
    other: PoolAct,
    scan: Scan,
    claim: Claim,
    nested: Seq<PoolAct>,
    deed: spec_fn(u32, u32) -> bool,
    who: usize,
    counted: u32,
)
    requires
        executor(acts),
    ensures
        executor(Seq::empty()),
        other.valid() && is_plain(other) ==> executor(acts.push(other)),
        crate::shared_pool::scan_found(scan, Some(claim)) && claim.index < MAX_TASKS && executor(
            nested,
        ) ==> executor(acts + execution(scan, claim, nested, deed, who, counted)),
{
    let none = Seq::<PoolAct>::empty();
    assert forall|n: int, i: int| 0 <= n <= none.len() implies #[trigger] balanced(
        none.take(n),
        i,
    ) by {
        assert(none.take(n) =~= none);
    }
    if other.valid() && is_plain(other) {
        plain_keeps_order(acts, other);
    }
    if crate::shared_pool::scan_found(scan, Some(claim)) && claim.index < MAX_TASKS && executor(
        nested,
    ) {
        execution_keeps_order(acts, scan, claim, nested, deed, who, counted);
    }
}

/// An operation that neither runs nor reports a task of a slot keeps an executor in order.
proof fn plain_keeps_order(acts: Seq<PoolAct>, other: PoolAct)
    requires
        executor(acts),
        other.valid(),
        is_plain(other),
    ensures
        executor(acts.push(other)),
{
    assert forall|index: int| #[trigger] balanced(acts.push(other), index) by {
        assert(acts.take(acts.len() as int) =~= acts);
        assert(balanced(acts.take(acts.len() as int), index));
        acts_more(acts, other, index);
    }
    executor_push(acts, other);
}

/// The operations of one executor after those of another are those of an executor.
proof fn nested_keeps_order(acts: Seq<PoolAct>, nested: Seq<PoolAct>)
    requires
        executor(acts),
        executor(nested),
    ensures
        executor(acts + nested),
    decreases nested.len(),
{
    if nested.len() == 0 {
        assert(acts + nested =~= acts);
    } else {
        let rest = nested.drop_last();
        let last = nested.last();
        executor_before(nested);
        nested_keeps_order(acts, rest);
        let before = acts + rest;
        let whole = before.push(last);
        assert(acts + nested =~= whole);
        assert forall|index: int| #[trigger] balanced(whole, index) by {
            assert(acts.take(acts.len() as int) =~= acts);
            assert(balanced(acts.take(acts.len() as int), index));
            assert(balanced(nested, index));
            acts_two(acts, nested, index);
        }
        let n = nested.len() - 1;
        assert(runs_what_it_claimed(nested, n));
        assert(runs_what_it_claimed(whole, before.len() as int)) by {
            if let PoolAct::Run { slot: Some(index), callback, context, .. } = last {
                let m = choose|m: int|
                    0 <= m < n && (#[trigger] nested[m]).claims_task(
                        index as int,
                        callback,
                        context,
                    );
                assert(whole[acts.len() + m].claims_task(index as int, callback, context));
            }
        }
        executor_push(before, last);
    }
}

/// Executing a task keeps an executor in order.
proof fn execution_keeps_order(
    acts: Seq<PoolAct>,
    scan: Scan,
    claim: Claim,
    nested: Seq<PoolAct>,
    deed: spec_fn(u32, u32) -> bool,
    who: usize,
    counted: u32,
)
    requires
        executor(acts),
        executor(nested),
        crate::shared_pool::scan_found(scan, Some(claim)),
        claim.index < MAX_TASKS,
    ensures
        executor(acts + execution(scan, claim, nested, deed, who, counted)),
{
    let search = PoolAct::Search { scan, claim: Some(claim) };
    let run = PoolAct::Run {
        slot: Some(claim.index),
        callback: claim.callback,
        context: claim.context,
        deed,
    };
    let report = PoolAct::Complete { index: claim.index };
    let count = PoolAct::Count { who, seen: counted };
    let one = acts.push(search);
    let two = one + nested;
    let three = two.push(run);
    let four = three.push(report);
    plain_keeps_order(acts, search);
    nested_keeps_order(one, nested);
    assert forall|index: int| #[trigger] balanced(three, index) && balanced(four, index) by {
        assert(acts.take(acts.len() as int) =~= acts);
        assert(balanced(acts.take(acts.len() as int), index));
        assert(nested.take(nested.len() as int) =~= nested);
        assert(balanced(nested.take(nested.len() as int), index));
        acts_more(acts, search, index);
        acts_two(one, nested, index);
        acts_more(two, run, index);
        acts_more(three, report, index);
    }
    assert(runs_what_it_claimed(three, two.len() as int)) by {
        assert(three[acts.len() as int].claims_task(
            claim.index as int,
            claim.callback,
            claim.context,
        ));
    }
    executor_push(two, run);
    assert forall|index: int| #[trigger] balanced(four, index) by {
        assert(balanced(three, index));
    }
    executor_push(three, report);
    plain_keeps_order(four, count);
    assert(acts + execution(scan, claim, nested, deed, who, counted) =~= four.push(count));
}

/// What happens when a task is executed that runs no operation itself is what
/// [`PoolBlock::execute_one`] says.
pub proof fn execution_events(
    block: PoolBlock,
    scan: Scan,
    claim: Claim,
    deed: spec_fn(u32, u32) -> bool,
    who: usize,
    counted: u32,
)
    ensures
        acts_events(block, execution(scan, claim, Seq::empty(), deed, who, counted))
            == block.execute_events(scan, Some(claim), who, counted, deed),
{
    let none = Seq::<PoolAct>::empty();
    let search = PoolAct::Search { scan, claim: Some(claim) };
    let run = PoolAct::Run {
        slot: Some(claim.index),
        callback: claim.callback,
        context: claim.context,
        deed,
    };
    let report = PoolAct::Complete { index: claim.index };
    let count = PoolAct::Count { who, seen: counted };
    let one = none.push(search);
    let two = one.push(run);
    let three = two.push(report);
    let own = execution(scan, claim, none, deed, who, counted);
    assert(own =~= three.push(count));
    events_more(block, none, search);
    events_more(block, one, run);
    events_more(block, two, report);
    events_more(block, three, count);
    assert(acts_events(block, own) =~= block.execute_events(
        scan,
        Some(claim),
        who,
        counted,
        deed,
    ));
}

/// What happens when a task finds no slot is what [`PoolBlock::enqueue_or_run`] says.
pub proof fn overflow_events(
    block: PoolBlock,
    drawn: u32,
    callback: u32,
    context: u32,
    credits: u32,
    deed: spec_fn(u32, u32) -> bool,
)
    requires
        drawn >= MAX_TASKS,
    ensures
        acts_events(
            block,
            seq![
                PoolAct::Enqueue { drawn, callback, context, credits },
                PoolAct::Run { slot: None, callback, context, deed },
            ],
        ) == block.enqueue_or_run_events(drawn, callback, context, credits, deed),
{
    let none = Seq::<PoolAct>::empty();
    let enqueue = PoolAct::Enqueue { drawn, callback, context, credits };
    let run = PoolAct::Run { slot: None, callback, context, deed };
    let own = seq![enqueue, run];
    assert(own =~= none.push(enqueue).push(run));
    events_more(block, none, enqueue);
    events_more(block, none.push(enqueue), run);
    assert(acts_events(block, own) =~= block.enqueue_or_run_events(
        drawn,
        callback,
        context,
        credits,
        deed,
    ));
}

/// The accesses of one more operation.
proof fn events_more(block: PoolBlock, acts: Seq<PoolAct>, act: PoolAct)
    ensures
        acts_events(block, acts.push(act)) == acts_events(block, acts) + act.events(block),
{
    assert(acts.push(act).drop_last() =~= acts);
}

} // verus!
