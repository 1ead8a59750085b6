//! The task pool behind the solver's internal parallelism.
//!
//! A world step fans its work out: it enqueues tasks, and then waits for each of them. Executors
//! claim pending tasks and run them; the waiting thread helps, so that a step never stalls for
//! want of executors. A task is two words, a callback (function-table index) and its context. The
//! pool here is a value; [`crate::shared_pool`] runs the same operations on shared memory.

use vstd::prelude::*;

verus! {

/// The most tasks that a world step can enqueue; the overflow runs inline.
pub const MAX_TASKS: usize = 256;

/// The number of per-executor claim counters.
pub const MAX_WORKERS: usize = 32;

pub const FREE: u32 = 0;

pub const PENDING: u32 = 1;

pub const CLAIMED: u32 = 2;

pub const COMPLETE: u32 = 3;

/// One enqueued task.
#[derive(Clone, Copy, Debug, PartialEq, Eq)]
pub struct TaskSlot {
    /// [`FREE`], [`PENDING`], [`CLAIMED`] or [`COMPLETE`].
    pub status: u32,
    pub callback: u32,
    pub context: u32,
}

/// The pool.
#[derive(Debug, PartialEq, Eq)]
pub struct TaskPool {
    /// Next free slot (may run past [`MAX_TASKS`]; overflow runs inline).
    pub next_slot: u32,
    /// Credits of unclaimed tasks.
    pub sem: u32,
    /// Claims of each executor: 0 is the physics thread, the others are pool workers.
    pub claims: Vec<u32>,
    pub tasks: Vec<TaskSlot>,
}

/// The number of slots in use when the next free slot is `next_slot`.
pub open spec fn used_slots(next_slot: u32) -> int {
    if next_slot < MAX_TASKS {
        next_slot as int
    } else {
        MAX_TASKS as int
    }
}

/// The claim counter of an executor; those past the last counter share it.
pub open spec fn claim_counter(who: usize) -> int {
    if who < MAX_WORKERS {
        who as int
    } else {
        MAX_WORKERS - 1
    }
}

/// The tasks with the first `n` slots recycled.
pub open spec fn freed(tasks: Seq<TaskSlot>, n: int) -> Seq<TaskSlot> {
    Seq::new(
        tasks.len(),
        |i: int|
            if i < n {
                TaskSlot { status: FREE, ..tasks[i] }
            } else {
                tasks[i]
            },
    )
}

/// No task is pending below `n`.
pub open spec fn none_pending(tasks: Seq<TaskSlot>, n: int) -> bool {
    forall|i: int| 0 <= i < n ==> (#[trigger] tasks[i]).status != PENDING
}

/// What a waiter for a task has to do next.
#[derive(Clone, Copy, Debug, PartialEq, Eq)]
pub enum Finish {
    /// The task is complete.
    Done,
    /// Run the named task, then look again.
    Help { index: usize, callback: u32, context: u32 },
    /// Nothing to help with: sleep while the awaited task's status is still `status`.
    Sleep { status: u32 },
}

impl TaskPool {
    /// The pool has all its counters and slots.
    pub open spec fn wf(self) -> bool {
        &&& self.claims@.len() == MAX_WORKERS
        &&& self.tasks@.len() == MAX_TASKS
    }

    /// Nothing is enqueued, nothing was claimed, every slot is free and blank.
    pub open spec fn fresh(self) -> bool {
        &&& self.wf()
        &&& self.next_slot == 0
        &&& self.sem == 0
        &&& forall|i: int| 0 <= i < MAX_WORKERS ==> #[trigger] self.claims@[i] == 0
        &&& forall|i: int|
            0 <= i < MAX_TASKS ==> #[trigger] self.tasks@[i] == (TaskSlot {
                status: FREE,
                callback: 0,
                context: 0,
            })
    }

    /// A pool with nothing enqueued.
    pub fn new() -> (pool: TaskPool)
        ensures
            pool.fresh(),
    {
        let mut claims: Vec<u32> = Vec::new();
        for i in 0..MAX_WORKERS
            invariant
                claims@.len() == i,
                forall|j: int| 0 <= j < i ==> #[trigger] claims@[j] == 0,
        {
            claims.push(0);
        }
        let slot = TaskSlot { status: FREE, callback: 0, context: 0 };
        let mut tasks: Vec<TaskSlot> = Vec::new();
        for i in 0..MAX_TASKS
            invariant
                tasks@.len() == i,
                forall|j: int| 0 <= j < i ==> #[trigger] tasks@[j] == slot,
        {
            tasks.push(slot);
        }
        TaskPool { next_slot: 0, sem: 0, claims, tasks }
    }

    /// Recycles all slots, between world steps.
    pub fn reset(&mut self)
        requires
            old(self).wf(),
        ensures
            final(self).wf(),
            final(self).next_slot == 0,
            final(self).tasks@ == freed(old(self).tasks@, used_slots(old(self).next_slot)),
            final(self).sem == old(self).sem,
            final(self).claims == old(self).claims,
    {
        let used: usize = slots_in_use(self.next_slot);
        self.next_slot = 0;
        for i in 0..used
            invariant
                used <= MAX_TASKS,
                old(self).tasks@.len() == MAX_TASKS,
                self.next_slot == 0,
                self.sem == old(self).sem,
                self.claims == old(self).claims,
                self.tasks@ == freed(old(self).tasks@, i as int),
        {
            self.tasks[i].status = FREE;
            assert(self.tasks@ =~= freed(old(self).tasks@, i + 1));
        }
        assert(self.tasks@ =~= freed(old(self).tasks@, used as int));
    }

    /// The claim counters of the first `n` executors.
    pub fn claim_counts(&self, n: usize) -> (counts: Vec<u32>)
        requires
            self.wf(),
        ensures
            counts@ == self.claims@.take(
                if n < MAX_WORKERS {
                    n as int
                } else {
                    MAX_WORKERS as int
                },
            ),
    {
        let m: usize = if n < MAX_WORKERS {
            n
        } else {
            MAX_WORKERS
        };
        let mut counts: Vec<u32> = Vec::new();
        for i in 0..m
            invariant
                m <= self.claims@.len(),
                counts@ == self.claims@.take(i as int),
        {
            counts.push(self.claims[i]);
            assert(counts@ =~= self.claims@.take(i + 1));
        }
        counts
    }

    /// Appends a task and adds a credit for it. `None`: the slots are used up, and the caller runs
    /// the task itself.
    pub fn enqueue_task(&mut self, callback: u32, context: u32) -> (index: Option<usize>)
        requires
            old(self).wf(),
        ensures
            final(self).wf(),
            final(self).next_slot == old(self).next_slot.wrapping_add(1),
            final(self).claims == old(self).claims,
            index == (if old(self).next_slot < MAX_TASKS {
                Some(old(self).next_slot as usize)
            } else {
                None
            }),
            index matches Some(i) ==> final(self).tasks@ == old(self).tasks@.update(
                i as int,
                (TaskSlot { status: PENDING, callback, context }),
            ) && final(self).sem == old(self).sem.wrapping_add(1),
            index is None ==> final(self).tasks == old(self).tasks && final(self).sem == old(
                self,
            ).sem,
    {
        let index: usize = self.next_slot as usize;
        self.next_slot = self.next_slot.wrapping_add(1);
        if index >= MAX_TASKS {
            return None;
        }
        self.tasks.set(index, TaskSlot { status: PENDING, callback, context });
        self.sem = self.sem.wrapping_add(1);
        Some(index)
    }

    /// Claims the first pending task: the slot to run, or `None` when nothing is pending.
    pub fn claim_one(&mut self) -> (index: Option<usize>)
        requires
            old(self).wf(),
        ensures
            final(self).wf(),
            final(self).next_slot == old(self).next_slot,
            final(self).sem == old(self).sem,
            final(self).claims == old(self).claims,
            index matches Some(i) ==> {
                &&& i < used_slots(old(self).next_slot)
                &&& none_pending(old(self).tasks@, i as int)
                &&& old(self).tasks@[i as int].status == PENDING
                &&& final(self).tasks@ == old(self).tasks@.update(
                    i as int,
                    (TaskSlot { status: CLAIMED, ..old(self).tasks@[i as int] }),
                )
            },
            index is None ==> final(self).tasks == old(self).tasks && none_pending(
                old(self).tasks@,
                used_slots(old(self).next_slot),
            ),
    {
        let count: usize = slots_in_use(self.next_slot);
        for i in 0..count
            invariant
                *self == *old(self),
                self.wf(),
                count <= MAX_TASKS,
                count == used_slots(self.next_slot),
                none_pending(self.tasks@, i as int),
        {
            if self.tasks[i].status == PENDING {
                self.tasks[i].status = CLAIMED;
                return Some(i);
            }
        }
        None
    }

    /// The task at `index` was run by the executor `who`.
    pub fn complete(&mut self, index: usize, who: usize)
        requires
            old(self).wf(),
            index < MAX_TASKS,
        ensures
            final(self).wf(),
            final(self).next_slot == old(self).next_slot,
            final(self).sem == old(self).sem,
            final(self).tasks@ == old(self).tasks@.update(
                index as int,
                (TaskSlot { status: COMPLETE, ..old(self).tasks@[index as int] }),
            ),
            final(self).claims@ == old(self).claims@.update(
                claim_counter(who),
                old(self).claims@[claim_counter(who)].wrapping_add(1),
            ),
    {
        self.tasks[index].status = COMPLETE;
        let c: usize = counter_of(who);
        let count: u32 = self.claims[c];
        self.claims.set(c, count.wrapping_add(1));
    }

    /// Takes one credit, if there is one.
    pub fn take_credit(&mut self) -> (taken: bool)
        ensures
            taken == (old(self).sem > 0),
            *final(self) == (TaskPool {
                sem: if old(self).sem > 0 {
                    (old(self).sem - 1) as u32
                } else {
                    0
                },
                ..*old(self)
            }),
    {
        if self.sem > 0 {
            self.sem = self.sem - 1;
            true
        } else {
            false
        }
    }

    /// What the waiter for a task has to do: nothing when there was no task (it ran inline) or it
    /// is complete; else help with the first pending task; else sleep.
    pub fn finish_task(&mut self, task: Option<usize>) -> (next: Finish)
        requires
            old(self).wf(),
            task matches Some(i) ==> i < MAX_TASKS,
        ensures
            final(self).wf(),
            next is Done <==> (task matches Some(i) ==> old(self).tasks@[i as int].status
                == COMPLETE),
            next is Done ==> *final(self) == *old(self),
            next matches Finish::Help { index, callback, context } ==> {
                let was = old(self).tasks@[index as int];
                &&& index < used_slots(old(self).next_slot)
                &&& none_pending(old(self).tasks@, index as int)
                &&& was == (TaskSlot { status: PENDING, callback, context })
                &&& final(self).tasks@ == old(self).tasks@.update(
                    index as int,
                    (TaskSlot { status: CLAIMED, callback, context }),
                )
                &&& final(self).next_slot == old(self).next_slot
                &&& final(self).sem == old(self).sem
                &&& final(self).claims == old(self).claims
            },
            next matches Finish::Sleep { status } ==> {
                &&& none_pending(old(self).tasks@, used_slots(old(self).next_slot))
                &&& old(self).tasks@[task->0 as int].status == status
                &&& *final(self) == *old(self)
            },
    {
        match task {
            None => Finish::Done,
            Some(i) => {
                let status: u32 = self.tasks[i].status;
                if status == COMPLETE {
                    return Finish::Done;
                }
                match self.claim_one() {
                    Some(index) => {
                        let slot: TaskSlot = self.tasks[index];
                        Finish::Help { index, callback: slot.callback, context: slot.context }
                    },
                    None => Finish::Sleep { status },
                }
            },
        }
    }
}

/// The number of slots in use.
pub(crate) fn slots_in_use(next_slot: u32) -> (n: usize)
    ensures
        n == used_slots(next_slot),
{
    if (next_slot as usize) < MAX_TASKS {
        next_slot as usize
    } else {
        MAX_TASKS
    }
}

/// The claim counter of an executor.
pub(crate) fn counter_of(who: usize) -> (c: usize)
    ensures
        c == claim_counter(who),
{
    if who < MAX_WORKERS {
        who
    } else {
        MAX_WORKERS - 1
    }
}

/// A waiter that sleeps has nothing to wait for but another executor: the task that it waits for
/// was enqueued and is not complete, so when no task is pending it is claimed.
pub proof fn sleeper_waits_for_an_executor(pool: TaskPool, index: int)
    requires
        pool.wf(),
        0 <= index < used_slots(pool.next_slot),
        none_pending(pool.tasks@, used_slots(pool.next_slot)),
        PENDING <= pool.tasks@[index].status <= COMPLETE,
        pool.tasks@[index].status != COMPLETE,
    ensures
        pool.tasks@[index].status == CLAIMED,
{
    assert(pool.tasks@[index].status != PENDING);
}

/// After a reset every slot that was in use is free, and the pool takes tasks from its first slot
/// again.
pub proof fn reset_frees_all(tasks: Seq<TaskSlot>, next_slot: u32, i: int)
    requires
        tasks.len() == MAX_TASKS,
        0 <= i < used_slots(next_slot),
    ensures
        freed(tasks, used_slots(next_slot))[i].status == FREE,
{
}

/// A reset recycles the slots in use and touches nothing else: a task keeps its callback and its
/// context, and a slot that was not in use stays as it is.
pub proof fn reset_touches_only_the_status(tasks: Seq<TaskSlot>, next_slot: u32, i: int)
    requires
        tasks.len() == MAX_TASKS,
        0 <= i < MAX_TASKS,
    ensures
        freed(tasks, used_slots(next_slot)).len() == tasks.len(),
        freed(tasks, used_slots(next_slot))[i].callback == tasks[i].callback,
        freed(tasks, used_slots(next_slot))[i].context == tasks[i].context,
        i < next_slot ==> freed(tasks, used_slots(next_slot))[i].status == FREE,
        i >= next_slot ==> freed(tasks, used_slots(next_slot))[i] == tasks[i],
{
}

/// Every enqueued task is in a slot in use: the slots in use are those that were drawn, as long as
/// there are slots, and never more than there are.
pub proof fn drawn_slots_are_in_use(next_slot: u32, i: int)
    requires
        0 <= i < 256,
    ensures
        i < used_slots(next_slot) <==> i < next_slot,
        0 <= used_slots(next_slot) <= 256,
        next_slot < 256 ==> used_slots((next_slot + 1) as u32) == used_slots(next_slot) + 1,
{
}

/// Each executor has a claim counter of its own as long as there are counters; the executors past
/// the last one share it.
pub proof fn executors_have_their_own_counters(who: usize, other: usize)
    ensures
        0 <= claim_counter(who) < 32,
        who < 32 ==> claim_counter(who) == who,
        who < 32 && other < 32 && who != other ==> claim_counter(who) != claim_counter(other),
        who >= 32 ==> claim_counter(who) == claim_counter(31),
{
}

/// A task that is enqueued into a pool where nothing is pending is the one that is claimed next, with
/// its callback and context; there is a credit for it; once it was run, whoever waits for it is
/// done, and the executor has one claim more.
pub proof fn enqueued_task_comes_back(
    enqueued: &mut TaskPool,
    claimed: &mut TaskPool,
    completed: &mut TaskPool,
    waited: &mut TaskPool,
    credited: &mut TaskPool,
    callback: u32,
    context: u32,
    who: usize,
    index: Option<usize>,
    claim: Option<usize>,
    next: Finish,
    taken: bool,
)
    requires
        old(enqueued).wf(),
        old(enqueued).next_slot < 256,
        old(enqueued).sem < u32::MAX,
        none_pending(old(enqueued).tasks@, old(enqueued).next_slot as int),
        call_ensures(TaskPool::enqueue_task, (enqueued, callback, context), index),
        *old(claimed) == *final(enqueued),
        call_ensures(TaskPool::claim_one, (claimed,), claim),
        *old(completed) == *final(claimed),
        call_ensures(TaskPool::complete, (completed, claim->0, who), ()),
        *old(waited) == *final(completed),
        call_ensures(TaskPool::finish_task, (waited, claim), next),
        *old(credited) == *final(enqueued),
        call_ensures(TaskPool::take_credit, (credited,), taken),
    ensures
        index == Some(old(enqueued).next_slot as usize),
        claim == index,
        final(claimed).tasks@[index->0 as int] == (TaskSlot { status: CLAIMED, callback, context }),
        next is Done,
        taken,
        final(credited).sem == old(enqueued).sem,
        final(completed).tasks@[index->0 as int].status == COMPLETE,
{
    let k = old(enqueued).next_slot as int;
    let tasks = old(claimed).tasks@;
    assert(tasks[k].status == PENDING);
    assert forall|i: int| 0 <= i < k implies (#[trigger] tasks[i]).status != PENDING by {
        assert(tasks[i] == old(enqueued).tasks@[i]);
    }
    assert(used_slots(old(claimed).next_slot) == k + 1);
    if let Some(i) = claim {
        if i < k {
            assert(tasks[i as int].status != PENDING);
        } else if i > k {
            assert(tasks[k].status != PENDING);
        }
    }
}

/// A pool whose slots are used up takes no task: nothing of it changes but the number that was
/// drawn. After a reset it takes tasks again, from the first slot on.
pub proof fn full_pool_takes_none(
    full: &mut TaskPool,
    reset: &mut TaskPool,
    again: &mut TaskPool,
    callback: u32,
    context: u32,
    refused: Option<usize>,
    first: Option<usize>,
)
    requires
        old(full).wf(),
        old(full).next_slot >= 256,
        call_ensures(TaskPool::enqueue_task, (full, callback, context), refused),
        *old(reset) == *final(full),
        call_ensures(TaskPool::reset, (reset,), ()),
        *old(again) == *final(reset),
        call_ensures(TaskPool::enqueue_task, (again, callback, context), first),
    ensures
        refused is None,
        final(full).tasks == old(full).tasks,
        final(full).sem == old(full).sem,
        first == Some(0usize),
        final(again).tasks@[0] == (TaskSlot { status: PENDING, callback, context }),
{
}

} // verus!
