//! The task pool as words of shared memory.
//!
//! The words are the next free slot, the credits, the claim counters and then the task slots, each
//! of them status, callback and context. Executors on any thread claim a task by exchanging its
//! status, so that each enqueued task is run once: see [`claims_follow_enqueues`] and
//! [`crate::pool_history::each_task_runs_once`].

use vstd::prelude::*;

use crate::physics_tasks::{
    counter_of, slots_in_use, CLAIMED, COMPLETE, FREE, MAX_TASKS, MAX_WORKERS, PENDING,
};
use crate::shared::{Event, Port};
use crate::words::Order;

verus! {

/// Words of a pool.
pub const POOL_WORDS: usize = 802;

/// Where the claim counters start.
pub const CLAIMS_AT: usize = 2;

/// Where the task slots start.
pub const TASKS_AT: usize = 34;

/// A pool at an address of shared memory.
#[derive(Clone, Copy, Debug, PartialEq, Eq)]
pub struct PoolBlock {
    pub at: usize,
}

/// A task that an executor has claimed and has to run.
#[derive(Clone, Copy, Debug, PartialEq, Eq)]
pub struct Claim {
    pub index: usize,
    pub callback: u32,
    pub context: u32,
}

/// What a look for credits found.
#[derive(Clone, Copy, Debug, PartialEq, Eq)]
pub enum Credit {
    Taken,
    /// Another executor was faster: look again.
    Raced,
    /// There is none: sleep while the word is zero.
    Empty,
}

/// What one look of a pool worker came to.
#[derive(Clone, Copy, Debug, PartialEq, Eq)]
pub enum Work {
    /// It ran the task: wake whoever waits for it, then look again.
    Ran { index: usize },
    /// Look again.
    Again,
    /// Sleep while there are no credits.
    Sleep,
}

/// What one look of a waiter came to.
#[derive(Clone, Copy, Debug, PartialEq, Eq)]
pub enum Wait {
    /// The awaited task is complete.
    Done,
    /// It ran another task: wake whoever waits for it, then look again.
    Helped { index: usize },
    /// Nothing to help with: sleep while the awaited task's status is still `status`.
    Sleep { status: u32 },
}

/// What a scan for pending tasks saw of one slot: its status and, when that was pending, what the
/// attempt to claim it saw.
pub struct Glance {
    pub status: u32,
    pub exchanged: u32,
}

impl Glance {
    /// The slot was claimed.
    pub open spec fn claimed(self) -> bool {
        self.status == PENDING && self.exchanged == PENDING
    }

    /// The accesses to the status word at `at`.
    pub open spec fn events(self, at: int) -> Seq<Event> {
        if self.status == PENDING {
            seq![
                Event::Load { at, order: Order::Relaxed, seen: self.status },
                Event::Exchange {
                    at,
                    order: Order::Acquire,
                    current: PENDING,
                    new: CLAIMED,
                    seen: self.exchanged,
                },
            ]
        } else {
            seq![Event::Load { at, order: Order::Relaxed, seen: self.status }]
        }
    }
}

/// A search for a pending task: how many slots were ever handed out, and what was seen of the
/// slots, in order.
pub struct Scan {
    pub next_slot: u32,
    pub glances: Seq<Glance>,
}

impl PoolBlock {
    /// The pool lies within the memory behind the port.
    pub open spec fn fits(self, size: usize) -> bool {
        self.at + POOL_WORDS <= size
    }

    /// Where a task keeps its status.
    pub open spec fn status_at(self, index: int) -> int {
        self.at + TASKS_AT + 3 * index
    }

    /// The word of a task's status.
    pub fn status_address(&self, index: usize) -> (at: usize)
        requires
            self.at + POOL_WORDS <= usize::MAX,
            index < MAX_TASKS,
        ensures
            at == self.status_at(index as int),
            at + 3 <= self.at + POOL_WORDS,
    {
        self.at + TASKS_AT + 3 * index
    }

    /// The accesses of a reset that found `used` in the next free slot.
    pub open spec fn reset_events(self, used: u32) -> Seq<Event> {
        seq![
            Event::Swap { at: self.at as int, order: Order::Relaxed, value: 0, seen: used },
        ] + self.free_events(crate::physics_tasks::used_slots(used))
    }

    /// The accesses that free the first `n` slots.
    pub open spec fn free_events(self, n: int) -> Seq<Event> {
        Seq::new(
            n as nat,
            |i: int|
                Event::Store { at: self.status_at(i), order: Order::Relaxed, value: FREE },
        )
    }

    /// Recycles all slots, between world steps.
    pub fn reset(&self, port: &mut Port)
        requires
            self.fits(old(port).size()),
        ensures
            exists|used: u32| final(port).extends(*old(port), #[trigger] self.reset_events(used)),
    {
        let seen: u32 = port.swap(self.at, Order::Relaxed, 0);
        let ghost mid = *port;
        let used: usize = slots_in_use(seen);
        assert(port.trace() =~= mid.trace() + self.free_events(0));
        for i in 0..used
            invariant
                self.fits(port.size()),
                used <= MAX_TASKS,
                port.extends(mid, self.free_events(i as int)),
        {
            let at: usize = self.status_address(i);
            port.store(at, Order::Relaxed, FREE);
            assert(port.trace() =~= mid.trace() + self.free_events(i + 1));
        }
        assert(port.trace() =~= old(port).trace() + self.reset_events(seen));
        assert(port.extends(*old(port), self.reset_events(seen)));
    }

    /// The claim counters of the first `n` executors.
    pub fn claim_counts(&self, port: &mut Port, n: usize) -> (counts: Vec<u32>)
        requires
            self.fits(old(port).size()),
        ensures
            counts@.len() == (if n < MAX_WORKERS {
                n
            } else {
                MAX_WORKERS
            }),
            final(port).extends(*old(port), self.count_events(counts@)),
    {
        let m: usize = if n < MAX_WORKERS {
            n
        } else {
            MAX_WORKERS
        };
        let mut counts: Vec<u32> = Vec::new();
        assert(port.trace() =~= old(port).trace() + self.count_events(counts@));
        for i in 0..m
            invariant
                self.fits(port.size()),
                m <= MAX_WORKERS,
                counts@.len() == i,
                port.extends(*old(port), self.count_events(counts@)),
        {
            let ghost before = counts@;
            let seen: u32 = port.load(self.at + CLAIMS_AT + i, Order::Relaxed);
            counts.push(seen);
            assert(self.count_events(counts@) =~= self.count_events(before).push(
                crate::blocks::look(self.at + CLAIMS_AT + i, seen),
            ));
            assert(port.trace() =~= old(port).trace() + self.count_events(counts@));
        }
        counts
    }

    /// The accesses that see the given claim counters.
    pub open spec fn count_events(self, counts: Seq<u32>) -> Seq<Event> {
        Seq::new(
            counts.len(),
            |i: int| crate::blocks::look(self.at + CLAIMS_AT + i, counts[i]),
        )
    }

    /// The accesses of enqueueing a task; `index` is the slot that it drew, `credits` what it found
    /// in the credits.
    pub open spec fn enqueue_events(
        self,
        index: u32,
        callback: u32,
        context: u32,
        credits: u32,
    ) -> Seq<Event> {
        let draw = Event::Add {
            at: self.at as int,
            order: Order::Relaxed,
            value: 1,
            seen: index,
        };
        let at = self.status_at(index as int);
        if index < MAX_TASKS {
            seq![
                draw,
                Event::Store { at: at + 1, order: Order::Relaxed, value: callback },
                Event::Store { at: at + 2, order: Order::Relaxed, value: context },
                Event::Store { at, order: Order::Release, value: PENDING },
                Event::Add { at: self.at + 1, order: Order::Release, value: 1, seen: credits },
            ]
        } else {
            seq![draw]
        }
    }

    /// Appends a task and adds a credit for it; the caller then wakes one executor. `None`: the
    /// slots are used up, and the caller runs the task itself.
    pub fn enqueue_task(&self, port: &mut Port, callback: u32, context: u32) -> (index: Option<
        usize,
    >)
        requires
            self.fits(old(port).size()),
        ensures
            exists|drawn: u32, credits: u32|
                final(port).extends(
                    *old(port),
                    #[trigger] self.enqueue_events(drawn, callback, context, credits),
                ) && index == (if drawn < MAX_TASKS {
                    Some(drawn as usize)
                } else {
                    None
                }),
    {
        let drawn: u32 = port.add(self.at, Order::Relaxed, 1);
        if drawn as usize >= MAX_TASKS {
            assert(port.trace() =~= old(port).trace() + self.enqueue_events(
                drawn,
                callback,
                context,
                0,
            ));
            assert(port.extends(*old(port), self.enqueue_events(drawn, callback, context, 0)));
            return None;
        }
        let index: usize = drawn as usize;
        let at: usize = self.status_address(index);
        port.store(at + 1, Order::Relaxed, callback);
        port.store(at + 2, Order::Relaxed, context);
        port.store(at, Order::Release, PENDING);
        let credits: u32 = port.add(self.at + 1, Order::Release, 1);
        assert(port.trace() =~= old(port).trace() + self.enqueue_events(
            drawn,
            callback,
            context,
            credits,
        ));
        assert(port.extends(*old(port), self.enqueue_events(drawn, callback, context, credits)));
        Some(index)
    }

    /// What happens when a task is enqueued or, where the slots are used up, run at once.
    pub open spec fn enqueue_or_run_events(
        self,
        drawn: u32,
        callback: u32,
        context: u32,
        credits: u32,
        deed: spec_fn(u32, u32) -> bool,
    ) -> Seq<Event> {
        self.enqueue_events(drawn, callback, context, credits) + if drawn < MAX_TASKS {
            Seq::empty()
        } else {
            seq![Event::Ran { slot: None, callback, context, deed }]
        }
    }

    /// Appends a task and adds a credit for it; the caller then wakes one executor. `None`: the
    /// slots are used up, and the task was run here and now.
    pub fn enqueue_or_run<F: FnOnce(u32, u32)>(
        &self,
        port: &mut Port,
        callback: u32,
        context: u32,
        run: F,
    ) -> (index: Option<usize>)
        requires
            self.fits(old(port).size()),
            call_requires(run, (callback, context)),
        ensures
            exists|drawn: u32, credits: u32|
                final(port).extends(
                    *old(port),
                    #[trigger] self.enqueue_or_run_events(
                        drawn,
                        callback,
                        context,
                        credits,
                        crate::shared::deed_of(run),
                    ),
                ) && index == (if drawn < MAX_TASKS {
                    Some(drawn as usize)
                } else {
                    None
                }),
            index is None ==> call_ensures(run, (callback, context), ()),
    {
        let index = self.enqueue_task(port, callback, context);
        let ghost mid = *port;
        let ghost (drawn, credits) = choose|drawn: u32, credits: u32|
            port.extends(
                *old(port),
                #[trigger] self.enqueue_events(drawn, callback, context, credits),
            ) && index == (if drawn < MAX_TASKS {
                Some(drawn as usize)
            } else {
                None
            });
        if index.is_none() {
            port.run(run, None, callback, context);
        }
        proof {
            let events = self.enqueue_or_run_events(
                drawn,
                callback,
                context,
                credits,
                crate::shared::deed_of(run),
            );
            assert(port.trace() =~= old(port).trace() + events);
            assert(port.extends(*old(port), events));
        }
        index
    }

    /// The accesses of the glances at the first slots.
    pub open spec fn glance_events(self, glances: Seq<Glance>) -> Seq<Event>
        decreases glances.len(),
    {
        if glances.len() == 0 {
            Seq::empty()
        } else {
            self.glance_events(glances.drop_last()) + glances.last().events(
                self.status_at(glances.len() - 1),
            )
        }
    }

    /// The accesses of a search that ended with `claim`.
    pub open spec fn scan_events(self, scan: Scan, claim: Option<Claim>) -> Seq<Event> {
        seq![
            Event::Load { at: self.at as int, order: Order::Acquire, seen: scan.next_slot },
        ] + self.glance_events(scan.glances) + (match claim {
            None => Seq::empty(),
            Some(c) => seq![
                crate::blocks::look(self.status_at(c.index as int) + 1, c.callback),
                crate::blocks::look(self.status_at(c.index as int) + 2, c.context),
            ],
        })
    }

    /// Claims one pending task, the first that can be had.
    pub(crate) fn claim_one(&self, port: &mut Port) -> (claim: Option<Claim>)
        requires
            self.fits(old(port).size()),
        ensures
            exists|scan: Scan|
                scan_found(scan, claim) && final(port).extends(
                    *old(port),
                    #[trigger] self.scan_events(scan, claim),
                ),
    {
        let next_slot: u32 = port.load(self.at, Order::Acquire);
        let ghost mid = *port;
        let count: usize = slots_in_use(next_slot);
        let ghost mut glances: Seq<Glance> = Seq::empty();
        assert(port.trace() =~= mid.trace() + self.glance_events(glances));
        for i in 0..count
            invariant
                self.fits(port.size()),
                mid.size() == old(port).size(),
                mid.extends(
                    *old(port),
                    seq![
                        Event::Load { at: self.at as int, order: Order::Acquire, seen: next_slot },
                    ],
                ),
                count <= MAX_TASKS,
                count == crate::physics_tasks::used_slots(next_slot),
                glances.len() == i,
                forall|j: int| 0 <= j < i ==> !(#[trigger] glances[j]).claimed(),
                port.extends(mid, self.glance_events(glances)),
        {
            let at: usize = self.status_address(i);
            let status: u32 = port.load(at, Order::Relaxed);
            if status == PENDING {
                let exchanged: u32 = port.exchange(at, Order::Acquire, PENDING, CLAIMED);
                proof {
                    let more = glances.push(Glance { status, exchanged });
                    assert(more.drop_last() =~= glances);
                    assert(port.trace() =~= mid.trace() + self.glance_events(more));
                    glances = more;
                }
                if exchanged == PENDING {
                    let callback: u32 = port.load(at + 1, Order::Relaxed);
                    let context: u32 = port.load(at + 2, Order::Relaxed);
                    let claim = Claim { index: i, callback, context };
                    proof {
                        let scan = Scan { next_slot, glances };
                        assert(scan_found(scan, Some(claim)));
                        assert(port.trace() =~= old(port).trace() + self.scan_events(
                            scan,
                            Some(claim),
                        ));
                        assert(port.extends(*old(port), self.scan_events(scan, Some(claim))));
                    }
                    return Some(claim);
                }
            } else {
                proof {
                    let more = glances.push(Glance { status, exchanged: 0 });
                    assert(more.drop_last() =~= glances);
                    assert(port.trace() =~= mid.trace() + self.glance_events(more));
                    glances = more;
                }
            }
        }
        proof {
            let scan = Scan { next_slot, glances };
            assert(scan_found(scan, None));
            assert(port.trace() =~= old(port).trace() + self.scan_events(scan, None));
            assert(port.extends(*old(port), self.scan_events(scan, None)));
        }
        None
    }

    /// The task at `index` was run; the caller then wakes whoever waits for it.
    pub(crate) fn complete(&self, port: &mut Port, index: usize)
        requires
            self.fits(old(port).size()),
            index < MAX_TASKS,
        ensures
            final(port).extends(
                *old(port),
                seq![
                    Event::Store {
                        at: self.status_at(index as int),
                        order: Order::Release,
                        value: COMPLETE,
                    },
                ],
            ),
    {
        let at: usize = self.status_address(index);
        port.store(at, Order::Release, COMPLETE);
    }

    /// Counts a task that the executor `who` has run.
    pub fn count_claim(&self, port: &mut Port, who: usize)
        requires
            self.fits(old(port).size()),
        ensures
            exists|seen: u32|
                final(port).extends(
                    *old(port),
                    seq![
                        #[trigger] crate::blocks::added(
                            self.at + CLAIMS_AT + crate::physics_tasks::claim_counter(who),
                            1,
                            seen,
                        ),
                    ],
                ),
    {
        let c: usize = counter_of(who);
        let seen: u32 = port.add(self.at + CLAIMS_AT + c, Order::Relaxed, 1);
        assert(port.extends(
            *old(port),
            seq![crate::blocks::added(self.at + CLAIMS_AT + c, 1, seen)],
        ));
    }

    /// The accesses of a look for credits that saw `credits` and, if there were any, `exchanged`
    /// when it tried to take one.
    pub open spec fn credit_events(self, credits: u32, exchanged: u32) -> Seq<Event> {
        let look = Event::Load { at: self.at + 1, order: Order::Acquire, seen: credits };
        if credits > 0 {
            seq![
                look,
                Event::Exchange {
                    at: self.at + 1,
                    order: Order::AcqRel,
                    current: credits,
                    new: (credits - 1) as u32,
                    seen: exchanged,
                },
            ]
        } else {
            seq![look]
        }
    }

    /// Tries once to take a credit.
    pub fn take_credit(&self, port: &mut Port) -> (credit: Credit)
        requires
            self.fits(old(port).size()),
        ensures
            exists|credits: u32, exchanged: u32|
                final(port).extends(
                    *old(port),
                    #[trigger] self.credit_events(credits, exchanged),
                ) && credit == credit_found(credits, exchanged),
    {
        let credits: u32 = port.load(self.at + 1, Order::Acquire);
        if credits > 0 {
            let exchanged: u32 = port.exchange(self.at + 1, Order::AcqRel, credits, credits - 1);
            assert(port.trace() =~= old(port).trace() + self.credit_events(credits, exchanged));
            assert(port.extends(*old(port), self.credit_events(credits, exchanged)));
            if exchanged == credits {
                Credit::Taken
            } else {
                Credit::Raced
            }
        } else {
            assert(port.extends(*old(port), self.credit_events(credits, 0)));
            Credit::Empty
        }
    }

    /// What happens when a task is claimed, run, and only then reported as complete and counted;
    /// `counted` is what the executor's counter held. Only the search when nothing was claimed.
    pub open spec fn execute_events(
        self,
        scan: Scan,
        claim: Option<Claim>,
        who: usize,
        counted: u32,
        deed: spec_fn(u32, u32) -> bool,
    ) -> Seq<Event> {
        self.scan_events(scan, claim) + (match claim {
            None => Seq::empty(),
            Some(c) => seq![
                Event::Ran {
                    slot: Some(c.index),
                    callback: c.callback,
                    context: c.context,
                    deed,
                },
                Event::Store {
                    at: self.status_at(c.index as int),
                    order: Order::Release,
                    value: COMPLETE,
                },
                crate::blocks::added(
                    self.at + CLAIMS_AT + crate::physics_tasks::claim_counter(who),
                    1,
                    counted,
                ),
            ],
        })
    }

    /// Claims and runs one pending task, the first that can be had, for the executor `who`: `run`
    /// gets the task's callback and context, and has returned when the task is reported as
    /// complete. Gives the slot of the task; the caller then wakes whoever waits for it. `None`: nothing was pending, and nothing was run.
    pub fn execute_one<F: FnOnce(u32, u32)>(&self, port: &mut Port, who: usize, run: F) -> (index:
        Option<usize>)
        requires
            self.fits(old(port).size()),
            forall|callback: u32, context: u32| #[trigger]
                call_requires(run, (callback, context)),
        ensures
            exists|scan: Scan, claim: Option<Claim>, counted: u32|
                {
                    &&& scan_found(scan, claim)
                    &&& final(port).extends(
                        *old(port),
                        #[trigger] self.execute_events(scan, claim, who, counted, crate::shared::deed_of(run)),
                    )
                    &&& index == claimed_index(claim)
                    &&& claim matches Some(c) ==> call_ensures(run, (c.callback, c.context), ())
                },
    {
        let claim = self.claim_one(port);
        let ghost scan = choose|scan: Scan|
            scan_found(scan, claim) && port.extends(
                *old(port),
                #[trigger] self.scan_events(scan, claim),
            );
        match claim {
            None => {
                assert(port.trace() =~= old(port).trace() + self.execute_events(
                    scan,
                    claim,
                    who,
                    0,
                    crate::shared::deed_of(run),
                ));
                assert(port.extends(*old(port), self.execute_events(scan, claim, who, 0, crate::shared::deed_of(run))));
                None
            },
            Some(c) => {
                port.run(run, Some(c.index), c.callback, c.context);
                self.complete(port, c.index);
                let ghost mid = *port;
                self.count_claim(port, who);
                proof {
                    let seen = choose|seen: u32|
                        port.extends(
                            mid,
                            seq![
                                #[trigger] crate::blocks::added(
                                    self.at + CLAIMS_AT + crate::physics_tasks::claim_counter(who),
                                    1,
                                    seen,
                                ),
                            ],
                        );
                    assert(port.trace() =~= old(port).trace() + self.execute_events(
                        scan,
                        claim,
                        who,
                        seen,
                        crate::shared::deed_of(run),
                    ));
                    assert(port.extends(*old(port), self.execute_events(scan, claim, who, seen, crate::shared::deed_of(run))));
                }
                Some(c.index)
            },
        }
    }

    /// The accesses of a waiter's look at its task, which saw `status`, and of its search for
    /// another task to help with.
    pub open spec fn finish_events(
        self,
        index: int,
        status: u32,
        scan: Scan,
        claim: Option<Claim>,
        counted: u32,
        deed: spec_fn(u32, u32) -> bool,
    ) -> Seq<Event> {
        let look = Event::Load { at: self.status_at(index), order: Order::Acquire, seen: status };
        if status == COMPLETE {
            seq![look]
        } else {
            seq![look] + self.execute_events(scan, claim, 0, counted, deed)
        }
    }

    /// One look of a waiter: nothing is left to do when there was no task (it ran inline) or it is
    /// complete; else it helps by running another task; else the waiter sleeps while the status is
    /// still what it saw.
    pub fn finish_task<F: FnOnce(u32, u32)>(
        &self,
        port: &mut Port,
        task: Option<usize>,
        run: F,
    ) -> (next: Wait)
        requires
            self.fits(old(port).size()),
            task matches Some(i) ==> i < MAX_TASKS,
            forall|callback: u32, context: u32| #[trigger]
                call_requires(run, (callback, context)),
        ensures
            task is None ==> next is Done && final(port).extends(*old(port), Seq::empty()),
            task matches Some(i) ==> exists|
                status: u32,
                scan: Scan,
                claim: Option<Claim>,
                counted: u32,
            |
                {
                    &&& scan_found(scan, claim)
                    &&& final(port).extends(
                        *old(port),
                        #[trigger] self.finish_events(
                            i as int,
                            status,
                            scan,
                            claim,
                            counted,
                            crate::shared::deed_of(run),
                        ),
                    )
                    &&& next == finish_found(status, claim)
                    &&& next is Helped ==> call_ensures(
                        run,
                        (claim->0.callback, claim->0.context),
                        (),
                    )
                },
    {
        match task {
            None => {
                assert(port.trace() =~= old(port).trace() + Seq::<Event>::empty());
                Wait::Done
            },
            Some(i) => {
                let at: usize = self.status_address(i);
                let status: u32 = port.load(at, Order::Acquire);
                if status == COMPLETE {
                    proof {
                        let scan = Scan { next_slot: 0, glances: Seq::empty() };
                        assert(scan_found(scan, None));
                        assert(port.extends(
                            *old(port),
                            self.finish_events(
                                i as int,
                                status,
                                scan,
                                None,
                                0,
                                crate::shared::deed_of(run),
                            ),
                        ));
                    }
                    return Wait::Done;
                }
                let ghost mid = *port;
                let index = self.execute_one(port, 0, run);
                proof {
                    let (scan, claim, counted) = choose|
                        scan: Scan,
                        claim: Option<Claim>,
                        counted: u32,
                    |
                        {
                            &&& scan_found(scan, claim)
                            &&& port.extends(
                                mid,
                                #[trigger] self.execute_events(
                                    scan,
                                    claim,
                                    0,
                                    counted,
                                    crate::shared::deed_of(run),
                                ),
                            )
                            &&& index == claimed_index(claim)
                            &&& claim matches Some(c) ==> call_ensures(
                                run,
                                (c.callback, c.context),
                                (),
                            )
                        };
                    assert(port.trace() =~= old(port).trace() + self.finish_events(
                        i as int,
                        status,
                        scan,
                        claim,
                        counted,
                        crate::shared::deed_of(run),
                    ));
                    assert(port.extends(
                        *old(port),
                        self.finish_events(
                            i as int,
                            status,
                            scan,
                            claim,
                            counted,
                            crate::shared::deed_of(run),
                        ),
                    ));
                }
                match index {
                    Some(index) => Wait::Helped { index },
                    None => Wait::Sleep { status },
                }
            },
        }
    }

    /// One look of the pool worker `who`: it parks until there is a credit, then runs pending tasks
    /// until none is left, and parks again.
    pub fn next_work<F: FnOnce(u32, u32)>(
        &self,
        port: &mut Port,
        draining: &mut bool,
        who: usize,
        run: F,
    ) -> (work: Work)
        requires
            self.fits(old(port).size()),
            forall|callback: u32, context: u32| #[trigger]
                call_requires(run, (callback, context)),
        ensures
            *old(draining) ==> exists|scan: Scan, claim: Option<Claim>, counted: u32|
                {
                    &&& scan_found(scan, claim)
                    &&& final(port).extends(
                        *old(port),
                        #[trigger] self.execute_events(scan, claim, who, counted, crate::shared::deed_of(run)),
                    )
                    &&& work == (match claim {
                        Some(c) => Work::Ran { index: c.index },
                        None => Work::Again,
                    })
                    &&& *final(draining) == (claim is Some)
                    &&& claim matches Some(c) ==> call_ensures(run, (c.callback, c.context), ())
                },
            !*old(draining) ==> exists|credits: u32, exchanged: u32|
                final(port).extends(
                    *old(port),
                    #[trigger] self.credit_events(credits, exchanged),
                ) && work == (if credit_found(credits, exchanged) is Empty {
                    Work::Sleep
                } else {
                    Work::Again
                }) && *final(draining) == (credit_found(credits, exchanged) is Taken),
    {
        if *draining {
            match self.execute_one(port, who, run) {
                Some(index) => Work::Ran { index },
                None => {
                    *draining = false;
                    Work::Again
                },
            }
        } else {
            match self.take_credit(port) {
                Credit::Taken => {
                    *draining = true;
                    Work::Again
                },
                Credit::Raced => Work::Again,
                Credit::Empty => Work::Sleep,
            }
        }
    }
}

/// The slot of a claimed task.
pub open spec fn claimed_index(claim: Option<Claim>) -> Option<usize> {
    match claim {
        Some(c) => Some(c.index),
        None => None,
    }
}

/// What a search that saw `scan` finds: the first slot that it could claim, or nothing after all
/// the slots in use.
pub open spec fn scan_found(scan: Scan, claim: Option<Claim>) -> bool {
    let n = scan.glances.len();
    match claim {
        Some(c) => {
            &&& n == c.index + 1
            &&& n <= crate::physics_tasks::used_slots(scan.next_slot)
            &&& scan.glances[c.index as int].claimed()
            &&& forall|j: int| 0 <= j < n - 1 ==> !(#[trigger] scan.glances[j]).claimed()
        },
        None => {
            &&& n == crate::physics_tasks::used_slots(scan.next_slot)
            &&& forall|j: int| 0 <= j < n ==> !(#[trigger] scan.glances[j]).claimed()
        },
    }
}

/// What a look for credits finds.
pub open spec fn credit_found(credits: u32, exchanged: u32) -> Credit {
    if credits == 0 {
        Credit::Empty
    } else if exchanged == credits {
        Credit::Taken
    } else {
        Credit::Raced
    }
}

/// What a look of a waiter that saw `status` and found `claim` came to.
pub open spec fn finish_found(status: u32, claim: Option<Claim>) -> Wait {
    if status == COMPLETE {
        Wait::Done
    } else {
        match claim {
            Some(c) => Wait::Helped { index: c.index },
            None => Wait::Sleep { status },
        }
    }
}

/// A credit is taken exactly when there was one and nobody else took one in between; it is gone
/// exactly when there was none. Whoever takes it leaves one less, with an exchange that acquires and
/// releases.
pub proof fn credits_are_taken_one_by_one(block: PoolBlock, credits: u32, exchanged: u32)
    ensures
        credit_found(credits, exchanged) is Empty <==> credits == 0,
        credit_found(credits, exchanged) is Taken <==> credits > 0 && exchanged == credits,
        credit_found(credits, exchanged) is Raced <==> credits > 0 && exchanged != credits,
        ({
            let events = block.credit_events(credits, exchanged);
            &&& events[0] == (Event::Load {
                at: block.at + 1,
                order: Order::Acquire,
                seen: credits,
            })
            &&& credits == 0 ==> events.len() == 1
            &&& credits > 0 ==> {
                &&& events.len() == 2
                &&& events[1] matches Event::Exchange { at, order, current, new, seen } && at
                    == block.at + 1 && order is AcqRel && current == credits && new == credits - 1
                    && seen == exchanged
            }
        }),
{
}

/// Taking a credit with nothing interfering does to the pool what
/// [`crate::physics_tasks::TaskPool::take_credit`] does.
pub proof fn undisturbed_credit(
    mem: Seq<u32>,
    block: PoolBlock,
    pool: crate::physics_tasks::TaskPool,
    credits: u32,
    exchanged: u32,
)
    requires
        holds_pool(mem, block, pool),
        crate::shared::undisturbed(mem, block.credit_events(credits, exchanged)),
    ensures
        credit_found(credits, exchanged) is Taken <==> pool.sem > 0,
        credit_found(credits, exchanged) is Empty <==> pool.sem == 0,
        crate::shared::run(mem, block.credit_events(credits, exchanged)) == (if pool.sem > 0 {
            mem.update(block.at + 1, (pool.sem - 1) as u32)
        } else {
            mem
        }),
{
    let events = block.credit_events(credits, exchanged);
    crate::shared::run_of_one(mem, events[0]);
    if credits > 0 {
        assert(events =~= seq![events[0]].push(events[1]));
        crate::shared::run_push(mem, seq![events[0]], events[1]);
        crate::shared::undisturbed_push(mem, seq![events[0]], events[1]);
    } else {
        assert(events =~= seq![events[0]]);
    }
}

/// A waiter is done exactly when its task is complete. Else it has helped with the task that was
/// claimed, or sleeps on the very status that it saw.
pub proof fn waiters_look_before_they_sleep(status: u32, claim: Option<Claim>)
    ensures
        finish_found(status, claim) is Done <==> status == 3,
        finish_found(status, claim) is Sleep <==> status != 3 && claim is None,
        finish_found(status, claim) matches Wait::Sleep { status: s } ==> s == status,
        finish_found(status, claim) matches Wait::Helped { index } ==> claim is Some && index
            == claim->0.index,
        claimed_index(claim) is Some <==> claim is Some,
        claim matches Some(c) ==> claimed_index(claim) == Some(c.index),
{
}

/// A task is whole before it is pending and pending before there is a credit for it: its callback
/// and its context are stored before its status, that one with a release, and the credit is added
/// after all of them. A draw past the last slot stores nothing and adds no credit.
pub proof fn tasks_are_whole_before_they_are_pending(
    block: PoolBlock,
    index: u32,
    callback: u32,
    context: u32,
    credits: u32,
)
    ensures
        ({
            let events = block.enqueue_events(index, callback, context, credits);
            let at = block.at + 34 + 3 * index;
            &&& events[0] matches Event::Add { at: a, value, seen, .. } && a == block.at && value
                == 1 && seen == index
            &&& index >= 256 ==> events.len() == 1
            &&& index < 256 ==> {
                &&& events.len() == 5
                &&& events[1] matches Event::Store { at: a, value, .. } && a == at + 1 && value
                    == callback
                &&& events[2] matches Event::Store { at: a, value, .. } && a == at + 2 && value
                    == context
                &&& events[3] matches Event::Store { at: a, order, value } && a == at
                    && order is Release && value == 1
                &&& events[4] matches Event::Add { at: a, order, value, seen } && a == block.at + 1
                    && order is Release && value == 1 && seen == credits
            }
        }),
{
}

/// A claimed task is run with its own callback and context and is reported as complete, with a
/// release, only after it was run; then the executor counts it. Where nothing was claimed nothing is
/// run. Before that there are only looks and claims.
pub proof fn tasks_are_run_before_they_are_complete(
    block: PoolBlock,
    scan: Scan,
    claim: Option<Claim>,
    who: usize,
    counted: u32,
    deed: spec_fn(u32, u32) -> bool,
)
    ensures
        ({
            let search = block.scan_events(scan, claim);
            let events = block.execute_events(scan, claim, who, counted, deed);
            let n = search.len() as int;
            &&& events.take(n) == search
            &&& claim is None ==> events == search
            &&& claim matches Some(c) ==> {
                &&& events.len() == n + 3
                &&& events[n] == (Event::Ran {
                    slot: Some(c.index),
                    callback: c.callback,
                    context: c.context,
                    deed,
                })
                &&& events[n + 1] matches Event::Store { at, order, value } && at == block.at + 34
                    + 3 * c.index && order is Release && value == 3
                &&& events[n + 2] matches Event::Add { at, value, .. } && value == 1 && at
                    == block.at + 2 + (if who < 32 {
                    who as int
                } else {
                    31
                })
            }
        }),
{
    let search = block.scan_events(scan, claim);
    let events = block.execute_events(scan, claim, who, counted, deed);
    assert(events.take(search.len() as int) =~= search);
    if claim is None {
        assert(events =~= search);
    }
}

/// The access treats the status word at `at` as the pool's operations do.
pub open spec fn task_access(e: Event, at: int) -> bool {
    match e {
        Event::Load { .. } => true,
        Event::Store { at: a, value, .. } => a == at ==> value == FREE || value == PENDING || value
            == COMPLETE,
        Event::Exchange { at: a, current, new, .. } => a == at ==> current == PENDING && new
            == CLAIMED,
        Event::Add { at: a, .. } => a != at,
        Event::Or { at: a, .. } => a != at,
        Event::And { at: a, .. } => a != at,
        Event::Max { at: a, .. } => a != at,
        Event::Swap { at: a, .. } => a != at,
        Event::Fence { .. } => true,
        Event::Ran { .. } => true,
    }
}

/// The access claimed the task with its status at `at`.
pub open spec fn is_claim(e: Event, at: int) -> bool {
    e matches Event::Exchange { at: a, current, new, seen, .. } && a == at && current == PENDING
        && new == CLAIMED && seen == PENDING
}

/// The access made the task with its status at `at` pending.
pub open spec fn is_enqueue(e: Event, at: int) -> bool {
    e matches Event::Store { at: a, value, .. } && a == at && value == PENDING
}

/// The access recycled the slot with its status at `at`.
pub open spec fn is_reset(e: Event, at: int) -> bool {
    e matches Event::Store { at: a, value, .. } && a == at && value == FREE
}

/// How many of the accesses are of a kind.
pub open spec fn counted(history: Seq<Event>, kind: spec_fn(Event) -> bool) -> int
    decreases history.len(),
{
    if history.len() == 0 {
        0
    } else {
        counted(history.drop_last(), kind) + if kind(history.last()) {
            1int
        } else {
            0int
        }
    }
}

/// The accesses that claim the task with its status at `at`.
pub open spec fn claim_kind(at: int) -> spec_fn(Event) -> bool {
    |e: Event| is_claim(e, at)
}

/// The accesses that make the task with its status at `at` pending.
pub open spec fn enqueue_kind(at: int) -> spec_fn(Event) -> bool {
    |e: Event| is_enqueue(e, at)
}

/// The accesses that add to the word at `at`.
pub open spec fn addition_kind(at: int) -> spec_fn(Event) -> bool {
    |e: Event| e matches Event::Add { at: a, .. } && a == at
}

/// The accesses that take a credit from the word at `at`.
pub open spec fn taking_kind(at: int) -> spec_fn(Event) -> bool {
    |e: Event|
        e matches Event::Exchange { at: a, current, seen, .. } && a == at && seen == current
}

/// How many accesses claimed the task.
pub open spec fn claims(history: Seq<Event>, at: int) -> int {
    counted(history, claim_kind(at))
}

/// How many accesses made the task pending.
pub open spec fn enqueues(history: Seq<Event>, at: int) -> int {
    counted(history, enqueue_kind(at))
}

/// How many accesses added to the word.
pub open spec fn additions(history: Seq<Event>, at: int) -> int {
    counted(history, addition_kind(at))
}

/// How many accesses took a credit.
pub open spec fn credits_taken(history: Seq<Event>, at: int) -> int {
    counted(history, taking_kind(at))
}

/// 1 for a pending status, 0 for any other.
pub open spec fn pending(status: u32) -> int {
    if status == PENDING {
        1
    } else {
        0
    }
}

/// A task is run at most once each time it is enqueued, however many executors look for it. The
/// history is that of all threads together, in the order in which their accesses took effect.
pub proof fn claims_follow_enqueues(mem: Seq<u32>, history: Seq<Event>, at: int)
    requires
        0 <= at < mem.len(),
        crate::shared::undisturbed(mem, history),
        forall|i: int| 0 <= i < history.len() ==> task_access(#[trigger] history[i], at),
        forall|i: int|
            0 <= i < history.len() ==> crate::shared::stays_within(
                #[trigger] history[i],
                0,
                mem.len() as int,
            ),
    ensures
        claims(history, at) + pending(crate::shared::run(mem, history)[at]) <= enqueues(
            history,
            at,
        ) + pending(mem[at]),
        crate::shared::run(mem, history).len() == mem.len(),
    decreases history.len(),
{
    if history.len() > 0 {
        let rest = history.drop_last();
        let e = history.last();
        assert forall|i: int| 0 <= i < rest.len() implies task_access(#[trigger] rest[i], at)
            && crate::shared::stays_within(rest[i], 0, mem.len() as int) by {
            assert(task_access(history[i], at));
            assert(crate::shared::stays_within(history[i], 0, mem.len() as int));
        }
        claims_follow_enqueues(mem, rest, at);
        assert(task_access(history[history.len() - 1], at));
        assert(crate::shared::stays_within(
            history[history.len() - 1],
            0,
            mem.len() as int,
        ));
    }
}

/// Every write to the status word at `at` comes at its time: a task is enqueued into a slot that is
/// not pending, completed after it was claimed, and recycled when it is not pending.
pub open spec fn orderly(mem: Seq<u32>, history: Seq<Event>, at: int) -> bool
    decreases history.len(),
{
    if history.len() == 0 {
        true
    } else {
        let rest = history.drop_last();
        let status = crate::shared::run(mem, rest)[at];
        &&& orderly(mem, rest, at)
        &&& match history.last() {
            Event::Store { at: a, value, .. } => a == at ==> if value == COMPLETE {
                status == CLAIMED
            } else {
                status != PENDING
            },
            _ => true,
        }
    }
}

/// No enqueued task is lost: as long as the writes come at their time, a task is claimed exactly
/// as often as it is enqueued, but for one time while it is pending. When it is complete, it was
/// run exactly once for each time.
pub proof fn every_enqueued_task_is_claimed(mem: Seq<u32>, history: Seq<Event>, at: int)
    requires
        0 <= at < mem.len(),
        crate::shared::undisturbed(mem, history),
        orderly(mem, history, at),
        forall|i: int| 0 <= i < history.len() ==> task_access(#[trigger] history[i], at),
        forall|i: int|
            0 <= i < history.len() ==> crate::shared::stays_within(
                #[trigger] history[i],
                0,
                mem.len() as int,
            ),
    ensures
        claims(history, at) + pending(crate::shared::run(mem, history)[at]) == enqueues(
            history,
            at,
        ) + pending(mem[at]),
        crate::shared::run(mem, history).len() == mem.len(),
    decreases history.len(),
{
    if history.len() > 0 {
        let rest = history.drop_last();
        assert forall|i: int| 0 <= i < rest.len() implies task_access(#[trigger] rest[i], at)
            && crate::shared::stays_within(rest[i], 0, mem.len() as int) by {
            assert(task_access(history[i], at));
            assert(crate::shared::stays_within(history[i], 0, mem.len() as int));
        }
        every_enqueued_task_is_claimed(mem, rest, at);
        assert(task_access(history[history.len() - 1], at));
        assert(crate::shared::stays_within(
            history[history.len() - 1],
            0,
            mem.len() as int,
        ));
    }
}

/// The access treats the next free slot at `at` as enqueueing does.
pub open spec fn draw_access(e: Event, at: int) -> bool {
    match e {
        Event::Load { .. } => true,
        Event::Add { at: a, value, .. } => a == at ==> value == 1,
        Event::Store { at: a, .. } => a != at,
        Event::Exchange { at: a, .. } => a != at,
        Event::Or { at: a, .. } => a != at,
        Event::And { at: a, .. } => a != at,
        Event::Max { at: a, .. } => a != at,
        Event::Swap { at: a, .. } => a != at,
        Event::Fence { .. } => true,
        Event::Ran { .. } => true,
    }
}

/// The next free slot counts the draws.
pub proof fn draws_are_counted(mem: Seq<u32>, history: Seq<Event>, at: int)
    requires
        0 <= at < mem.len(),
        mem[at] + additions(history, at) <= u32::MAX,
        forall|i: int| 0 <= i < history.len() ==> draw_access(#[trigger] history[i], at),
        forall|i: int|
            0 <= i < history.len() ==> crate::shared::stays_within(
                #[trigger] history[i],
                0,
                mem.len() as int,
            ),
    ensures
        crate::shared::run(mem, history)[at] == mem[at] + additions(history, at),
        crate::shared::run(mem, history).len() == mem.len(),
        additions(history, at) >= 0,
    decreases history.len(),
{
    if history.len() > 0 {
        let rest = history.drop_last();
        assert forall|i: int| 0 <= i < rest.len() implies draw_access(#[trigger] rest[i], at)
            && crate::shared::stays_within(rest[i], 0, mem.len() as int) by {
            assert(draw_access(history[i], at));
            assert(crate::shared::stays_within(history[i], 0, mem.len() as int));
        }
        draws_are_counted(mem, rest, at);
        assert(draw_access(history[history.len() - 1], at));
        assert(crate::shared::stays_within(
            history[history.len() - 1],
            0,
            mem.len() as int,
        ));
    }
}

/// No two enqueues draw the same slot: between two resets, a later draw sees a higher number than
/// an earlier one.
pub proof fn slots_are_drawn_once(mem: Seq<u32>, history: Seq<Event>, at: int, i: int, j: int)
    requires
        0 <= at < mem.len(),
        crate::shared::undisturbed(mem, history),
        mem[at] + additions(history, at) <= u32::MAX,
        forall|k: int| 0 <= k < history.len() ==> draw_access(#[trigger] history[k], at),
        forall|k: int|
            0 <= k < history.len() ==> crate::shared::stays_within(
                #[trigger] history[k],
                0,
                mem.len() as int,
            ),
        0 <= i < j < history.len(),
        history[i] matches Event::Add { at: a, .. } && a == at,
        history[j] matches Event::Add { at: a, .. } && a == at,
    ensures
        history[i]->Add_seen < history[j]->Add_seen,
{
    draw_sees_its_number(mem, history, at, i);
    draw_sees_its_number(mem, history, at, j);
    added_up_to(history, at, i + 1, j);
    assert(history.take(i + 1).drop_last() =~= history.take(i));
    assert(history.take(i + 1).last() == history[i]);
}

/// A draw sees the start and the number of draws before it.
pub proof fn draw_sees_its_number(mem: Seq<u32>, history: Seq<Event>, at: int, i: int)
    requires
        0 <= at < mem.len(),
        crate::shared::undisturbed(mem, history),
        mem[at] + additions(history, at) <= u32::MAX,
        forall|k: int| 0 <= k < history.len() ==> draw_access(#[trigger] history[k], at),
        forall|k: int|
            0 <= k < history.len() ==> crate::shared::stays_within(
                #[trigger] history[k],
                0,
                mem.len() as int,
            ),
        0 <= i < history.len(),
        history[i] matches Event::Add { at: a, .. } && a == at,
    ensures
        history[i]->Add_seen == mem[at] + additions(history.take(i), at),
{
    let before = history.take(i);
    let rest = history.skip(i);
    assert(history =~= before + rest);
    crate::shared::run_of_two_parts(mem, before, rest);
    crate::shared::first_access_agrees(crate::shared::run(mem, before), rest);
    assert(rest[0] == history[i]);
    added_up_to(history, at, i, history.len() as int);
    assert(history.take(history.len() as int) =~= history);
    assert forall|k: int| 0 <= k < before.len() implies draw_access(#[trigger] before[k], at)
        && crate::shared::stays_within(before[k], 0, mem.len() as int) by {
        assert(draw_access(history[k], at));
        assert(crate::shared::stays_within(history[k], 0, mem.len() as int));
    }
    draws_are_counted(mem, before, at);
}

/// A longer part of a history holds at least as many additions.
pub proof fn added_up_to(history: Seq<Event>, at: int, i: int, j: int)
    requires
        0 <= i <= j <= history.len(),
    ensures
        additions(history.take(i), at) <= additions(history.take(j), at),
    decreases j,
{
    if i < j {
        added_up_to(history, at, i, j - 1);
        assert(history.take(j).drop_last() =~= history.take(j - 1));
    }
}

/// Between two resets, and without being enqueued again, a task only moves on: pending, claimed,
/// complete.
pub proof fn status_only_advances(mem: Seq<u32>, history: Seq<Event>, at: int)
    requires
        0 <= at < mem.len(),
        mem[at] <= COMPLETE,
        forall|i: int|
            0 <= i < history.len() ==> task_access(#[trigger] history[i], at) && !is_enqueue(
                history[i],
                at,
            ) && !is_reset(history[i], at),
        forall|i: int|
            0 <= i < history.len() ==> crate::shared::stays_within(
                #[trigger] history[i],
                0,
                mem.len() as int,
            ),
    ensures
        mem[at] <= crate::shared::run(mem, history)[at] <= COMPLETE,
        crate::shared::run(mem, history).len() == mem.len(),
    decreases history.len(),
{
    if history.len() > 0 {
        let rest = history.drop_last();
        assert forall|i: int| 0 <= i < rest.len() implies task_access(#[trigger] rest[i], at)
            && !is_enqueue(rest[i], at) && !is_reset(rest[i], at) && crate::shared::stays_within(
            rest[i],
            0,
            mem.len() as int,
        ) by {
            assert(task_access(history[i], at));
            assert(crate::shared::stays_within(history[i], 0, mem.len() as int));
        }
        status_only_advances(mem, rest, at);
        assert(task_access(history[history.len() - 1], at));
        assert(crate::shared::stays_within(
            history[history.len() - 1],
            0,
            mem.len() as int,
        ));
    }
}

/// A waiter never sleeps over a task that it could have run: it saw its task pending and then,
/// looking for something to run, not pending any more; so the status is no longer what it goes to
/// sleep on, and it does not sleep.
pub proof fn waiter_never_sleeps_on_a_pending_task(
    mem: Seq<u32>,
    first: Seq<Event>,
    second: Seq<Event>,
    at: int,
)
    requires
        0 <= at < mem.len(),
        mem[at] == PENDING,
        crate::shared::run(mem, first)[at] != PENDING,
        forall|i: int|
            0 <= i < first.len() ==> task_access(#[trigger] first[i], at) && !is_enqueue(
                first[i],
                at,
            ) && !is_reset(first[i], at),
        forall|i: int|
            0 <= i < second.len() ==> task_access(#[trigger] second[i], at) && !is_enqueue(
                second[i],
                at,
            ) && !is_reset(second[i], at),
        forall|i: int|
            0 <= i < first.len() ==> crate::shared::stays_within(
                #[trigger] first[i],
                0,
                mem.len() as int,
            ),
        forall|i: int|
            0 <= i < second.len() ==> crate::shared::stays_within(
                #[trigger] second[i],
                0,
                mem.len() as int,
            ),
    ensures
        crate::shared::run(mem, first + second)[at] != PENDING,
{
    crate::shared::run_of_two_parts(mem, first, second);
    status_only_advances(mem, first, at);
    status_only_advances(crate::shared::run(mem, first), second, at);
}

/// The access treats the credits at `at` as the pool's operations do.
pub open spec fn credit_access(e: Event, at: int) -> bool {
    match e {
        Event::Load { .. } => true,
        Event::Store { at: a, .. } => a != at,
        Event::Exchange { at: a, current, new, .. } => a == at ==> current > 0 && new == current
            - 1,
        Event::Add { at: a, value, .. } => a == at ==> value == 1,
        Event::Or { at: a, .. } => a != at,
        Event::And { at: a, .. } => a != at,
        Event::Max { at: a, .. } => a != at,
        Event::Swap { at: a, .. } => a != at,
        Event::Fence { .. } => true,
        Event::Ran { .. } => true,
    }
}

/// No credit is lost and none is taken twice: whatever the threads do, the credits there are and
/// those that were taken add up to those that were added.
pub proof fn credits_balance(mem: Seq<u32>, history: Seq<Event>, at: int)
    requires
        0 <= at < mem.len(),
        crate::shared::undisturbed(mem, history),
        mem[at] + additions(history, at) <= u32::MAX,
        forall|i: int| 0 <= i < history.len() ==> credit_access(#[trigger] history[i], at),
        forall|i: int|
            0 <= i < history.len() ==> crate::shared::stays_within(
                #[trigger] history[i],
                0,
                mem.len() as int,
            ),
    ensures
        crate::shared::run(mem, history)[at] + credits_taken(history, at) == mem[at]
            + additions(history, at),
        credits_taken(history, at) >= 0,
        crate::shared::run(mem, history).len() == mem.len(),
    decreases history.len(),
{
    if history.len() > 0 {
        let rest = history.drop_last();
        assert forall|i: int| 0 <= i < rest.len() implies credit_access(#[trigger] rest[i], at)
            && crate::shared::stays_within(rest[i], 0, mem.len() as int) by {
            assert(credit_access(history[i], at));
            assert(crate::shared::stays_within(history[i], 0, mem.len() as int));
        }
        credits_balance(mem, rest, at);
        assert(credit_access(history[history.len() - 1], at));
        assert(crate::shared::stays_within(
            history[history.len() - 1],
            0,
            mem.len() as int,
        ));
    }
}

/// The three words at `at` are those of the task.
pub open spec fn holds_task(mem: Seq<u32>, at: int, task: crate::physics_tasks::TaskSlot) -> bool {
    &&& mem[at] == task.status
    &&& mem[at + 1] == task.callback
    &&& mem[at + 2] == task.context
}

/// The words of a pool are those of the given value.
pub open spec fn holds_pool(
    mem: Seq<u32>,
    block: PoolBlock,
    pool: crate::physics_tasks::TaskPool,
) -> bool {
    &&& block.at + POOL_WORDS <= mem.len()
    &&& pool.wf()
    &&& mem[block.at as int] == pool.next_slot
    &&& mem[block.at + 1] == pool.sem
    &&& forall|i: int| 0 <= i < MAX_WORKERS ==> mem[block.at + CLAIMS_AT + i] == #[trigger] pool.claims@[i]
    &&& forall|i: int|
        0 <= i < MAX_TASKS ==> holds_task(
            mem,
            block.status_at(i),
            #[trigger] pool.tasks@[i],
        )
}

/// What undisturbed glances at the first slots see: their statuses, and no claim unless the last
/// of them was pending.
proof fn undisturbed_glances(
    mem: Seq<u32>,
    block: PoolBlock,
    pool: crate::physics_tasks::TaskPool,
    glances: Seq<Glance>,
)
    requires
        holds_pool(mem, block, pool),
        glances.len() <= MAX_TASKS,
        forall|j: int| 0 <= j < glances.len() - 1 ==> !(#[trigger] glances[j]).claimed(),
        crate::shared::undisturbed(mem, block.glance_events(glances)),
    ensures
        glances.len() > 0 ==> crate::physics_tasks::none_pending(
            pool.tasks@,
            glances.len() - 1,
        ),
        glances.len() > 0 ==> (glances.last().claimed() <==> pool.tasks@[glances.len() - 1].status
            == PENDING),
        crate::shared::run(mem, block.glance_events(glances)) == (if glances.len() > 0
            && glances.last().claimed() {
            mem.update(block.status_at(glances.len() - 1), CLAIMED)
        } else {
            mem
        }),
    decreases glances.len(),
{
    if glances.len() > 0 {
        let rest = glances.drop_last();
        let g = glances.last();
        let k = glances.len() - 1;
        let at = block.status_at(k);
        let events = g.events(at);
        crate::shared::run_of_two_parts(mem, block.glance_events(rest), events);
        assert forall|j: int| 0 <= j < rest.len() - 1 implies !(#[trigger] rest[j]).claimed() by {
            assert(!glances[j].claimed());
        }
        undisturbed_glances(mem, block, pool, rest);
        if rest.len() > 0 {
            assert(!glances[k - 1].claimed());
            assert(rest.last() == glances[k - 1]);
        }
        assert(crate::shared::run(mem, block.glance_events(rest)) == mem);
        assert(holds_task(mem, at, pool.tasks@[k]));
        if g.status == PENDING {
            let first = seq![events[0]];
            assert(events =~= first.push(events[1]));
            crate::shared::run_of_one(mem, events[0]);
            crate::shared::run_push(mem, first, events[1]);
            crate::shared::undisturbed_push(mem, first, events[1]);
        } else {
            assert(events =~= seq![events[0]]);
            crate::shared::run_of_one(mem, events[0]);
        }
    }
}

/// A search that nothing interferes with claims the first pending task, if there is one, as
/// [`crate::physics_tasks::TaskPool::claim_one`] does.
pub proof fn undisturbed_claim(
    mem: Seq<u32>,
    block: PoolBlock,
    pool: crate::physics_tasks::TaskPool,
    scan: Scan,
    claim: Option<Claim>,
)
    requires
        holds_pool(mem, block, pool),
        scan_found(scan, claim),
        crate::shared::undisturbed(mem, block.scan_events(scan, claim)),
    ensures
        claim matches Some(c) ==> {
            &&& c.index < crate::physics_tasks::used_slots(pool.next_slot)
            &&& crate::physics_tasks::none_pending(pool.tasks@, c.index as int)
            &&& pool.tasks@[c.index as int] == (crate::physics_tasks::TaskSlot {
                status: PENDING,
                callback: c.callback,
                context: c.context,
            })
            &&& crate::shared::run(mem, block.scan_events(scan, claim)) == mem.update(
                block.status_at(c.index as int),
                CLAIMED,
            )
        },
        claim is None ==> crate::physics_tasks::none_pending(
            pool.tasks@,
            crate::physics_tasks::used_slots(pool.next_slot),
        ) && crate::shared::run(mem, block.scan_events(scan, claim)) == mem,
{
    let load = Event::Load { at: block.at as int, order: Order::Acquire, seen: scan.next_slot };
    let mid = block.glance_events(scan.glances);
    let tail: Seq<Event> = match claim {
        None => Seq::empty(),
        Some(c) => seq![
            crate::blocks::look(block.status_at(c.index as int) + 1, c.callback),
            crate::blocks::look(block.status_at(c.index as int) + 2, c.context),
        ],
    };
    crate::shared::run_of_two_parts(mem, seq![load] + mid, tail);
    crate::shared::run_of_two_parts(mem, seq![load], mid);
    crate::shared::run_of_one(mem, load);
    undisturbed_glances(mem, block, pool, scan.glances);
    let now = crate::shared::run(mem, mid);
    assert forall|i: int| 0 <= i < tail.len() implies crate::shared::reads_only(
        #[trigger] tail[i],
    ) by {}
    crate::shared::run_of_reads(now, tail);
    match claim {
        Some(c) => {
            assert(tail[0].agrees(now));
            assert(tail[1].agrees(now));
            assert(scan.glances.last() == scan.glances[c.index as int]);
            assert(holds_task(mem, block.status_at(c.index as int), pool.tasks@[c.index as int]));
        },
        None => {
            let n = scan.glances.len();
            if n > 0 {
                assert(!scan.glances[n - 1].claimed());
            }
        },
    }
}

/// Enqueueing with nothing interfering does to the pool what
/// [`crate::physics_tasks::TaskPool::enqueue_task`] does.
pub proof fn undisturbed_enqueue(
    mem: Seq<u32>,
    block: PoolBlock,
    pool: crate::physics_tasks::TaskPool,
    next: crate::physics_tasks::TaskPool,
    index: u32,
    callback: u32,
    context: u32,
    credits: u32,
)
    requires
        holds_pool(mem, block, pool),
        crate::shared::undisturbed(mem, block.enqueue_events(index, callback, context, credits)),
        next.next_slot == pool.next_slot.wrapping_add(1),
        next.claims == pool.claims,
        pool.next_slot < MAX_TASKS ==> next.sem == pool.sem.wrapping_add(1) && next.tasks@
            == pool.tasks@.update(
            pool.next_slot as int,
            (crate::physics_tasks::TaskSlot { status: PENDING, callback, context }),
        ),
        pool.next_slot >= MAX_TASKS ==> next.sem == pool.sem && next.tasks == pool.tasks,
    ensures
        index == pool.next_slot,
        holds_pool(
            crate::shared::run(mem, block.enqueue_events(index, callback, context, credits)),
            block,
            next,
        ),
{
    let events = block.enqueue_events(index, callback, context, credits);
    crate::shared::first_access_agrees(mem, events);
    let now = crate::shared::run(mem, events);
    if index < MAX_TASKS {
        let e0 = events[0];
        let one = seq![e0];
        let two = one.push(events[1]);
        let three = two.push(events[2]);
        let four = three.push(events[3]);
        assert(events =~= four.push(events[4]));
        crate::shared::run_of_one(mem, e0);
        crate::shared::run_push(mem, one, events[1]);
        crate::shared::run_push(mem, two, events[2]);
        crate::shared::run_push(mem, three, events[3]);
        crate::shared::run_push(mem, four, events[4]);
        let at = block.status_at(index as int);
        assert(now == mem.update(block.at as int, index.wrapping_add(1)).update(
            at + 1,
            callback,
        ).update(at + 2, context).update(at, PENDING).update(
            block.at + 1,
            pool.sem.wrapping_add(1),
        ));
    } else {
        assert(events =~= seq![events[0]]);
        crate::shared::run_of_one(mem, events[0]);
        assert(now == mem.update(block.at as int, index.wrapping_add(1)));
    }
    assert forall|i: int| 0 <= i < MAX_WORKERS implies now[block.at + CLAIMS_AT + i]
        == #[trigger] next.claims@[i] by {
        assert(mem[block.at + CLAIMS_AT + i] == pool.claims@[i]);
    }
    assert forall|i: int| 0 <= i < MAX_TASKS implies holds_task(
        now,
        block.status_at(i),
        #[trigger] next.tasks@[i],
    ) by {
        assert(holds_task(mem, block.status_at(i), pool.tasks@[i]));
    }
}

/// A reset with nothing interfering does to the pool what
/// [`crate::physics_tasks::TaskPool::reset`] does.
pub proof fn undisturbed_reset(
    mem: Seq<u32>,
    block: PoolBlock,
    pool: crate::physics_tasks::TaskPool,
    next: crate::physics_tasks::TaskPool,
    used: u32,
)
    requires
        holds_pool(mem, block, pool),
        crate::shared::undisturbed(mem, block.reset_events(used)),
        next.next_slot == 0,
        next.sem == pool.sem,
        next.claims == pool.claims,
        next.tasks@ == crate::physics_tasks::freed(
            pool.tasks@,
            crate::physics_tasks::used_slots(pool.next_slot),
        ),
    ensures
        used == pool.next_slot,
        holds_pool(crate::shared::run(mem, block.reset_events(used)), block, next),
{
    let events = block.reset_events(used);
    crate::shared::first_access_agrees(mem, events);
    let n = crate::physics_tasks::used_slots(used);
    let swap = Event::Swap { at: block.at as int, order: Order::Relaxed, value: 0, seen: used };
    crate::shared::run_of_two_parts(mem, seq![swap], block.free_events(n));
    crate::shared::run_of_one(mem, swap);
    let mid = mem.update(block.at as int, 0);
    let now = crate::shared::run(mid, block.free_events(n));
    freed_words(mid, block, n);
    assert forall|i: int| 0 <= i < MAX_WORKERS implies now[block.at + CLAIMS_AT + i]
        == #[trigger] next.claims@[i] by {
        assert(mem[block.at + CLAIMS_AT + i] == pool.claims@[i]);
        let j = block.at + CLAIMS_AT + i;
        assert(now[j] == mid[j]);
    }
    assert forall|i: int| 0 <= i < MAX_TASKS implies holds_task(
        now,
        block.status_at(i),
        #[trigger] next.tasks@[i],
    ) by {
        assert(holds_task(mem, block.status_at(i), pool.tasks@[i]));
        let j = block.status_at(i);
        if i < n {
            assert(now[block.status_at(i)] == FREE);
        } else {
            assert(now[j] == mid[j]);
        }
        assert(now[j + 1] == mid[j + 1]);
        assert(now[j + 2] == mid[j + 2]);
    }
}

/// What freeing the first `n` slots does to the words.
proof fn freed_words(mem: Seq<u32>, block: PoolBlock, n: int)
    requires
        block.at + POOL_WORDS <= mem.len(),
        0 <= n <= MAX_TASKS,
    ensures
        ({
            let now = crate::shared::run(mem, block.free_events(n));
            &&& now.len() == mem.len()
            &&& forall|i: int| 0 <= i < n ==> now[#[trigger] block.status_at(i)] == FREE
            &&& forall|j: int|
                0 <= j < mem.len() && (j < block.at + TASKS_AT || j >= block.at + TASKS_AT + 3 * n
                    || (j - block.at - TASKS_AT) % 3 != 0) ==> #[trigger] now[j] == mem[j]
        }),
    decreases n,
{
    if n > 0 {
        freed_words(mem, block, n - 1);
        let last = Event::Store {
            at: block.status_at(n - 1),
            order: Order::Relaxed,
            value: FREE,
        };
        assert(block.free_events(n) =~= block.free_events(n - 1).push(last));
        crate::shared::run_push(mem, block.free_events(n - 1), last);
    }
}

/// A search takes the number of drawn slots first and then looks at the slots from the first one on;
/// it claims a pending one with an exchange that acquires, and reads the callback and the context
/// only of the one that it claimed, after that. A waiter looks at its own task before it searches,
/// and helps as the physics thread.
pub proof fn claims_acquire(
    block: PoolBlock,
    scan: Scan,
    claim: Option<Claim>,
    glance: Glance,
    at: int,
    index: int,
    status: u32,
    counted: u32,
    deed: spec_fn(u32, u32) -> bool,
)
    ensures
        ({
            let events = block.scan_events(scan, claim);
            let n = block.glance_events(scan.glances).len() as int;
            &&& events[0] == (Event::Load {
                at: block.at as int,
                order: Order::Acquire,
                seen: scan.next_slot,
            })
            &&& events.skip(1).take(n) == block.glance_events(scan.glances)
            &&& claim is None ==> events.len() == n + 1
            &&& claim matches Some(c) ==> {
                &&& events.len() == n + 3
                &&& events[n + 1] matches Event::Load { at: a, seen, .. } && a == block.at + 35 + 3
                    * c.index && seen == c.callback
                &&& events[n + 2] matches Event::Load { at: a, seen, .. } && a == block.at + 36 + 3
                    * c.index && seen == c.context
            }
        }),
        ({
            let events = glance.events(at);
            &&& events[0] matches Event::Load { at: a, seen, .. } && a == at && seen
                == glance.status
            &&& glance.status != 1 ==> events.len() == 1
            &&& glance.status == 1 ==> {
                &&& events.len() == 2
                &&& events[1] == (Event::Exchange {
                    at,
                    order: Order::Acquire,
                    current: 1,
                    new: 2,
                    seen: glance.exchanged,
                })
            }
            &&& glance.claimed() <==> glance.status == 1 && glance.exchanged == 1
        }),
        ({
            let events = block.finish_events(index, status, scan, claim, counted, deed);
            &&& events[0] == (Event::Load {
                at: block.at + 34 + 3 * index,
                order: Order::Acquire,
                seen: status,
            })
            &&& status == 3 ==> events.len() == 1
            &&& status != 3 ==> events.skip(1) == block.execute_events(
                scan,
                claim,
                0,
                counted,
                deed,
            )
        }),
{
    let events = block.scan_events(scan, claim);
    let looks = block.glance_events(scan.glances);
    assert(events.skip(1).take(looks.len() as int) =~= looks);
    let finish = block.finish_events(index, status, scan, claim, counted, deed);
    if status != COMPLETE {
        assert(finish.skip(1) =~= block.execute_events(scan, claim, 0, counted, deed));
    }
}

} // verus!
