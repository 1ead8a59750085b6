//! The stats panel: rates from the counters that the workers keep in shared memory.

use vstd::prelude::*;

use crate::blocks::{BallsBlock, MotionBlock};
use crate::shared::Port;
use crate::shared_pool::PoolBlock;
use crate::text::{decimal_text, join};

verus! {

/// What the counters hold at one moment; `None` while their owner is not up yet.
#[derive(Debug, PartialEq, Eq)]
pub struct StatsReadings {
    /// Frame tick and newest step.
    pub motion: Option<(u32, u32)>,
    /// Claims of the physics thread and of each pool worker.
    pub claims: Option<Vec<u32>>,
    /// Balls dropped.
    pub balls: Option<usize>,
}

/// The last readings, for the rates.
#[derive(Debug, PartialEq, Eq)]
pub struct StatsSample {
    pub frame: u32,
    pub step: u32,
    pub claims: Vec<u32>,
}

/// A sequence cut or filled up with zeros to the length `n`.
pub open spec fn resized(s: Seq<u32>, n: nat) -> Seq<u32> {
    Seq::new(
        n,
        |i: int|
            if i < s.len() {
                s[i]
            } else {
                0
            },
    )
}

/// The line of one executor.
pub open spec fn executor_line(i: int, rate: u32) -> Seq<char> {
    "\n"@ + executor_name(i) + (if rate == 0 {
        "idle"@
    } else {
        crate::text::decimal(rate as nat) + " tasks/s"@
    })
}

/// The name of one executor: the physics thread itself, or a pool worker.
pub open spec fn executor_name(i: int) -> Seq<char> {
    if i == 0 {
        "  physics⤷ "@
    } else {
        "  task "@ + crate::text::decimal(i as nat) + "    "@
    }
}

/// The lines of the first `n` executors.
pub open spec fn executor_lines(now: Seq<u32>, before: Seq<u32>, n: nat) -> Seq<char>
    decreases n,
{
    if n == 0 {
        Seq::empty()
    } else {
        executor_lines(now, before, (n - 1) as nat) + executor_line(
            n - 1,
            now[n - 1].wrapping_sub(before[n - 1]),
        )
    }
}

/// The part of the panel on the render and physics threads.
pub open spec fn motion_lines(motion: Option<(u32, u32)>, last: StatsSample) -> Seq<char> {
    match motion {
        Some((frame, step)) => "  render    "@ + crate::text::decimal(
            frame.wrapping_sub(last.frame) as nat,
        ) + " fps\n  physics   "@ + crate::text::decimal(step.wrapping_sub(last.step) as nat)
            + " steps/s"@,
        None => "  render    starting…\n  physics   starting…"@,
    }
}

/// The panel's text.
pub open spec fn panel(readings: StatsReadings, last: StatsSample) -> Seq<char> {
    "workers\n"@ + "  main      ui · audio · input\n"@ + motion_lines(readings.motion, last) + (
    match readings.claims {
        Some(claims) => executor_lines(
            claims@,
            resized(last.claims@, claims@.len()),
            claims@.len(),
        ),
        None => Seq::empty(),
    }) + (match readings.balls {
        Some(count) => "\n\nballs dropped  "@ + crate::text::decimal(count as nat),
        None => Seq::empty(),
    })
}

/// An executor is named by its place, the physics thread first, and is idle exactly when it claimed
/// nothing since; else its line carries how much it claimed. A worker that was not there before has
/// claimed all that its counter says, and the lines stand in the order of the executors.
pub proof fn executors_are_listed_in_order(
    now: Seq<u32>,
    last: Seq<u32>,
    i: nat,
)
    requires
        i < now.len(),
    ensures
        ({
            let before = resized(last, now.len());
            let rate = now[i as int].wrapping_sub(if i < last.len() {
                last[i as int]
            } else {
                0
            });
            let name = if i == 0 {
                "  physics⤷ "@
            } else {
                "  task "@ + crate::text::decimal(i) + "    "@
            };
            &&& executor_lines(now, before, 0).len() == 0
            &&& rate == 0 ==> executor_lines(now, before, i + 1) == executor_lines(now, before, i)
                + ("\n"@ + name + "idle"@)
            &&& rate != 0 ==> executor_lines(now, before, i + 1) == executor_lines(now, before, i)
                + ("\n"@ + name + (crate::text::decimal(rate as nat) + " tasks/s"@))
        }),
{
}

/// The panel shows what happened since the last sample and nothing before: as many frames and steps
/// as the counters moved by, however often they wrapped before, and all the balls.
pub proof fn panel_shows_the_rates(
    readings: StatsReadings,
    last: StatsSample,
    frames: nat,
    steps: nat,
)
    requires
        frames < 0x1_0000_0000,
        steps < 0x1_0000_0000,
        readings.motion == Some(
            (
                crate::body_motion::bumped(last.frame, frames),
                crate::body_motion::bumped(last.step, steps),
            ),
        ),
    ensures
        motion_lines(readings.motion, last) == "  render    "@ + crate::text::decimal(frames)
            + " fps\n  physics   "@ + crate::text::decimal(steps) + " steps/s"@,
        crate::text::occurs(panel(readings, last), motion_lines(readings.motion, last)),
        readings.balls matches Some(count) ==> crate::text::occurs(
            panel(readings, last),
            "\n\nballs dropped  "@ + crate::text::decimal(count as nat),
        ),
        readings.claims matches Some(claims) ==> crate::text::occurs(
            panel(readings, last),
            executor_lines(claims@, resized(last.claims@, claims@.len()), claims@.len()),
        ),
{
    rates_survive_wrapping(last.frame, frames);
    rates_survive_wrapping(last.step, steps);
    let head = "workers\n"@ + "  main      ui · audio · input\n"@;
    let motion = motion_lines(readings.motion, last);
    let lines = match readings.claims {
        Some(claims) => executor_lines(
            claims@,
            resized(last.claims@, claims@.len()),
            claims@.len(),
        ),
        None => Seq::empty(),
    };
    let balls = match readings.balls {
        Some(count) => "\n\nballs dropped  "@ + crate::text::decimal(count as nat),
        None => Seq::empty(),
    };
    let whole = panel(readings, last);
    assert(whole =~= head + motion + (lines + balls));
    crate::text::parts_occur(head, motion, lines + balls);
    assert(whole =~= (head + motion) + lines + balls);
    crate::text::parts_occur(head + motion, lines, balls);
    assert(whole =~= (head + motion + lines) + balls + Seq::<char>::empty());
    crate::text::parts_occur(head + motion + lines, balls, Seq::empty());
}

/// Before the workers are up the panel says so, and what is not there yet takes no line.
pub proof fn panel_waits_for_the_workers(readings: StatsReadings, last: StatsSample)
    requires
        readings.motion is None,
    ensures
        readings.claims is None && readings.balls is None ==> panel(readings, last)
            == "workers\n"@ + "  main      ui · audio · input\n"@
            + "  render    starting…\n  physics   starting…"@,
        readings.claims is None ==> (readings.balls matches Some(count) ==> panel(readings, last)
            == "workers\n"@ + "  main      ui · audio · input\n"@
            + "  render    starting…\n  physics   starting…"@ + ("\n\nballs dropped  "@
            + crate::text::decimal(count as nat))),
{
    let head = "workers\n"@ + "  main      ui · audio · input\n"@
        + "  render    starting…\n  physics   starting…"@;
    assert(head + Seq::<char>::empty() =~= head);
}

impl StatsSample {
    /// No readings yet.
    pub fn new() -> (sample: StatsSample)
        ensures
            sample.frame == 0,
            sample.step == 0,
            sample.claims@ == Seq::<u32>::empty(),
    {
        StatsSample { frame: 0, step: 0, claims: Vec::new() }
    }

    /// The panel's text for new readings, which become the last ones.
    pub fn panel_text(&mut self, readings: StatsReadings) -> (text: String)
        ensures
            text@ == panel(readings, *old(self)),
            final(self).frame == (match readings.motion {
                Some((frame, _)) => frame,
                None => old(self).frame,
            }),
            final(self).step == (match readings.motion {
                Some((_, step)) => step,
                None => old(self).step,
            }),
            final(self).claims@ == (match readings.claims {
                Some(claims) => claims@,
                None => old(self).claims@,
            }),
    {
        let ghost start = *self;
        let mut text = join("workers\n", "  main      ui · audio · input\n");
        match readings.motion {
            Some((frame, step)) => {
                text.append("  render    ");
                text.append(decimal_text(frame.wrapping_sub(self.frame) as u64).as_str());
                text.append(" fps\n  physics   ");
                text.append(decimal_text(step.wrapping_sub(self.step) as u64).as_str());
                text.append(" steps/s");
                self.frame = frame;
                self.step = step;
            },
            None => {
                text.append("  render    starting…\n  physics   starting…");
            },
        }
        let ghost head = text@;
        assert(head =~= "workers\n"@ + "  main      ui · audio · input\n"@ + motion_lines(
            readings.motion,
            start,
        ));
        if let Some(claims) = readings.claims {
            let n: usize = claims.len();
            let mut before: Vec<u32> = Vec::new();
            for i in 0..n
                invariant
                    n == claims@.len(),
                    before@.len() == i,
                    forall|j: int|
                        0 <= j < i ==> before@[j] == resized(self.claims@, n as nat)[j],
            {
                if i < self.claims.len() {
                    before.push(self.claims[i]);
                } else {
                    before.push(0);
                }
            }
            assert(before@ =~= resized(self.claims@, n as nat));
            assert(head + executor_lines(claims@, before@, 0) =~= head);
            for i in 0..n
                invariant
                    n == claims@.len(),
                    n == before@.len(),
                    text@ == head + executor_lines(claims@, before@, i as nat),
            {
                let rate: u32 = claims[i].wrapping_sub(before[i]);
                text.append("\n");
                if i == 0 {
                    text.append("  physics⤷ ");
                } else {
                    text.append("  task ");
                    text.append(decimal_text(i as u64).as_str());
                    text.append("    ");
                }
                if rate == 0 {
                    text.append("idle");
                } else {
                    text.append(decimal_text(rate as u64).as_str());
                    text.append(" tasks/s");
                }
                assert(text@ =~= head + (executor_lines(claims@, before@, i as nat)
                    + executor_line(i as int, rate)));
            }
            self.claims = claims;
        }
        if let Some(count) = readings.balls {
            text.append("\n\nballs dropped  ");
            text.append(decimal_text(count as u64).as_str());
        }
        assert(text@ =~= panel(readings, start));
        text
    }
}

/// Where the counters are; `None` while their owner is not up yet.
#[derive(Clone, Copy, Debug, PartialEq, Eq)]
pub struct StatsRefs {
    pub motion: Option<MotionBlock>,
    pub balls: Option<BallsBlock>,
    /// The pool and its number of workers.
    pub pool: Option<(PoolBlock, u32)>,
}

impl StatsRefs {
    /// Nothing is up yet.
    pub fn new() -> (refs: StatsRefs)
        ensures
            refs == (StatsRefs { motion: None, balls: None, pool: None }),
    {
        StatsRefs { motion: None, balls: None, pool: None }
    }

    /// The blocks lie within the memory behind the port.
    pub open spec fn fits(self, size: usize) -> bool {
        &&& self.motion matches Some(m) ==> m.fits(size)
        &&& self.balls matches Some(b) ==> b.fits(size)
        &&& self.pool matches Some(p) ==> p.0.fits(size) && p.1 < u32::MAX
    }

    /// Looks at the counters that there are.
    pub fn read(&self, port: &mut Port) -> (readings: StatsReadings)
        requires
            self.fits(old(port).size()),
        ensures
            readings.motion is Some <==> self.motion is Some,
            readings.balls is Some <==> self.balls is Some,
            readings.claims is Some <==> self.pool is Some,
            self.pool matches Some(p) ==> readings.claims->0@.len() == (if p.1 + 1
                < crate::physics_tasks::MAX_WORKERS {
                p.1 + 1
            } else {
                crate::physics_tasks::MAX_WORKERS as int
            }),
            readings.balls matches Some(n) ==> n <= u32::MAX,
            final(port).extends(*old(port), self.read_events(readings)),
    {
        let ghost start = *port;
        let mut motion: Option<(u32, u32)> = None;
        if let Some(m) = &self.motion {
            let frame: u32 = m.frame_tick(port);
            let step: u32 = m.latest_step(port);
            motion = Some((frame, step));
        }
        let mut claims: Option<Vec<u32>> = None;
        if let Some((pool, count)) = &self.pool {
            claims = Some(pool.claim_counts(port, *count as usize + 1));
        }
        let mut balls: Option<usize> = None;
        if let Some(b) = &self.balls {
            balls = Some(b.count(port));
        }
        let readings = StatsReadings { motion, claims, balls };
        assert(port.trace() =~= start.trace() + self.read_events(readings));
        readings
    }

    /// The accesses that see the given readings.
    pub open spec fn read_events(self, readings: StatsReadings) -> Seq<crate::shared::Event> {
        let none = Seq::<crate::shared::Event>::empty();
        (match (self.motion, readings.motion) {
            (Some(m), Some((frame, step))) => seq![
                crate::blocks::look(m.at + crate::blocks::FRAME_TICK_AT, frame),
                crate::shared::Event::Load {
                    at: m.at as int,
                    order: crate::words::Order::Acquire,
                    seen: step,
                },
            ],
            _ => none,
        }) + (match (self.pool, readings.claims) {
            (Some((pool, _)), Some(claims)) => pool.count_events(claims@),
            _ => none,
        }) + (match (self.balls, readings.balls) {
            (Some(b), Some(count)) => seq![
                crate::shared::Event::Load {
                    at: b.at + 3,
                    order: crate::words::Order::Acquire,
                    seen: count as u32,
                },
            ],
            _ => none,
        })
    }
}

/// A look that nothing interferes with shows the counters as they are: the frame tick and the latest
/// step of the motion block, the claims of the physics thread and of the pool's workers (as many as
/// there are counters), and the number of balls.
pub proof fn undisturbed_stats(
    mem: Seq<u32>,
    refs: StatsRefs,
    readings: StatsReadings,
    motion: crate::body_motion::BodyMotion,
    pool: crate::physics_tasks::TaskPool,
    balls: crate::ball_motions::BallMotions,
)
    requires
        refs.motion is Some && refs.balls is Some && refs.pool is Some,
        readings.motion is Some && readings.balls is Some && readings.claims is Some,
        readings.balls->0 <= u32::MAX,
        readings.claims->0@.len() <= 32,
        crate::blocks::holds_motion(mem, refs.motion->0, motion),
        crate::blocks::holds_balls(mem, refs.balls->0, balls),
        crate::shared_pool::holds_pool(mem, (refs.pool->0).0, pool),
        crate::shared::undisturbed(mem, refs.read_events(readings)),
    ensures
        readings.motion == Some((motion.frame_tick, motion.ring@.latest)),
        readings.balls->0 == balls.count,
        forall|i: int|
            0 <= i < readings.claims->0@.len() ==> #[trigger] readings.claims->0@[i]
                == pool.claims@[i],
        crate::shared::run(mem, refs.read_events(readings)) == mem,
{
    let events = refs.read_events(readings);
    let claims = readings.claims->0@;
    let block = (refs.pool->0).0;
    assert forall|i: int| 0 <= i < events.len() implies crate::shared::reads_only(
        #[trigger] events[i],
    ) by {}
    crate::shared::run_of_reads(mem, events);
    assert(events[0].agrees(mem));
    assert(events[1].agrees(mem));
    assert(events[2 + claims.len() as int].agrees(mem));
    assert forall|i: int| 0 <= i < claims.len() implies #[trigger] claims[i] == pool.claims@[i] by {
        assert(events[2 + i] == block.count_events(claims)[i]);
        assert(events[2 + i].agrees(mem));
    }
}

/// A counter that wraps still gives its rate: the difference of two samples is the number of
/// events between them, as long as they are fewer than the counter can tell apart.
pub proof fn rates_survive_wrapping(before: u32, events: nat)
    requires
        events < 0x1_0000_0000,
    ensures
        crate::body_motion::bumped(before, events).wrapping_sub(before) == events,
{
    crate::body_motion::frames_are_never_missed(before, events);
}

/// Nothing that happened before the last sample is shown again: with the same counters once more,
/// the panel shows no frame and no step, and every executor idle.
pub proof fn still_counters_show_no_rate(
    first: &mut StatsSample,
    second: &mut StatsSample,
    readings: StatsReadings,
    again: StatsReadings,
    text: String,
    next: String,
    i: nat,
)
    requires
        readings.motion is Some,
        readings.claims is Some,
        again.motion == readings.motion,
        again.claims is Some,
        again.claims->0@ == readings.claims->0@,
        i < readings.claims->0@.len(),
        call_ensures(StatsSample::panel_text, (first, readings), text),
        *old(second) == *final(first),
        call_ensures(StatsSample::panel_text, (second, again), next),
    ensures
        crate::text::occurs(
            next@,
            "  render    "@ + crate::text::decimal(0) + " fps\n  physics   "@
                + crate::text::decimal(0) + " steps/s"@,
        ),
        ({
            let claims = again.claims->0@;
            let before = resized(old(second).claims@, claims.len());
            let name = if i == 0 {
                "  physics⤷ "@
            } else {
                "  task "@ + crate::text::decimal(i) + "    "@
            };
            &&& executor_lines(claims, before, i + 1) == executor_lines(claims, before, i) + (
            "\n"@ + name + "idle"@)
            &&& crate::text::occurs(next@, executor_lines(claims, before, claims.len()))
        }),
{
    let last = *old(second);
    assert(last.claims@ == readings.claims->0@);
    panel_shows_the_rates(again, last, 0, 0);
    executors_are_listed_in_order(again.claims->0@, last.claims@, i);
}

} // verus!
