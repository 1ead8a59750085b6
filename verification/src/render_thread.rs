//! The render thread's rules: which poses a frame shows, when a frame is skipped, what a message
//! from main asks for, and the sync statistics.
//!
//! The display cursor, the camera and the drawing are floating-point work and the renderer's own;
//! they stand around these functions.

use vstd::prelude::*;

use crate::bits::{float_clamp, float_less, float_max, float_min};
use crate::pose_ring::PoseRing;
use crate::protocol::{
    CameraMsg, ColliderInit, ColliderShapeMsg, DropMsg, PhysicsInit, QualityMsg, RenderMsg,
    ResizeMsg,
};
use crate::seqlock::Attempt;
use crate::shared::Port;
use crate::text::{contains, decimal_text, join, same, trim_end_slashes};

verus! {

/// What a frame shows of a body.
#[derive(Clone, Copy, Debug, PartialEq, Eq)]
pub enum Sample {
    /// A blend of the poses of two consecutive steps.
    Between { from: ([u32; 3], [u32; 4]), to: ([u32; 3], [u32; 4]) },
    /// The newest pose.
    Newest { pose: ([u32; 3], [u32; 4]) },
}

/// What a frame shows of a body at the step `base`: the poses of that step and the next where the
/// ring holds both, and else the newest.
pub open spec fn sampled(ring: crate::pose_ring::RingView, base: u32) -> Sample {
    let from = ring.reading(base);
    let to = ring.reading((base + 1) as u32);
    if from is Some && to is Some {
        Sample::Between { from: from->0, to: to->0 }
    } else {
        Sample::Newest { pose: ring.reading(ring.latest)->0 }
    }
}

/// Samples a body's ring at the step `base`.
pub fn sample_ring(ring: &PoseRing, base: u32) -> (sample: Sample)
    requires
        ring@.seeded(),
        base < u32::MAX,
    ensures
        sample == sampled(ring@, base),
        ring@.reading(base) is Some && ring@.reading((base + 1) as u32) is Some ==> sample == (
        Sample::Between {
            from: ring@.reading(base)->0,
            to: ring@.reading((base + 1) as u32)->0,
        }),
        ring@.reading(base) is None || ring@.reading((base + 1) as u32) is None ==> {
            &&& sample is Newest
            &&& ring@.reading(ring@.latest) == Some(sample->pose)
        },
{
    let from = ring.read_step(base);
    let to = ring.read_step(base + 1);
    match (from, to) {
        (Some(from), Some(to)) => Sample::Between { from, to },
        _ => Sample::Newest { pose: ring.read_latest() },
    }
}

/// Reads the poses of the steps `base` and `base + 1` from the ring at `at` of shared memory, when
/// it holds both. `None` means to show the newest pose instead.
pub fn sample_pair(port: &mut Port, at: usize, base: u32) -> (pair: Option<
    (([u32; 3], [u32; 4]), ([u32; 3], [u32; 4])),
>)
    requires
        at + crate::shared_ring::RING_WORDS <= old(port).size(),
        base < u32::MAX,
    ensures
        exists|first: Seq<Attempt>, second: Seq<Attempt>|
            {
                &&& crate::seqlock::one_read(first)
                &&& crate::seqlock::one_read(second)
                &&& final(port).extends(
                    *old(port),
                    #[trigger] pair_events(at as int, base, first, second),
                )
                &&& pair == both(
                    crate::seqlock::read_outcome(first, base),
                    crate::seqlock::read_outcome(second, (base + 1) as u32),
                )
                &&& pair is Some <==> crate::seqlock::read_outcome(first, base) is Some
                    && crate::seqlock::read_outcome(second, (base + 1) as u32) is Some
                &&& pair matches Some(poses) ==> {
                    &&& crate::seqlock::read_outcome(first, base) == Some(poses.0)
                    &&& crate::seqlock::read_outcome(second, (base + 1) as u32) == Some(poses.1)
                }
            },
{
    let from = crate::shared_ring::read_step(port, at, base);
    let ghost mid = *port;
    let ghost first = choose|tries: Seq<Attempt>|
        crate::seqlock::one_read(tries) && from == crate::seqlock::read_outcome(tries, base)
            && mid.extends(
            *old(port),
            #[trigger] crate::seqlock::tries_events(
                crate::shared_ring::slot_at(at as int, base),
                tries,
            ),
        );
    let to = crate::shared_ring::read_step(port, at, base + 1);
    proof {
        let second = choose|tries: Seq<Attempt>|
            crate::seqlock::one_read(tries) && to == crate::seqlock::read_outcome(
                tries,
                (base + 1) as u32,
            ) && port.extends(
                mid,
                #[trigger] crate::seqlock::tries_events(
                    crate::shared_ring::slot_at(at as int, (base + 1) as u32),
                    tries,
                ),
            );
        assert(port.trace() =~= old(port).trace() + pair_events(at as int, base, first, second));
        assert(port.extends(*old(port), pair_events(at as int, base, first, second)));
    }
    match (from, to) {
        (Some(a), Some(b)) => Some((a, b)),
        _ => None,
    }
}

/// The accesses of a read of two consecutive steps.
pub open spec fn pair_events(
    at: int,
    base: u32,
    first: Seq<Attempt>,
    second: Seq<Attempt>,
) -> Seq<crate::shared::Event> {
    crate::seqlock::tries_events(crate::shared_ring::slot_at(at, base), first)
        + crate::seqlock::tries_events(
        crate::shared_ring::slot_at(at, (base + 1) as u32),
        second,
    )
}

/// Both values, if both are there.
pub open spec fn both<T>(a: Option<T>, b: Option<T>) -> Option<(T, T)> {
    if a is Some && b is Some {
        Some((a->0, b->0))
    } else {
        None
    }
}

/// Reads that nothing interferes with sample the ring: the pair is there exactly when
/// [`sample_ring`] blends, and then it is the pair that it blends.
pub proof fn undisturbed_sample(
    mem: Seq<u32>,
    at: int,
    ring: crate::pose_ring::RingView,
    base: u32,
    first: Seq<Attempt>,
    second: Seq<Attempt>,
)
    requires
        crate::shared_ring::holds_ring(mem, at, ring),
        base < u32::MAX,
        crate::seqlock::one_read(first),
        crate::seqlock::one_read(second),
        crate::shared::undisturbed(mem, pair_events(at, base, first, second)),
    ensures
        both(
            crate::seqlock::read_outcome(first, base),
            crate::seqlock::read_outcome(second, (base + 1) as u32),
        ) == both(ring.reading(base), ring.reading((base + 1) as u32)),
        match both(
            crate::seqlock::read_outcome(first, base),
            crate::seqlock::read_outcome(second, (base + 1) as u32),
        ) {
            Some((from, to)) => {
                &&& ring.reading(base) == Some(from)
                &&& ring.reading((base + 1) as u32) == Some(to)
                &&& sampled(ring, base) == (Sample::Between { from, to })
            },
            None => {
                &&& ring.reading(base) is None || ring.reading((base + 1) as u32) is None
                &&& sampled(ring, base) is Newest
            },
        },
{
    let a = crate::seqlock::tries_events(crate::shared_ring::slot_at(at, base), first);
    let b = crate::seqlock::tries_events(
        crate::shared_ring::slot_at(at, (base + 1) as u32),
        second,
    );
    crate::shared::run_of_two_parts(mem, a, b);
    crate::shared_ring::undisturbed_read_step(mem, at, ring, base, first);
    let slot = ring.slots[crate::pose_ring::slot_index(base)];
    crate::seqlock::undisturbed_read(
        mem,
        crate::shared_ring::slot_at(at, base),
        slot,
        first,
        base,
    );
    crate::shared_ring::undisturbed_read_step(mem, at, ring, (base + 1) as u32, second);
}

/// When the pair is not there and the latest pose is looked at with nothing interfering, the pose is
/// the one that [`sample_ring`] shows: the newest.
pub proof fn undisturbed_newest(
    mem: Seq<u32>,
    at: int,
    ring: crate::pose_ring::RingView,
    base: u32,
    latest: u32,
    tries: Seq<Attempt>,
)
    requires
        crate::shared_ring::holds_ring(mem, at, ring),
        ring.seeded(),
        base < u32::MAX,
        ring.reading(base) is None || ring.reading((base + 1) as u32) is None,
        crate::seqlock::one_read(tries),
        crate::shared::undisturbed(mem, crate::shared_ring::latest_events(at, latest, tries)),
    ensures
        crate::seqlock::read_outcome(tries, latest) is Some,
        sampled(ring, base) == (Sample::Newest {
            pose: crate::seqlock::read_outcome(tries, latest)->0,
        }),
{
    crate::shared_ring::undisturbed_read_latest(mem, at, ring, latest, tries);
}

/// A body is never shown from a pose that has nothing to do with the cursor: where the ring reads
/// nothing for the base step or nothing for the one after it, the sample is the newest pose, the
/// one that the ring's latest step reads; where it reads both, the sample blends these two.
pub proof fn missing_pose_shows_the_newest(ring: crate::pose_ring::RingView, base: u32)
    requires
        ring.seeded(),
        base < u32::MAX,
    ensures
        ring.reading(base) is None || ring.reading((base + 1) as u32) is None ==> {
            &&& sampled(ring, base) is Newest
            &&& ring.reading(ring.latest) == Some(sampled(ring, base)->pose)
        },
        ring.reading(base) is Some && ring.reading((base + 1) as u32) is Some ==> {
            &&& sampled(ring, base) is Between
            &&& ring.reading(base) == Some(sampled(ring, base)->from)
            &&& ring.reading((base + 1) as u32) == Some(sampled(ring, base)->to)
        },
{
}

/// A new ball appears where it was dropped. After its ring, at rest in any pose, was seeded with a
/// snap at `step`, a sample at any base shows the seeded pose and nothing else: at the step before
/// it blends that pose with itself, anywhere else the pose is the newest. The one exception is a
/// ball that is seeded at step two and sampled at step zero, which the ring still reads at rest.
pub proof fn new_ball_shows_its_seed(
    rest: ([u32; 3], [u32; 4]),
    step: u32,
    pos: [u32; 3],
    quat: [u32; 4],
    base: u32,
)
    requires
        base < u32::MAX,
        !(step == 2 && base == 0),
    ensures
        ({
            let ring = crate::pose_ring::empty_ring().wrote(0, rest.0, rest.1).snapped(
                step,
                pos,
                quat,
            );
            &&& base + 1 == step ==> sampled(ring, base) == (Sample::Between {
                from: (pos, quat),
                to: (pos, quat),
            })
            &&& base + 1 != step ==> sampled(ring, base) == (Sample::Newest { pose: (pos, quat) })
        }),
{
    let empty = crate::pose_ring::empty_ring();
    let resting = empty.wrote(0, rest.0, rest.1);
    let ring = resting.snapped(step, pos, quat);
    let before = step.wrapping_sub(1);
    let next = (base + 1) as u32;
    assert(empty.settled());
    crate::pose_ring::wrote_is_settled(empty, 0, rest.0, rest.1);
    crate::pose_ring::snap_covers_both_steps(resting, step, pos, quat);
    if base + 1 != step {
        // A step that was not written is not read.
        assert(step != next);
        if next == before {
            assert(base != step && base != before);
            if base != 0 {
                assert(empty.slots[crate::pose_ring::slot_index(base)].step
                    == crate::pose_ring::empty_tag(crate::pose_ring::slot_index(base)));
                assert(ring.reading(base) is None);
            }
        } else {
            assert(empty.slots[crate::pose_ring::slot_index(next)].step
                == crate::pose_ring::empty_tag(crate::pose_ring::slot_index(next)));
            assert(ring.reading(next) is None);
        }
    }
}

/// The cursor is held at most this many steps behind the newest one.
pub const CURSOR_WINDOW: u32 = 30;

/// A cursor that is held within [`CURSOR_WINDOW`] of the newest step finds its two poses in the
/// ring, unless it stands at the newest step itself: then there is no next one.
pub proof fn cursor_finds_its_poses(
    ring: crate::pose_ring::RingView,
    first: u32,
    poses: Seq<([u32; 3], [u32; 4])>,
    i: int,
)
    requires
        ring.settled(),
        poses.len() < 0x1_0000_0000,
        0 <= i < poses.len(),
        i >= poses.len() - 1 - CURSOR_WINDOW,
        first + poses.len() <= u32::MAX,
    ensures
        ({
            let now = ring.published_run(first, poses);
            let base = (first + i) as u32;
            &&& i + 1 < poses.len() ==> sampled(now, base) == (Sample::Between {
                from: poses[i],
                to: poses[i + 1],
            })
            &&& i + 1 == poses.len() && poses.len() >= 32 ==> sampled(now, base)
                == (Sample::Newest { pose: poses[i] })
        }),
{
    crate::pose_ring::ring_keeps_the_last_poses(ring, first, poses, i);
    let now = ring.published_run(first, poses);
    let base = (first + i) as u32;
    assert(crate::pose_ring::run_step(first, i) == base);
    if i + 1 < poses.len() {
        crate::pose_ring::ring_keeps_the_last_poses(ring, first, poses, i + 1);
        assert(crate::pose_ring::run_step(first, i + 1) == base + 1);
    } else if poses.len() >= 32 {
        let k = i - 31;
        crate::pose_ring::ring_keeps_the_last_poses(ring, first, poses, k);
        let old_step = crate::pose_ring::run_step(first, k);
        let next = (base + 1) as u32;
        assert(old_step == first + k);
        assert(crate::pose_ring::slot_index(old_step) == crate::pose_ring::slot_index(next));
        assert(now.reading(old_step) == Some(poses[k]));
        assert(now.slots[crate::pose_ring::slot_index(next)].step == old_step);
        assert(now.reading(next) is None);
    }
}

/// Frames between two reports.
pub const REPORT_EVERY: u32 = 60;

/// Sync statistics: how many steps each frame got, and how far the cursor was off.
#[derive(Clone, Copy, Debug, PartialEq, Eq)]
pub struct SyncStats {
    /// Frames by their number of steps; the last bucket counts everything higher.
    pub buckets: [u32; 11],
    /// Least and greatest cursor error (float bits).
    pub err_min: u32,
    pub err_max: u32,
    pub frames: u32,
}

/// A report on [`REPORT_EVERY`] frames.
#[derive(Debug, PartialEq, Eq)]
pub struct SyncReport {
    /// `steps:frames` for every number of steps that occurred.
    pub histogram: String,
    pub err_min: u32,
    pub err_max: u32,
}

/// The statistics of no frame.
pub open spec fn no_stats() -> SyncStats {
    SyncStats { buckets: [0u32, 0, 0, 0, 0, 0, 0, 0, 0, 0, 0], err_min: 0, err_max: 0, frames: 0 }
}

/// The bucket of a number of steps.
pub open spec fn bucket(steps: u32) -> int {
    if steps < 10 {
        steps as int
    } else {
        10
    }
}

/// The part of the histogram for one number of steps.
pub open spec fn entry(steps: int, count: u32) -> Seq<char> {
    crate::text::decimal(steps as nat) + ":"@ + crate::text::decimal(count as nat)
}

/// The histogram of the first `n` buckets: the entries of those that are not empty, with blanks
/// between them.
pub open spec fn histogram(buckets: Seq<u32>, n: nat) -> Seq<char>
    decreases n,
{
    if n == 0 {
        Seq::empty()
    } else {
        let before = histogram(buckets, (n - 1) as nat);
        let count = buckets[n - 1];
        if count == 0 {
            before
        } else if before.len() == 0 {
            entry(n - 1, count)
        } else {
            before + " "@ + entry(n - 1, count)
        }
    }
}

/// All the frames that the buckets count.
pub open spec fn total(buckets: Seq<u32>) -> int
    decreases buckets.len(),
{
    if buckets.len() == 0 {
        0
    } else {
        total(buckets.drop_last()) + buckets.last()
    }
}

/// One more frame in one bucket is one more frame in all, and no bucket counts more than all do.
pub proof fn frame_counts_once(buckets: Seq<u32>, i: int)
    requires
        0 <= i < buckets.len(),
        buckets[i] < u32::MAX,
    ensures
        total(buckets.update(i, (buckets[i] + 1) as u32)) == total(buckets) + 1,
        buckets[i] <= total(buckets),
    decreases buckets.len(),
{
    let more = buckets.update(i, (buckets[i] + 1) as u32);
    total_is_not_negative(buckets.drop_last());
    if i == buckets.len() - 1 {
        assert(more.drop_last() =~= buckets.drop_last());
    } else {
        frame_counts_once(buckets.drop_last(), i);
        assert(more.drop_last() =~= buckets.drop_last().update(i, (buckets[i] + 1) as u32));
    }
}

/// Counting never goes below nothing.
proof fn total_is_not_negative(buckets: Seq<u32>)
    ensures
        total(buckets) >= 0,
    decreases buckets.len(),
{
    if buckets.len() > 0 {
        total_is_not_negative(buckets.drop_last());
    }
}

/// Empty buckets count nothing.
proof fn total_of_none(buckets: Seq<u32>)
    requires
        forall|i: int| 0 <= i < buckets.len() ==> #[trigger] buckets[i] == 0,
    ensures
        total(buckets) == 0,
    decreases buckets.len(),
{
    if buckets.len() > 0 {
        assert forall|i: int| 0 <= i < buckets.drop_last().len() implies #[trigger]
            buckets.drop_last()[i] == 0 by {
            assert(buckets[i] == 0);
        }
        total_of_none(buckets.drop_last());
        assert(buckets[buckets.len() - 1] == 0);
    }
}

/// A frame is counted in the bucket of its number of steps, those of ten and more in the last one,
/// and in no other.
pub proof fn frame_lands_in_its_bucket(stats: SyncStats, steps: u32, i: int)
    requires
        stats.wf(),
        0 <= i < 11,
    ensures
        stats.counted(steps).len() == 11,
        stats.counted(steps)[i] == stats.buckets@[i] + (if i == steps || i == 10 && steps > 10 {
            1int
        } else {
            0int
        }),
{
    assert(stats.buckets@[i] <= stats.frames);
}

/// The errors of a report bound those of its frames: the first frame sets both, and each later one
/// moves the least down to it or the greatest up to it, or leaves them. What is no number does not
/// count as long as there is a number.
pub proof fn reported_errors_bound_every_frame(stats: SyncStats, err: u32)
    ensures
        stats.frames == 0 ==> stats.least_err(err) == err && stats.greatest_err(err) == err,
        stats.frames > 0 && crate::bits::is_nan(err) && !crate::bits::is_nan(stats.err_min)
            ==> stats.least_err(err) == stats.err_min,
        stats.frames > 0 && crate::bits::is_nan(err) && !crate::bits::is_nan(stats.err_max)
            ==> stats.greatest_err(err) == stats.err_max,
        stats.frames > 0 && crate::bits::is_nan(stats.err_min) ==> stats.least_err(err) == err,
        stats.frames > 0 && crate::bits::is_nan(stats.err_max) ==> stats.greatest_err(err) == err,
        !crate::bits::is_nan(err) ==> crate::bits::value(stats.least_err(err))
            <= crate::bits::value(err) <= crate::bits::value(stats.greatest_err(err)),
        stats.frames > 0 && !crate::bits::is_nan(err) && !crate::bits::is_nan(stats.err_min)
            && !crate::bits::is_nan(stats.err_max) ==> {
            &&& crate::bits::value(stats.least_err(err)) <= crate::bits::value(stats.err_min)
            &&& crate::bits::value(stats.err_max) <= crate::bits::value(stats.greatest_err(err))
            &&& stats.least_err(err) == stats.err_min || stats.least_err(err) == err
            &&& stats.greatest_err(err) == stats.err_max || stats.greatest_err(err) == err
        },
{
}

/// A histogram names every number of steps that occurred, with its count, in order and with blanks
/// between; numbers that did not occur leave no trace.
pub proof fn histogram_names_what_occurred(buckets: Seq<u32>, n: nat, i: int)
    requires
        0 <= i < n <= buckets.len(),
    ensures
        buckets[i] != 0 ==> crate::text::occurs(
            histogram(buckets, n),
            crate::text::decimal(i as nat) + ":"@ + crate::text::decimal(buckets[i] as nat),
        ),
        histogram(buckets, n).len() == 0 <==> forall|j: int|
            0 <= j < n ==> #[trigger] buckets[j] == 0,
        ({
            let before = histogram(buckets, (n - 1) as nat);
            let last = crate::text::decimal((n - 1) as nat) + ":"@ + crate::text::decimal(
                buckets[n - 1] as nat,
            );
            &&& buckets[n - 1] == 0 ==> histogram(buckets, n) == before
            &&& buckets[n - 1] != 0 && before.len() == 0 ==> histogram(buckets, n) == last
            &&& buckets[n - 1] != 0 && before.len() > 0 ==> histogram(buckets, n) == before + " "@
                + last
        }),
    decreases n,
{
    let before = histogram(buckets, (n - 1) as nat);
    let count = buckets[n - 1];
    let last = entry(n - 1, count);
    reveal_strlit(":");
    assert(last.len() >= 1);
    if n > 1 {
        histogram_names_what_occurred(buckets, (n - 1) as nat, if i < n - 1 { i } else { 0 });
    }
    if before.len() == 0 {
        assert(Seq::<char>::empty() + last + Seq::<char>::empty() =~= last);
        crate::text::parts_occur(Seq::empty(), last, Seq::empty());
    } else {
        assert(before + " "@ + last + Seq::<char>::empty() =~= before + " "@ + last);
        crate::text::parts_occur(before + " "@, last, Seq::empty());
    }
    if i < n - 1 && buckets[i] != 0 {
        let this = entry(i, buckets[i]);
        assert(before + (" "@ + last) =~= before + " "@ + last);
        crate::text::parts_occur(before, this, " "@ + last);
    }
}

impl SyncStats {
    /// No report is overdue, and every frame is counted in one bucket.
    pub open spec fn wf(self) -> bool {
        &&& self.frames < REPORT_EVERY
        &&& total(self.buckets@) == self.frames
        &&& forall|i: int| 0 <= i < 11 ==> #[trigger] self.buckets@[i] <= self.frames
    }

    /// The buckets with one more frame.
    pub open spec fn counted(self, steps: u32) -> Seq<u32> {
        self.buckets@.update(bucket(steps), (self.buckets@[bucket(steps)] + 1) as u32)
    }

    /// The least error with one more frame.
    pub open spec fn least_err(self, err: u32) -> u32 {
        if self.frames == 0 {
            err
        } else {
            crate::bits::least(self.err_min, err)
        }
    }

    /// The greatest error with one more frame.
    pub open spec fn greatest_err(self, err: u32) -> u32 {
        if self.frames == 0 {
            err
        } else {
            crate::bits::greatest(self.err_max, err)
        }
    }

    /// The statistics of no frame.
    pub fn new() -> (stats: SyncStats)
        ensures
            stats == no_stats(),
            stats.wf(),
    {
        let stats = SyncStats {
            buckets: [0, 0, 0, 0, 0, 0, 0, 0, 0, 0, 0],
            err_min: 0,
            err_max: 0,
            frames: 0,
        };
        proof {
            total_of_none(stats.buckets@);
        }
        stats
    }

    /// Takes in a frame. Every [`REPORT_EVERY`] frames there is a report, and the statistics start
    /// over.
    pub fn record(&mut self, steps: u32, err: u32) -> (report: Option<SyncReport>)
        requires
            old(self).wf(),
        ensures
            final(self).wf(),
            report is Some <==> old(self).frames + 1 == REPORT_EVERY,
            report is None ==> {
                &&& final(self).buckets@ == old(self).counted(steps)
                &&& forall|i: int|
                    0 <= i < 11 ==> #[trigger] final(self).buckets@[i] == old(self).buckets@[i] + (
                    if i == steps || i == 10 && steps > 10 {
                        1int
                    } else {
                        0int
                    })
                &&& final(self).err_min == old(self).least_err(err)
                &&& final(self).err_max == old(self).greatest_err(err)
                &&& final(self).frames == old(self).frames + 1
            },
            report matches Some(r) ==> {
                &&& r.histogram@ == histogram(old(self).counted(steps), 11)
                &&& r.err_min == old(self).least_err(err)
                &&& r.err_max == old(self).greatest_err(err)
                &&& *final(self) == no_stats()
            },
    {
        let b: usize = if steps < 10 {
            steps as usize
        } else {
            10
        };
        let count: u32 = self.buckets[b];
        proof {
            frame_counts_once(self.buckets@, b as int);
        }
        self.buckets[b] = count + 1;
        if self.frames == 0 {
            self.err_min = err;
            self.err_max = err;
        } else {
            self.err_min = float_min(self.err_min, err);
            self.err_max = float_max(self.err_max, err);
        }
        self.frames = self.frames + 1;
        if self.frames >= REPORT_EVERY {
            let report = SyncReport {
                histogram: histogram_text(&self.buckets),
                err_min: self.err_min,
                err_max: self.err_max,
            };
            *self = SyncStats::new();
            Some(report)
        } else {
            None
        }
    }
}

impl Default for SyncStats {
    fn default() -> (stats: SyncStats)
        ensures
            stats == no_stats(),
            stats.wf(),
    {
        Self::new()
    }
}

/// The histogram as text.
fn histogram_text(buckets: &[u32; 11]) -> (text: String)
    ensures
        text@ == histogram(buckets@, 11),
{
    let mut text = String::new();
    let mut empty: bool = true;
    proof {
        reveal_strlit(" ");
        reveal_strlit(":");
    }
    for i in 0..11
        invariant
            text@ == histogram(buckets@, i as nat),
            empty == (text@.len() == 0),
            " "@.len() == 1,
    {
        let count: u32 = buckets[i];
        if count > 0 {
            if !empty {
                text.append(" ");
            }
            let ghost before = text@;
            text.append(decimal_text(i as u64).as_str());
            text.append(":");
            text.append(decimal_text(count as u64).as_str());
            empty = false;
            proof {
                assert(text@ =~= before + entry(i as int, count));
                reveal_strlit(":");
                assert(entry(i as int, count).len() >= 1);
            }
        }
    }
    text
}

/// Whether frames may touch the renderer, and the anti-aliasing change that waits.
#[derive(Clone, Copy, Debug, PartialEq, Eq)]
pub struct FrameGate {
    /// A change is being compiled, and has the renderer.
    pub reconfiguring: bool,
    /// The change that was asked for last.
    pub pending: Option<(bool, bool)>,
}

/// What a frame does.
#[derive(Clone, Copy, Debug, PartialEq, Eq)]
pub enum FrameAction {
    /// Nothing: the renderer is away.
    Skip,
    /// Hand the renderer to an anti-aliasing change.
    Reconfigure { msaa: bool, smaa: bool },
    Render,
}

impl FrameGate {
    /// Frames render, and no change waits.
    pub fn new() -> (gate: FrameGate)
        ensures
            gate == (FrameGate { reconfiguring: false, pending: None }),
    {
        FrameGate { reconfiguring: false, pending: None }
    }

    /// A change was asked for; it takes the place of one that waits.
    pub fn request(&mut self, msaa: bool, smaa: bool)
        ensures
            *final(self) == (FrameGate { pending: Some((msaa, smaa)), ..*old(self) }),
    {
        self.pending = Some((msaa, smaa));
    }

    /// What this frame does.
    pub fn next_frame(&mut self) -> (action: FrameAction)
        ensures
            action == (if old(self).reconfiguring {
                FrameAction::Skip
            } else {
                match old(self).pending {
                    Some((msaa, smaa)) => FrameAction::Reconfigure { msaa, smaa },
                    None => FrameAction::Render,
                }
            }),
            *final(self) == (if action is Reconfigure {
                FrameGate { reconfiguring: true, pending: None }
            } else {
                *old(self)
            }),
    {
        if self.reconfiguring {
            return FrameAction::Skip;
        }
        match self.pending {
            Some((msaa, smaa)) => {
                self.reconfiguring = true;
                self.pending = None;
                FrameAction::Reconfigure { msaa, smaa }
            },
            None => FrameAction::Render,
        }
    }

    /// The change is over, and the renderer is back.
    pub fn reconfigured(&mut self)
        ensures
            *final(self) == (FrameGate { reconfiguring: false, ..*old(self) }),
    {
        self.reconfiguring = false;
    }
}

/// A [`FrameGate`] after several requests, one after the other.
pub open spec fn after_requests(gate: FrameGate, requests: Seq<(bool, bool)>) -> FrameGate
    decreases requests.len(),
{
    if requests.len() == 0 {
        gate
    } else {
        FrameGate {
            pending: Some(requests.last()),
            ..after_requests(gate, requests.drop_last())
        }
    }
}

/// Rapid toggles coalesce: of the changes that were asked for between two frames only the last one
/// is made.
pub proof fn toggles_coalesce(gate: FrameGate, requests: Seq<(bool, bool)>)
    requires
        requests.len() > 0,
    ensures
        after_requests(gate, requests) == (FrameGate { pending: Some(requests.last()), ..gate }),
    decreases requests.len(),
{
    if requests.len() > 1 {
        toggles_coalesce(gate, requests.drop_last());
    } else {
        assert(after_requests(gate, requests.drop_last()) == gate);
    }
}

/// Keeps repeated progress lines off the loading screen.
#[derive(Debug, PartialEq, Eq)]
pub struct ProgressFilter {
    /// Whether lines about nothing (`0/0`) are left out too.
    pub skip_empty: bool,
    /// The line that was let through last.
    pub last: String,
}

impl ProgressFilter {
    /// A filter that has let nothing through.
    pub fn new(skip_empty: bool) -> (filter: ProgressFilter)
        ensures
            filter.skip_empty == skip_empty,
            filter.last@ == Seq::<char>::empty(),
    {
        ProgressFilter { skip_empty, last: String::new() }
    }

    /// Whether to show the line: it differs from the one shown last and is about something.
    pub fn passes(&mut self, line: &str) -> (show: bool)
        ensures
            show == (line@ != old(self).last@ && !(old(self).skip_empty && crate::text::occurs(
                line@,
                "0/0"@,
            ))),
            final(self).skip_empty == old(self).skip_empty,
            final(self).last@ == (if show {
                line@
            } else {
                old(self).last@
            }),
    {
        if same(line, self.last.as_str()) {
            return false;
        }
        if self.skip_empty && contains(line, "0/0") {
            return false;
        }
        self.last = String::from_str(line);
        true
    }
}

/// The renderer's anti-aliasing settings.
#[derive(Clone, Copy, Debug, PartialEq, Eq)]
pub struct AaConfig {
    pub msaa_sample_count: Option<u32>,
    pub smaa: bool,
    pub mipmap: bool,
}

/// The renderer's settings for the two toggles: four samples or none, the post pass, and always
/// mipmaps.
pub fn aa_config(aa: (bool, bool)) -> (config: AaConfig)
    ensures
        config == (AaConfig {
            msaa_sample_count: if aa.0 {
                Some(4u32)
            } else {
                None
            },
            smaa: aa.1,
            mipmap: true,
        }),
{
    AaConfig {
        msaa_sample_count: if aa.0 {
            Some(4)
        } else {
            None
        },
        smaa: aa.1,
        mipmap: true,
    }
}

/// The texture size that every device offers.
pub const GUARANTEED_TEXTURE_DIM: u32 = 8192;

/// What to tell main about the GPU: what the adapter said or, where there was none, that it is no
/// fallback and offers what every device offers.
pub fn gpu_info(probed: Option<(bool, u32)>) -> (msg: RenderMsg)
    ensures
        msg == (match probed {
            Some((is_fallback, max_texture_dim)) => RenderMsg::GpuInfo {
                is_fallback,
                max_texture_dim,
            },
            None => RenderMsg::GpuInfo {
                is_fallback: false,
                max_texture_dim: GUARANTEED_TEXTURE_DIM,
            },
        }),
{
    match probed {
        Some((is_fallback, max_texture_dim)) => RenderMsg::GpuInfo {
            is_fallback,
            max_texture_dim,
        },
        None => RenderMsg::GpuInfo {
            is_fallback: false,
            max_texture_dim: GUARANTEED_TEXTURE_DIM,
        },
    }
}

/// The radius of the ball that clicks drop, as render knows it (bits of `0.5` when the player's
/// collider is no sphere or there is none).
pub fn ball_radius(colliders: &Vec<ColliderInit>) -> (radius: u32)
    ensures
        exists|i: int|
            #[trigger] first_dynamic(colliders@, i) && radius == sphere_radius(colliders@, i),
        (forall|j: int| 0 <= j < colliders@.len() ==> !(#[trigger] colliders@[j]).dynamic) ==> radius
            == 0x3f00_0000,
        forall|i: int|
            #![trigger colliders@[i]]
            0 <= i < colliders@.len() && colliders@[i].dynamic && (forall|j: int|
                0 <= j < i ==> !(#[trigger] colliders@[j]).dynamic) ==> radius == (
            match colliders@[i].shape {
                ColliderShapeMsg::Ball { radius } => radius,
                _ => 0x3f00_0000,
            }),
{
    for i in 0..colliders.len()
        invariant
            forall|j: int| 0 <= j < i ==> !(#[trigger] colliders@[j]).dynamic,
    {
        if colliders[i].dynamic {
            assert(first_dynamic(colliders@, i as int));
            return match colliders[i].shape {
                ColliderShapeMsg::Ball { radius } => radius,
                _ => crate::physics_thread::DEFAULT_RADIUS,
            };
        }
    }
    assert(first_dynamic(colliders@, colliders@.len() as int));
    crate::physics_thread::DEFAULT_RADIUS
}

/// The collider at `i` is the first dynamic one, or `i` is the number of colliders and none is.
pub open spec fn first_dynamic(colliders: Seq<ColliderInit>, i: int) -> bool {
    &&& 0 <= i <= colliders.len()
    &&& i < colliders.len() ==> colliders[i].dynamic
    &&& forall|j: int| 0 <= j < i ==> !(#[trigger] colliders[j]).dynamic
}

/// The radius of the collider at `i`, if it is a sphere.
pub open spec fn sphere_radius(colliders: Seq<ColliderInit>, i: int) -> u32 {
    if i < colliders.len() {
        match colliders[i].shape {
            ColliderShapeMsg::Ball { radius } => radius,
            _ => crate::physics_thread::DEFAULT_RADIUS,
        }
    } else {
        crate::physics_thread::DEFAULT_RADIUS
    }
}

/// There is only one first dynamic collider, so the two threads agree on the ball: the radius that
/// render drops balls with is the one that physics takes from the ball's collider, and the default
/// (`0.5`) where that is no sphere or there is none.
pub proof fn threads_agree_on_the_radius(colliders: Seq<ColliderInit>, i: int, k: int)
    requires
        first_dynamic(colliders, i),
        first_dynamic(colliders, k),
    ensures
        i == k,
        i < colliders.len() ==> colliders[i].dynamic && sphere_radius(colliders, i) == (
        match colliders[i].shape {
            ColliderShapeMsg::Ball { radius } => radius,
            _ => 0x3f00_0000,
        }),
        i == colliders.len() ==> sphere_radius(colliders, i) == 0x3f00_0000 && forall|j: int|
            0 <= j < colliders.len() ==> !(#[trigger] colliders[j]).dynamic,
{
    if i < k {
        assert(!colliders[i].dynamic);
    } else if k < i {
        assert(!colliders[k].dynamic);
    }
}

/// What physics is started with. Main owns the keyboard and fills in the input block's address.
pub fn physics_init(
    colliders: Vec<ColliderInit>,
    spawn: [u32; 3],
    motion_ptr: usize,
    balls_ptr: usize,
) -> (init: PhysicsInit)
    ensures
        init == (PhysicsInit { colliders, spawn, motion_ptr, input_ptr: 0, balls_ptr }),
{
    PhysicsInit { colliders, spawn, motion_ptr, input_ptr: 0, balls_ptr }
}

/// A message from main.
#[derive(Clone, Copy, Debug, PartialEq, Eq)]
pub enum RenderInput {
    Quality(QualityMsg),
    Resize(ResizeMsg),
    Drop(DropMsg),
    Camera(CameraMsg),
    /// None of these.
    Unknown,
}

/// What a message from main asks for.
#[derive(Clone, Copy, Debug, PartialEq, Eq)]
pub enum InputAction {
    Nothing,
    /// Keep this anti-aliasing for the next frame.
    SetAntiAlias { msaa: bool, smaa: bool },
    /// Give the canvas this backing size.
    SetCanvas { width: u32, height: u32 },
    /// Cast a ray through this point of the canvas onto the tabletop.
    Unproject { ndc_x: u32, ndc_y: u32, half_extents: [u32; 3], translation: [u32; 3] },
    Orbit { dx: u32, dy: u32 },
    Zoom { dy: u32 },
}

/// What a message from main asks for: an empty canvas size is ignored, and so is a click when the
/// scene has no floor.
pub fn render_input(msg: RenderInput, floor: Option<([u32; 3], [u32; 3])>) -> (action: InputAction)
    ensures
        action == (match msg {
            RenderInput::Quality(QualityMsg::AntiAlias { msaa, smaa }) => {
                InputAction::SetAntiAlias { msaa, smaa }
            },
            RenderInput::Resize(ResizeMsg::Canvas { width, height }) => if width > 0 && height
                > 0 {
                InputAction::SetCanvas { width, height }
            } else {
                InputAction::Nothing
            },
            RenderInput::Drop(DropMsg::Ball { ndc_x, ndc_y }) => match floor {
                Some((half_extents, translation)) => InputAction::Unproject {
                    ndc_x,
                    ndc_y,
                    half_extents,
                    translation,
                },
                None => InputAction::Nothing,
            },
            RenderInput::Camera(CameraMsg::Orbit { dx, dy }) => InputAction::Orbit { dx, dy },
            RenderInput::Camera(CameraMsg::Zoom { dy }) => InputAction::Zoom { dy },
            RenderInput::Unknown => InputAction::Nothing,
        }),
{
    match msg {
        RenderInput::Quality(QualityMsg::AntiAlias { msaa, smaa }) => InputAction::SetAntiAlias {
            msaa,
            smaa,
        },
        RenderInput::Resize(ResizeMsg::Canvas { width, height }) => {
            if width > 0 && height > 0 {
                InputAction::SetCanvas { width, height }
            } else {
                InputAction::Nothing
            }
        },
        RenderInput::Drop(DropMsg::Ball { ndc_x, ndc_y }) => {
            match floor {
                Some((half_extents, translation)) => InputAction::Unproject {
                    ndc_x,
                    ndc_y,
                    half_extents,
                    translation,
                },
                None => InputAction::Nothing,
            }
        },
        RenderInput::Camera(CameraMsg::Orbit { dx, dy }) => InputAction::Orbit { dx, dy },
        RenderInput::Camera(CameraMsg::Zoom { dy }) => InputAction::Zoom { dy },
        RenderInput::Unknown => InputAction::Nothing,
    }
}

/// A ray this flat (bits of `1e-6`) does not meet the tabletop.
pub const GRAZING: u32 = 0x3586_37bd;

/// Where a click's ray met the tabletop's plane, and the table's interior (float bits).
#[derive(Clone, Copy, Debug, PartialEq, Eq)]
pub struct TableHit {
    /// The vertical part of the ray's direction.
    pub dir_y: u32,
    /// How far along the ray the plane lies.
    pub t: u32,
    pub x: u32,
    pub z: u32,
    pub x_range: (u32, u32),
    pub z_range: (u32, u32),
}

impl TableHit {
    /// The table has an interior.
    pub open spec fn wf(self) -> bool {
        &&& !crate::bits::is_nan(self.x_range.0) && !crate::bits::is_nan(self.x_range.1)
        &&& !crate::bits::is_nan(self.z_range.0) && !crate::bits::is_nan(self.z_range.1)
        &&& !crate::bits::less(self.x_range.1, self.x_range.0)
        &&& !crate::bits::less(self.z_range.1, self.z_range.0)
    }

    /// The ray goes the table's way: it is not too flat, and the plane does not lie behind the
    /// camera.
    pub open spec fn usable(self) -> bool {
        &&& !crate::bits::less(crate::bits::magnitude(self.dir_y), GRAZING)
        &&& !(!crate::bits::is_nan(self.t) && crate::bits::value(self.t) <= 0)
    }

    /// Whether the ray goes the table's way.
    pub fn is_usable(&self) -> (r: bool)
        ensures
            r == self.usable(),
            crate::bits::less(crate::bits::magnitude(self.dir_y), GRAZING) ==> !r,
            !crate::bits::less(crate::bits::magnitude(self.dir_y), GRAZING) && (crate::bits::is_nan(
                self.t,
            ) || crate::bits::value(self.t) > 0) ==> r,
            !crate::bits::is_nan(self.t) && crate::bits::value(self.t) <= 0 ==> !r,
    {
        if float_less(crate::scene::float_abs(self.dir_y), GRAZING) {
            return false;
        }
        let mag: u32 = crate::scene::float_abs(self.t);
        !(mag <= crate::bits::INFINITY_BITS && !float_less(0, self.t))
    }
}

/// Where a click drops its ball: the point where its ray meets the table, held inside the rails;
/// nothing for a click into the sky.
pub fn drop_point(hit: &TableHit) -> (point: Option<(u32, u32)>)
    requires
        hit.usable() ==> hit.wf(),
    ensures
        point == (if hit.usable() {
            Some(
                (
                    crate::bits::clamped(hit.x, hit.x_range.0, hit.x_range.1),
                    crate::bits::clamped(hit.z, hit.z_range.0, hit.z_range.1),
                ),
            )
        } else {
            None
        }),
        crate::bits::less(crate::bits::magnitude(hit.dir_y), GRAZING) ==> point is None,
        !crate::bits::is_nan(hit.t) && crate::bits::value(hit.t) <= 0 ==> point is None,
        !crate::bits::less(crate::bits::magnitude(hit.dir_y), GRAZING) && (crate::bits::is_nan(
            hit.t,
        ) || crate::bits::value(hit.t) > 0) ==> point is Some,
        point matches Some(p) ==> {
            &&& crate::bits::held_within(p.0, hit.x, hit.x_range)
            &&& crate::bits::held_within(p.1, hit.z, hit.z_range)
        },
{
    if !hit.is_usable() {
        return None;
    }
    proof {
        if !crate::bits::is_nan(hit.x) {
            crate::bits::clamped_lies_between(hit.x, hit.x_range.0, hit.x_range.1);
        }
        if !crate::bits::is_nan(hit.z) {
            crate::bits::clamped_lies_between(hit.z, hit.z_range.0, hit.z_range.1);
        }
    }
    Some(
        (
            float_clamp(hit.x, hit.x_range.0, hit.x_range.1),
            float_clamp(hit.z, hit.z_range.0, hit.z_range.1),
        ),
    )
}

/// A click drops a ball exactly when its ray is steep enough and does not point away from the
/// table: of the rays at least as steep as the limit (`1e-6`), one that meets the plane at a number
/// greater than zero always does, and one that meets it at zero or behind the camera never does. How
/// far along the ray the plane lies does not matter otherwise.
pub proof fn clicks_ahead_drop_a_ball(hit: TableHit, nearer: TableHit)
    requires
        !crate::bits::is_nan(hit.t),
        !crate::bits::is_nan(hit.dir_y),
    ensures
        hit.usable() <==> crate::bits::value(hit.t) > 0 && (crate::bits::value(hit.dir_y)
            >= crate::bits::value(0x3586_37bdu32) || crate::bits::value(hit.dir_y)
            <= -crate::bits::value(0x3586_37bdu32)),
        nearer.dir_y == hit.dir_y && !crate::bits::is_nan(nearer.t) && crate::bits::value(nearer.t)
            > 0 && crate::bits::value(hit.t) > 0 ==> hit.usable() == nearer.usable(),
{
}

/// A dropped ball lands inside the rails.
pub proof fn drops_land_on_the_table(hit: TableHit)
    requires
        hit.wf(),
        !crate::bits::is_nan(hit.x),
        !crate::bits::is_nan(hit.z),
    ensures
        crate::bits::value(hit.x_range.0) <= crate::bits::value(
            crate::bits::clamped(hit.x, hit.x_range.0, hit.x_range.1),
        ) <= crate::bits::value(hit.x_range.1),
        crate::bits::value(hit.z_range.0) <= crate::bits::value(
            crate::bits::clamped(hit.z, hit.z_range.0, hit.z_range.1),
        ) <= crate::bits::value(hit.z_range.1),
{
    crate::bits::clamped_lies_between(hit.x, hit.x_range.0, hit.x_range.1);
    crate::bits::clamped_lies_between(hit.z, hit.z_range.0, hit.z_range.1);
}

/// The player's look among the ball's material variants: the first one with its name.
pub fn player_variant(names: &Vec<String>) -> (index: Option<usize>)
    ensures
        match index {
            Some(i) => i < names@.len() && names@[i as int]@ == "Ball_Player_Red"@ && forall|j: int|
                0 <= j < i ==> (#[trigger] names@[j])@ != "Ball_Player_Red"@,
            None => forall|j: int|
                0 <= j < names@.len() ==> (#[trigger] names@[j])@ != "Ball_Player_Red"@,
        },
        index matches Some(i) ==> no_player_among(names@, i as int),
        index is None ==> no_player_among(names@, names@.len() as int),
{
    for i in 0..names.len()
        invariant
            forall|j: int| 0 <= j < i ==> (#[trigger] names@[j])@ != "Ball_Player_Red"@,
    {
        if same(names[i].as_str(), "Ball_Player_Red") {
            return Some(i);
        }
    }
    None
}

/// None of the first `n` names is the player's.
pub open spec fn no_player_among(names: Seq<String>, n: int) -> bool {
    forall|j: int| 0 <= j < n ==> (#[trigger] names[j])@ != "Ball_Player_Red"@
}

/// The next ball that has no visual yet, when `minted` have one and physics counts `count`.
pub fn next_to_mint(minted: usize, count: usize) -> (index: Option<usize>)
    ensures
        index == (if minted < count {
            Some(minted)
        } else {
            None
        }),
{
    if minted < count {
        Some(minted)
    } else {
        None
    }
}

/// The render loop's counters.
#[derive(Clone, Copy, Debug, PartialEq, Eq)]
pub struct FrameClock {
    /// Frames presented, wrapping.
    pub frames: u32,
    /// The newest step that the last frame saw.
    pub last_step: u32,
}

/// The frame at which the scene counts as ready.
pub const READY_FRAME: u32 = 3;

impl FrameClock {
    /// Nothing presented, nothing seen.
    pub fn new() -> (clock: FrameClock)
        ensures
            clock == (FrameClock { frames: 0, last_step: 0 }),
    {
        FrameClock { frames: 0, last_step: 0 }
    }

    /// The steps that were published since the last frame.
    pub fn steps_since(&mut self, latest: u32) -> (steps: u32)
        ensures
            steps == latest.wrapping_sub(old(self).last_step),
            *final(self) == (FrameClock { last_step: latest, ..*old(self) }),
    {
        let steps: u32 = latest.wrapping_sub(self.last_step);
        self.last_step = latest;
        steps
    }

    /// A frame was presented; whether it is the one that makes the scene ready.
    pub fn presented(&mut self) -> (ready: bool)
        ensures
            final(self).frames == old(self).frames.wrapping_add(1),
            final(self).last_step == old(self).last_step,
            ready == (final(self).frames == READY_FRAME),
    {
        self.frames = self.frames.wrapping_add(1);
        self.frames == READY_FRAME
    }
}

/// Where the scene's files are: the bundle directory of the origin.
pub fn bundle_base(origin: &str) -> (url: String)
    ensures
        url@ == crate::text::without_end_slashes(origin@) + "/bundle"@,
{
    let base = trim_end_slashes(origin);
    join(base.as_str(), "/bundle")
}

/// Where the scene is.
pub fn scene_url(bundle_base: &str) -> (url: String)
    ensures
        url@ == bundle_base@ + "/scene.toml"@,
{
    join(bundle_base, "/scene.toml")
}

/// Where the texture codec's worker and its transcoder are: next to the app.
pub fn basis_urls(app_base: &str) -> (urls: (String, String))
    ensures
        urls.0@ == crate::text::without_end_slashes(app_base@) + "/workers/basis-worker.js"@,
        urls.1@ == crate::text::without_end_slashes(app_base@)
            + "/vendor/basis/basis_transcoder.js"@,
{
    let base = trim_end_slashes(app_base);
    (
        join(base.as_str(), "/workers/basis-worker.js"),
        join(base.as_str(), "/vendor/basis/basis_transcoder.js"),
    )
}

/// The report that a scene could not be loaded.
pub fn scene_load_error(scene_url: &str, error: &str) -> (text: String)
    ensures
        text@ == "load scene "@ + scene_url@ + ": "@ + error@,
{
    let mut text = join("load scene ", scene_url);
    text.append(": ");
    text.append(error);
    text
}

/// A truth value in words.
pub open spec fn bool_words(b: bool) -> Seq<char> {
    if b {
        "true"@
    } else {
        "false"@
    }
}

/// A truth value in words.
fn bool_text(b: bool) -> (r: &'static str)
    ensures
        r@ == bool_words(b),
{
    if b {
        "true"
    } else {
        "false"
    }
}

/// The progress line that the renderer is built.
pub fn renderer_ready_line(aa: (bool, bool)) -> (line: String)
    ensures
        line@ == "render worker: WebGPU device + renderer ready (msaa "@ + bool_words(aa.0)
            + ", smaa "@ + bool_words(aa.1) + ")"@,
        line@ == "render worker: WebGPU device + renderer ready (msaa "@ + (if aa.0 {
            "true"@
        } else {
            "false"@
        }) + ", smaa "@ + (if aa.1 {
            "true"@
        } else {
            "false"@
        }) + ")"@,
{
    let mut line = join(
        "render worker: WebGPU device + renderer ready (msaa ",
        bool_text(aa.0),
    );
    line.append(", smaa ");
    line.append(bool_text(aa.1));
    line.append(")");
    line
}

/// A sample at a base for which the ring does not hold both steps is the pose that a read of the
/// latest gives.
pub proof fn sample_falls_back_to_the_latest(
    ring: PoseRing,
    base: u32,
    sample: Sample,
    pose: ([u32; 3], [u32; 4]),
)
    requires
        ring@.seeded(),
        base < u32::MAX,
        call_ensures(sample_ring, (&ring, base), sample),
        call_ensures(PoseRing::read_latest, (&ring,), pose),
        ring@.reading(base) is None || ring@.reading((base + 1) as u32) is None,
    ensures
        sample == (Sample::Newest { pose }),
{
}

/// A click lands where its ray meets the table: a ray that is steep enough and meets the plane ahead
/// of the camera drops a ball, exactly where it meets it if that is inside the rails. One that
/// differs only in how far away it meets the plane drops its ball in the same place or, where it
/// meets it behind the camera, none.
pub proof fn clicks_land_where_they_point(
    hit: TableHit,
    far: TableHit,
    point: Option<(u32, u32)>,
    far_point: Option<(u32, u32)>,
)
    requires
        hit.wf(),
        call_ensures(drop_point, (&hit,), point),
        call_ensures(drop_point, (&far,), far_point),
        far == (TableHit { t: far.t, ..hit }),
        !crate::bits::less(crate::bits::magnitude(hit.dir_y), 0x3586_37bdu32),
        !crate::bits::is_nan(hit.t),
        !crate::bits::is_nan(far.t),
        crate::bits::value(hit.t) > 0,
    ensures
        point is Some,
        crate::bits::value(far.t) > 0 ==> far_point == point,
        crate::bits::value(far.t) <= 0 ==> far_point is None,
        !crate::bits::is_nan(hit.x) && !crate::bits::is_nan(hit.z) && crate::bits::value(
            hit.x_range.0,
        ) <= crate::bits::value(hit.x) <= crate::bits::value(hit.x_range.1) && crate::bits::value(
            hit.z_range.0,
        ) <= crate::bits::value(hit.z) <= crate::bits::value(hit.z_range.1) ==> point == Some(
            (hit.x, hit.z),
        ),
{
}

/// An anti-aliasing change is made once, at the next frame that has the renderer; while it is made
/// frames are skipped; and when it is over they render again.
pub proof fn changes_are_made_once(
    asked: &mut FrameGate,
    first: &mut FrameGate,
    second: &mut FrameGate,
    over: &mut FrameGate,
    third: &mut FrameGate,
    msaa: bool,
    smaa: bool,
    a1: FrameAction,
    a2: FrameAction,
    a3: FrameAction,
)
    requires
        !old(asked).reconfiguring,
        call_ensures(FrameGate::request, (asked, msaa, smaa), ()),
        *old(first) == *final(asked),
        call_ensures(FrameGate::next_frame, (first,), a1),
        *old(second) == *final(first),
        call_ensures(FrameGate::next_frame, (second,), a2),
        *old(over) == *final(second),
        call_ensures(FrameGate::reconfigured, (over,), ()),
        *old(third) == *final(over),
        call_ensures(FrameGate::next_frame, (third,), a3),
    ensures
        a1 == (FrameAction::Reconfigure { msaa, smaa }),
        a2 == FrameAction::Skip,
        a3 == FrameAction::Render,
        *final(third) == *old(third),
{
}

/// A change that is asked for while another one is made is not lost: it is made, once, at the first
/// frame after that one is over.
pub proof fn late_changes_are_made_afterwards(
    late: &mut FrameGate,
    during: &mut FrameGate,
    over: &mut FrameGate,
    next: &mut FrameGate,
    msaa: bool,
    smaa: bool,
    a1: FrameAction,
    a2: FrameAction,
)
    requires
        old(late).reconfiguring,
        call_ensures(FrameGate::request, (late, msaa, smaa), ()),
        *old(during) == *final(late),
        call_ensures(FrameGate::next_frame, (during,), a1),
        *old(over) == *final(during),
        call_ensures(FrameGate::reconfigured, (over,), ()),
        *old(next) == *final(over),
        call_ensures(FrameGate::next_frame, (next,), a2),
    ensures
        a1 == FrameAction::Skip,
        a2 == (FrameAction::Reconfigure { msaa, smaa }),
        final(next).reconfiguring,
        final(next).pending is None,
{
}

/// A progress line is shown once in a row: right after it was shown it is not shown again, but a
/// different line is, and that one is then the last.
pub proof fn lines_are_shown_once(
    first: &mut ProgressFilter,
    again: &mut ProgressFilter,
    other: &mut ProgressFilter,
    line: &str,
    next: &str,
    shown: bool,
    repeated: bool,
    changed: bool,
)
    requires
        call_ensures(ProgressFilter::passes, (first, line), shown),
        *old(again) == *final(first),
        call_ensures(ProgressFilter::passes, (again, line), repeated),
        *old(other) == *final(first),
        call_ensures(ProgressFilter::passes, (other, next), changed),
        line@ != next@,
        !old(first).skip_empty,
    ensures
        shown <==> line@ != old(first).last@,
        !repeated,
        shown ==> changed,
        final(other).last@ == (if changed {
            next@
        } else {
            line@
        }),
{
}

/// Where lines about nothing are left out, one that has `0/0` in it is not shown and does not count
/// as the last.
pub proof fn empty_progress_is_left_out(
    filter: &mut ProgressFilter,
    before: Seq<char>,
    after: Seq<char>,
    line: &str,
    shown: bool,
)
    requires
        old(filter).skip_empty,
        line@ == before + "0/0"@ + after,
        call_ensures(ProgressFilter::passes, (filter, line), shown),
    ensures
        !shown,
        final(filter).last@ == old(filter).last@,
{
    crate::text::parts_occur(before, "0/0"@, after);
}

/// There is a report on every sixtieth frame and on no other: a recorder that has taken in `n` frames
/// since the last one has one more after this frame, or none after a report.
pub proof fn reports_come_every_sixty_frames(
    stats: &mut SyncStats,
    steps: u32,
    err: u32,
    report: Option<SyncReport>,
)
    requires
        old(stats).wf(),
        call_ensures(SyncStats::record, (stats, steps, err), report),
    ensures
        report is Some <==> old(stats).frames == 59,
        report is Some ==> final(stats).frames == 0 && total(final(stats).buckets@) == 0,
        report is None ==> final(stats).frames == old(stats).frames + 1 && total(
            final(stats).buckets@,
        ) == total(old(stats).buckets@) + 1,
        final(stats).wf(),
{
}

/// The two anti-aliasing settings are independent of each other: four samples or none by the first
/// alone, the post pass by the second alone, mipmaps always.
pub proof fn aa_settings_are_independent(aa: (bool, bool), config: AaConfig)
    requires
        call_ensures(aa_config, (aa,), config),
    ensures
        config.msaa_sample_count == Some(4u32) <==> aa.0,
        config.msaa_sample_count is None <==> !aa.0,
        config.smaa <==> aa.1,
        config.mipmap,
{
}

/// Main learns of the GPU what the adapter said; without an adapter it learns of no fallback and of
/// the size that every device offers.
pub proof fn gpu_is_reported_as_probed(probed: Option<(bool, u32)>, msg: RenderMsg)
    requires
        call_ensures(gpu_info, (probed,), msg),
    ensures
        msg is GpuInfo,
        msg->is_fallback <==> probed == Some((true, msg->max_texture_dim)),
        probed matches Some(p) ==> msg->max_texture_dim == p.1,
        probed is None ==> msg->max_texture_dim == 8192,
{
}

/// A message asks for what it carries and nothing else: sizes are taken over unless one is zero, a
/// click needs a floor, and the camera's gestures pass as they are.
pub proof fn messages_ask_for_what_they_carry(
    msg: RenderInput,
    floor: Option<([u32; 3], [u32; 3])>,
    action: InputAction,
)
    requires
        call_ensures(render_input, (msg, floor), action),
    ensures
        action matches InputAction::SetCanvas { width, height } ==> width > 0 && height > 0 && msg
            == RenderInput::Resize(ResizeMsg::Canvas { width, height }),
        msg matches RenderInput::Resize(ResizeMsg::Canvas { width, height }) ==> (action is Nothing
            <==> width == 0 || height == 0),
        action matches InputAction::Unproject { ndc_x, ndc_y, half_extents, translation } ==> msg
            == RenderInput::Drop(DropMsg::Ball { ndc_x, ndc_y }) && floor == Some(
            (half_extents, translation),
        ),
        msg is Drop ==> (action is Nothing <==> floor is None),
        action matches InputAction::SetAntiAlias { msaa, smaa } ==> msg == RenderInput::Quality(
            QualityMsg::AntiAlias { msaa, smaa },
        ),
        msg is Quality ==> action is SetAntiAlias,
        action matches InputAction::Orbit { dx, dy } ==> msg == RenderInput::Camera(
            CameraMsg::Orbit { dx, dy },
        ),
        action matches InputAction::Zoom { dy } ==> msg == RenderInput::Camera(
            CameraMsg::Zoom { dy },
        ),
        msg is Camera ==> action is Orbit || action is Zoom,
        msg is Unknown ==> action is Nothing,
{
}

/// Balls get their visuals in order, one after the other, until each of those that physics counts
/// has one.
pub proof fn balls_are_minted_in_order(minted: usize, count: usize, index: Option<usize>)
    requires
        call_ensures(next_to_mint, (minted, count), index),
    ensures
        index is Some <==> minted < count,
        index matches Some(i) ==> i == minted,
{
}

/// No step is counted twice and none is missed: the steps of two frames in a row add up to those
/// between the step before the first and the step of the second, however the counter wraps.
pub proof fn steps_of_frames_add_up(
    first: &mut FrameClock,
    second: &mut FrameClock,
    l1: u32,
    l2: u32,
    s1: u32,
    s2: u32,
)
    requires
        call_ensures(FrameClock::steps_since, (first, l1), s1),
        *old(second) == *final(first),
        call_ensures(FrameClock::steps_since, (second, l2), s2),
    ensures
        (old(first).last_step + s1) % 0x1_0000_0000 == l1,
        (old(first).last_step + s1 + s2) % 0x1_0000_0000 == l2,
        final(second).last_step == l2,
        final(second).frames == old(first).frames,
{
}

/// The scene becomes ready with the third frame, not before and not again.
pub proof fn third_frame_is_ready(clock: &mut FrameClock, n: nat, ready: bool)
    requires
        n < 0x1_0000_0000,
        old(clock).frames == crate::body_motion::bumped(0, n),
        call_ensures(FrameClock::presented, (clock,), ready),
    ensures
        ready <==> n == 2,
        final(clock).frames == crate::body_motion::bumped(0, n + 1),
        final(clock).last_step == old(clock).last_step,
{
    crate::body_motion::bumped_is_sum(0, n);
}

/// Render and physics drop balls of the same size: the radius that render goes by is the one that
/// physics takes from the ball's collider.
pub proof fn dropped_balls_have_one_size(
    colliders: Vec<ColliderInit>,
    ball: Result<ColliderInit, &'static str>,
    in_render: u32,
    in_physics: u32,
)
    requires
        call_ensures(crate::physics_thread::ball_collider, (&colliders,), ball),
        call_ensures(ball_radius, (&colliders,), in_render),
        ball matches Ok(c) ==> call_ensures(
            crate::physics_thread::dropped_radius,
            (&c,),
            in_physics,
        ),
    ensures
        ball is Ok ==> in_render == in_physics,
        ball is Err ==> in_render == 0x3f00_0000,
{
}

/// Slashes at the end of an address make no difference to where the bundle is.
pub proof fn bundle_does_not_depend_on_slashes(
    origin: &str,
    slashed: &str,
    plain_url: String,
    slashed_url: String,
)
    requires
        slashed@ == origin@.push('/'),
        call_ensures(bundle_base, (origin,), plain_url),
        call_ensures(bundle_base, (slashed,), slashed_url),
    ensures
        plain_url@ == slashed_url@,
        origin@.len() > 0 && origin@.last() != '/' ==> plain_url@ == origin@ + "/bundle"@,
{
    crate::text::end_slashes_do_not_count(origin@);
}

/// A sample of a ring in shared memory with nothing interfering is the sample of the ring: the pair
/// where both steps are there, and nothing, which means the newest, where one is not.
pub proof fn shared_sample_is_the_sample(
    mem: Seq<u32>,
    at: usize,
    ring: PoseRing,
    base: u32,
    port: &mut Port<'_>,
    pair: Option<(([u32; 3], [u32; 4]), ([u32; 3], [u32; 4]))>,
    sample: Sample,
)
    requires
        crate::shared_ring::holds_ring(mem, at as int, ring@),
        ring@.seeded(),
        base < u32::MAX,
        call_ensures(sample_pair, (port, at, base), pair),
        crate::shared::undisturbed(mem, crate::shared::since(*old(port), *final(port))),
        call_ensures(sample_ring, (&ring, base), sample),
    ensures
        pair is Some <==> ring@.reading(base) is Some && ring@.reading((base + 1) as u32) is Some,
        pair matches Some(poses) ==> {
            &&& ring@.reading(base) == Some(poses.0)
            &&& ring@.reading((base + 1) as u32) == Some(poses.1)
            &&& sample == (Sample::Between { from: poses.0, to: poses.1 })
        },
        pair is None ==> sample is Newest && ring@.reading(ring@.latest) == Some(sample->pose),
{
    let (first, second) = choose|first: Seq<Attempt>, second: Seq<Attempt>|
        {
            &&& crate::seqlock::one_read(first)
            &&& crate::seqlock::one_read(second)
            &&& final(port).extends(
                *old(port),
                #[trigger] pair_events(at as int, base, first, second),
            )
            &&& pair == both(
                crate::seqlock::read_outcome(first, base),
                crate::seqlock::read_outcome(second, (base + 1) as u32),
            )
        };
    crate::shared::extension_is_what_was_made_since(
        *old(port),
        *final(port),
        pair_events(at as int, base, first, second),
    );
    undisturbed_sample(mem, at as int, ring@, base, first, second);
}

/// The player's look is the first variant with its name, and there is none exactly when no variant
/// has it; physics is started with what render gathered, and without an input block of its own.
pub proof fn start_carries_the_scene(
    names: Vec<String>,
    index: Option<usize>,
    colliders: Vec<ColliderInit>,
    spawn: [u32; 3],
    motion_ptr: usize,
    balls_ptr: usize,
    init: PhysicsInit,
    i: int,
)
    requires
        call_ensures(player_variant, (&names,), index),
        call_ensures(physics_init, (colliders, spawn, motion_ptr, balls_ptr), init),
        0 <= i < names@.len(),
        names@[i]@ == "Ball_Player_Red"@,
        forall|j: int| 0 <= j < i ==> (#[trigger] names@[j])@ != "Ball_Player_Red"@,
    ensures
        index matches Some(k) && k == i,
        init.colliders == colliders,
        init.spawn == spawn,
        init.motion_ptr == motion_ptr,
        init.balls_ptr == balls_ptr,
        init.input_ptr == 0,
{
    match index {
        Some(k) => {
            if k < i {
                assert(names@[k as int]@ != "Ball_Player_Red"@);
            } else if i < k {
                assert(no_player_among(names@, k as int));
                assert(names@[i]@ != "Ball_Player_Red"@);
            }
        },
        None => {
            assert(no_player_among(names@, names@.len() as int));
            assert(names@[i]@ != "Ball_Player_Red"@);
        },
    }
}

/// The codec's files are found next to the app, whether or not its address ends in a slash.
pub proof fn codec_does_not_depend_on_slashes(
    base: &str,
    slashed: &str,
    urls: (String, String),
    slashed_urls: (String, String),
)
    requires
        slashed@ == base@.push('/'),
        call_ensures(basis_urls, (base,), urls),
        call_ensures(basis_urls, (slashed,), slashed_urls),
    ensures
        urls.0@ == slashed_urls.0@,
        urls.1@ == slashed_urls.1@,
        base@.len() > 0 && base@.last() != '/' ==> {
            &&& urls.0@ == base@ + "/workers/basis-worker.js"@
            &&& urls.1@ == base@ + "/vendor/basis/basis_transcoder.js"@
        },
{
    crate::text::end_slashes_do_not_count(base@);
}

} // verus!
