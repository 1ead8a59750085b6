//! One block of shared memory for the whole session: where each part lies, and what its words are
//! at the start.

use vstd::prelude::*;

use crate::ball_motions::{BallMotions, MAX_BALLS};
use crate::blocks::{
    BallsBlock, InputBlock, MotionBlock, BALLS_WORDS, INPUT_WORDS, MOTION_WORDS,
};
use crate::body_motion::BodyMotion;
use crate::input_state::InputState;
use crate::physics_tasks::{TaskPool, MAX_TASKS, MAX_WORKERS};
use crate::pose_ring::{PoseRing, PoseSlot, POSE_RING};
use crate::seqlock::SLOT_WORDS;
use crate::shared_pool::{PoolBlock, CLAIMS_AT, POOL_WORDS, TASKS_AT};
use crate::shared_ring::RING_WORDS;

verus! {

/// Where the input block lies.
pub const INPUT_AT: usize = 0;

/// Where the motion block lies.
pub const MOTION_AT: usize = INPUT_WORDS;

/// Where the drop block lies.
pub const BALLS_AT: usize = INPUT_WORDS + MOTION_WORDS;

/// Where the task pool lies.
pub const POOL_AT: usize = INPUT_WORDS + MOTION_WORDS + BALLS_WORDS;

/// All the words of a session.
pub const SESSION_WORDS: usize = INPUT_WORDS + MOTION_WORDS + BALLS_WORDS + POOL_WORDS;

/// The words of one sequence stand at the start of the other.
pub open spec fn starts_with(words: Seq<u32>, start: Seq<u32>) -> bool {
    &&& start.len() <= words.len()
    &&& forall|i: int| 0 <= i < start.len() ==> #[trigger] words[i] == start[i]
}

/// Adds the words of a slot.
fn append_slot(words: &mut Vec<u32>, slot: &PoseSlot)
    ensures
        starts_with(final(words)@, old(words)@),
        final(words)@.len() == old(words)@.len() + SLOT_WORDS,
        crate::seqlock::holds_slot(final(words)@, old(words)@.len() as int, *slot),
{
    let ghost at = words@.len() as int;
    words.push(slot.version);
    words.push(slot.step);
    for i in 0..7
        invariant
            at == old(words)@.len(),
            starts_with(words@, old(words)@),
            words@.len() == at + 2 + i,
            words@[at] == slot.version,
            words@[at + 1] == slot.step,
            forall|k: int| 0 <= k < i ==> words@[at + 2 + k] == #[trigger] slot.fields@[k],
    {
        words.push(slot.fields[i]);
    }
}

/// A slot keeps its words when more are added.
proof fn slot_kept(words: Seq<u32>, more: Seq<u32>, at: int, slot: PoseSlot)
    requires
        crate::seqlock::holds_slot(words, at, slot),
        starts_with(more, words),
    ensures
        crate::seqlock::holds_slot(more, at, slot),
{
    assert forall|k: int| 0 <= k < 7 implies more[at + 2 + k] == #[trigger] slot.fields@[k] by {
        assert(words[at + 2 + k] == slot.fields@[k]);
    }
}

/// A ring keeps its words when more are added.
proof fn ring_kept(words: Seq<u32>, more: Seq<u32>, at: int, ring: crate::pose_ring::RingView)
    requires
        crate::shared_ring::holds_ring(words, at, ring),
        starts_with(more, words),
    ensures
        crate::shared_ring::holds_ring(more, at, ring),
{
    assert forall|i: int| 0 <= i < POSE_RING implies crate::seqlock::holds_slot(
        more,
        at + 1 + SLOT_WORDS * i,
        #[trigger] ring.slots[i],
    ) by {
        slot_kept(words, more, at + 1 + SLOT_WORDS * i, ring.slots[i]);
    }
}

/// Adds the words of a ring.
pub fn append_ring(words: &mut Vec<u32>, ring: &PoseRing)
    ensures
        starts_with(final(words)@, old(words)@),
        final(words)@.len() == old(words)@.len() + RING_WORDS,
        crate::shared_ring::holds_ring(final(words)@, old(words)@.len() as int, ring@),
{
    let ghost at = words@.len() as int;
    words.push(ring.latest);
    for i in 0..POSE_RING
        invariant
            at == old(words)@.len(),
            starts_with(words@, old(words)@),
            words@.len() == at + 1 + SLOT_WORDS * i,
            words@[at] == ring.latest,
            forall|j: int|
                0 <= j < i ==> crate::seqlock::holds_slot(
                    words@,
                    at + 1 + SLOT_WORDS * j,
                    #[trigger] ring.slots@[j],
                ),
    {
        let ghost before = words@;
        append_slot(words, &ring.slots[i]);
        assert forall|j: int| 0 <= j < i + 1 implies crate::seqlock::holds_slot(
            words@,
            at + 1 + SLOT_WORDS * j,
            #[trigger] ring.slots@[j],
        ) by {
            if j < i {
                slot_kept(before, words@, at + 1 + SLOT_WORDS * j, ring.slots@[j]);
            }
        }
    }
}

/// Adds the words of an input block.
pub fn append_input(words: &mut Vec<u32>, state: &InputState)
    requires
        old(words)@.len() + INPUT_WORDS <= usize::MAX,
    ensures
        starts_with(final(words)@, old(words)@),
        final(words)@.len() == old(words)@.len() + INPUT_WORDS,
        crate::blocks::holds_input(
            final(words)@,
            (InputBlock { at: old(words)@.len() as usize }),
            *state,
        ),
{
    words.push(state.held);
    words.push(state.jump_seq);
    words.push(state.camera_yaw);
    words.push(state.fling_seq);
    words.push(state.fling_x);
    words.push(state.fling_z);
}

/// Adds the words of a motion block.
pub fn append_motion(words: &mut Vec<u32>, motion: &BodyMotion)
    requires
        old(words)@.len() + MOTION_WORDS <= usize::MAX,
    ensures
        starts_with(final(words)@, old(words)@),
        final(words)@.len() == old(words)@.len() + MOTION_WORDS,
        crate::blocks::holds_motion(
            final(words)@,
            (MotionBlock { at: old(words)@.len() as usize }),
            *motion,
        ),
{
    let ghost at = words@.len() as int;
    append_ring(words, &motion.ring);
    let ghost with_ring = words@;
    words.push(motion.frame_tick);
    words.push(motion.frame_work_us);
    words.push(motion.step_work_us);
    words.push(motion.sync_err_bits);
    words.push(motion.display_lag_bits);
    proof {
        ring_kept(with_ring, words@, at, motion.ring@);
    }
}

/// Adds the words of a drop block.
pub fn append_balls(words: &mut Vec<u32>, balls: &BallMotions)
    requires
        balls.wf(),
        old(words)@.len() + BALLS_WORDS <= usize::MAX,
    ensures
        starts_with(final(words)@, old(words)@),
        final(words)@.len() == old(words)@.len() + BALLS_WORDS,
        crate::blocks::holds_balls(
            final(words)@,
            (BallsBlock { at: old(words)@.len() as usize }),
            *balls,
        ),
{
    let ghost at = words@.len() as int;
    let ghost block = BallsBlock { at: words@.len() as usize };
    words.push(balls.drop_seq);
    words.push(balls.drop_x);
    words.push(balls.drop_z);
    words.push(balls.count);
    for i in 0..MAX_BALLS
        invariant
            at == old(words)@.len(),
            at + BALLS_WORDS <= usize::MAX,
            block.at == at,
            balls.wf(),
            starts_with(words@, old(words)@),
            words@.len() == at + 4 + RING_WORDS * i,
            words@[at] == balls.drop_seq,
            words@[at + 1] == balls.drop_x,
            words@[at + 2] == balls.drop_z,
            words@[at + 3] == balls.count,
            forall|j: int|
                0 <= j < i ==> crate::shared_ring::holds_ring(
                    words@,
                    block.ring_at(j),
                    (#[trigger] balls.slots@[j])@,
                ),
    {
        let ghost before = words@;
        append_ring(words, &balls.slots[i]);
        assert forall|j: int| 0 <= j < i + 1 implies crate::shared_ring::holds_ring(
            words@,
            block.ring_at(j),
            (#[trigger] balls.slots@[j])@,
        ) by {
            if j < i {
                ring_kept(before, words@, block.ring_at(j), balls.slots@[j]@);
            }
        }
    }
}

/// Adds the words of a task pool.
pub fn append_pool(words: &mut Vec<u32>, pool: &TaskPool)
    requires
        pool.wf(),
        old(words)@.len() + POOL_WORDS <= usize::MAX,
    ensures
        starts_with(final(words)@, old(words)@),
        final(words)@.len() == old(words)@.len() + POOL_WORDS,
        crate::shared_pool::holds_pool(
            final(words)@,
            (PoolBlock { at: old(words)@.len() as usize }),
            *pool,
        ),
{
    let ghost at = words@.len() as int;
    let ghost block = PoolBlock { at: words@.len() as usize };
    words.push(pool.next_slot);
    words.push(pool.sem);
    for i in 0..MAX_WORKERS
        invariant
            at == old(words)@.len(),
            pool.wf(),
            starts_with(words@, old(words)@),
            words@.len() == at + CLAIMS_AT + i,
            words@[at] == pool.next_slot,
            words@[at + 1] == pool.sem,
            forall|j: int| 0 <= j < i ==> words@[at + CLAIMS_AT + j] == #[trigger] pool.claims@[j],
    {
        words.push(pool.claims[i]);
    }
    for i in 0..MAX_TASKS
        invariant
            at == old(words)@.len(),
            at + POOL_WORDS <= usize::MAX,
            block.at == at,
            pool.wf(),
            starts_with(words@, old(words)@),
            words@.len() == at + TASKS_AT + 3 * i,
            words@[at] == pool.next_slot,
            words@[at + 1] == pool.sem,
            forall|j: int|
                0 <= j < MAX_WORKERS ==> words@[at + CLAIMS_AT + j] == #[trigger] pool.claims@[j],
            forall|j: int|
                0 <= j < i ==> crate::shared_pool::holds_task(
                    words@,
                    block.status_at(j),
                    #[trigger] pool.tasks@[j],
                ),
    {
        words.push(pool.tasks[i].status);
        words.push(pool.tasks[i].callback);
        words.push(pool.tasks[i].context);
    }
}

/// The words of a session at the start: nothing pressed, nothing dropped, nothing enqueued, and
/// the ball at rest in the given pose.
pub fn session_words(pos: [u32; 3], quat: [u32; 4]) -> (words: Vec<u32>)
    ensures
        words@.len() == SESSION_WORDS,
        exists|input: InputState, motion: BodyMotion, balls: BallMotions, pool: TaskPool|
            #[trigger] holds_session(words@, input, motion, balls, pool) && fresh_session(
                input,
                motion,
                balls,
                pool,
                pos,
                quat,
            ),
{
    let mut words: Vec<u32> = Vec::new();
    let input = InputState::new();
    let motion = BodyMotion::new(pos, quat);
    let balls = BallMotions::new();
    let pool = TaskPool::new();
    append_input(&mut words, &input);
    let ghost w1 = words@;
    append_motion(&mut words, &motion);
    let ghost w2 = words@;
    append_balls(&mut words, &balls);
    let ghost w3 = words@;
    append_pool(&mut words, &pool);
    proof {
        ring_kept(w2, words@, MOTION_AT as int, motion.ring@);
        let block = BallsBlock { at: BALLS_AT };
        assert forall|i: int| 0 <= i < MAX_BALLS implies crate::shared_ring::holds_ring(
            words@,
            block.ring_at(i),
            (#[trigger] balls.slots@[i])@,
        ) by {
            ring_kept(w3, words@, block.ring_at(i), balls.slots@[i]@);
        }
        assert(holds_session(words@, input, motion, balls, pool));
        assert(fresh_session(input, motion, balls, pool, pos, quat));
    }
    words
}

/// The words are those of the four parts of a session.
pub open spec fn holds_session(
    words: Seq<u32>,
    input: InputState,
    motion: BodyMotion,
    balls: BallMotions,
    pool: TaskPool,
) -> bool {
    &&& crate::blocks::holds_input(words, InputBlock { at: INPUT_AT }, input)
    &&& crate::blocks::holds_motion(words, MotionBlock { at: MOTION_AT }, motion)
    &&& crate::blocks::holds_balls(words, BallsBlock { at: BALLS_AT }, balls)
    &&& crate::shared_pool::holds_pool(words, PoolBlock { at: POOL_AT }, pool)
}

/// The parts are as their constructors make them.
pub open spec fn fresh_session(
    input: InputState,
    motion: BodyMotion,
    balls: BallMotions,
    pool: TaskPool,
    pos: [u32; 3],
    quat: [u32; 4],
) -> bool {
    &&& input == (InputState {
        held: 0,
        jump_seq: 0,
        camera_yaw: 0,
        fling_seq: 0,
        fling_x: 0,
        fling_z: 0,
    })
    &&& motion.ring@ == crate::pose_ring::empty_ring().wrote(0, pos, quat)
    &&& motion.frame_tick == 0
    &&& motion.frame_work_us == 0
    &&& motion.step_work_us == 0
    &&& motion.sync_err_bits == 0
    &&& motion.display_lag_bits == 0
    &&& balls.fresh()
    &&& pool.fresh()
}

/// The parts of a session lie one behind the other: none reaches into the next.
pub proof fn parts_do_not_overlap()
    ensures
        INPUT_AT + INPUT_WORDS <= MOTION_AT,
        MOTION_AT + MOTION_WORDS <= BALLS_AT,
        BALLS_AT + BALLS_WORDS <= POOL_AT,
        POOL_AT + POOL_WORDS <= SESSION_WORDS,
{
}

/// A session starts at rest: the player's ring reads the given pose for step zero, nothing is held,
/// no ball is counted, and the pool has no task.
pub proof fn sessions_start_at_rest(pos: [u32; 3], quat: [u32; 4], words: Vec<u32>)
    requires
        call_ensures(session_words, (pos, quat), words),
    ensures
        words@.len() == SESSION_WORDS,
        exists|ring: crate::pose_ring::RingView|
            #[trigger] crate::shared_ring::holds_ring(words@, MOTION_AT as int, ring)
                && ring.seeded() && ring.latest == 0 && ring.reading(0) == Some((pos, quat)),
        words@[INPUT_AT as int] == 0,
        words@[BALLS_AT + 3] == 0,
        words@[POOL_AT as int] == 0,
        words@[POOL_AT + 1] == 0,
{
    let (input, motion, balls, pool) = choose|
        input: InputState,
        motion: BodyMotion,
        balls: BallMotions,
        pool: TaskPool,
    | #[trigger]
        holds_session(words@, input, motion, balls, pool) && fresh_session(
            input,
            motion,
            balls,
            pool,
            pos,
            quat,
        );
    crate::pose_ring::pose_words_round_trip(pos, quat);
    let ring = motion.ring@;
    let empty = crate::pose_ring::empty_ring();
    assert(empty.settled());
    crate::pose_ring::wrote_is_settled(empty, 0, pos, quat);
    assert(crate::shared_ring::holds_ring(words@, MOTION_AT as int, ring));
}

} // verus!
