//! Input shared from main to physics: held keys, jumps, camera yaw and touch flings.
//!
//! Main owns the keyboard and the pointer and is the sole writer; physics is the sole reader and
//! samples the block once per fixed step.

use vstd::prelude::*;

verus! {

/// Held-movement bits packed into [`InputState::held`].
pub const HELD_FORWARD: u32 = 1;

pub const HELD_BACK: u32 = 2;

pub const HELD_LEFT: u32 = 4;

pub const HELD_RIGHT: u32 = 8;

/// The input block.
#[derive(Clone, Copy, Debug, PartialEq, Eq)]
pub struct InputState {
    /// Bitset of currently held movement keys (`HELD_*`).
    pub held: u32,
    /// Bumped once per discrete jump press.
    pub jump_seq: u32,
    /// Camera yaw in radians (float bits).
    pub camera_yaw: u32,
    /// Bumped once per swipe.
    pub fling_seq: u32,
    /// Swipe release velocity in the camera frame (float bits): x right, z towards the camera.
    pub fling_x: u32,
    pub fling_z: u32,
}

impl Default for InputState {
    fn default() -> (state: InputState)
        ensures
            state == (InputState {
                held: 0,
                jump_seq: 0,
                camera_yaw: 0,
                fling_seq: 0,
                fling_x: 0,
                fling_z: 0,
            }),
    {
        Self::new()
    }
}

/// What a poll of an edge-triggered counter gives: the values that go with the counter, when it
/// moved since it was seen last.
pub open spec fn polled(seq: u32, last_seq: u32, x: u32, z: u32) -> Option<(u32, u32)> {
    if seq == last_seq {
        None
    } else {
        Some((x, z))
    }
}

impl InputState {
    /// Nothing held, nothing pressed, camera at yaw zero.
    pub fn new() -> (state: InputState)
        ensures
            state == (InputState {
                held: 0,
                jump_seq: 0,
                camera_yaw: 0,
                fling_seq: 0,
                fling_x: 0,
                fling_z: 0,
            }),
    {
        InputState { held: 0, jump_seq: 0, camera_yaw: 0, fling_seq: 0, fling_x: 0, fling_z: 0 }
    }

    /// Main side: sets or clears held-key bits.
    pub fn set_held(&mut self, mask: u32, down: bool)
        ensures
            *final(self) == (InputState {
                held: if down {
                    old(self).held | mask
                } else {
                    old(self).held & !mask
                },
                ..*old(self)
            }),
    {
        if down {
            self.held = self.held | mask;
        } else {
            self.held = self.held & !mask;
        }
    }

    /// Main side: registers a discrete jump press.
    pub fn bump_jump(&mut self)
        ensures
            *final(self) == (InputState {
                jump_seq: old(self).jump_seq.wrapping_add(1),
                ..*old(self)
            }),
    {
        self.jump_seq = self.jump_seq.wrapping_add(1);
    }

    /// Physics side: the current held-key bitset.
    pub fn held(&self) -> (held: u32)
        ensures
            held == self.held,
    {
        self.held
    }

    /// Physics side: the jump counter.
    pub fn jump_seq(&self) -> (seq: u32)
        ensures
            seq == self.jump_seq,
    {
        self.jump_seq
    }

    /// Main side: publishes a swipe with the given camera-frame velocity (float bits).
    pub fn bump_fling(&mut self, vx: u32, vz: u32)
        ensures
            *final(self) == (InputState {
                fling_x: vx,
                fling_z: vz,
                fling_seq: old(self).fling_seq.wrapping_add(1),
                ..*old(self)
            }),
    {
        self.fling_x = vx;
        self.fling_z = vz;
        self.fling_seq = self.fling_seq.wrapping_add(1);
    }

    /// Physics side: consumes a pending swipe. Gives the swipe velocity when `last_seq` is behind,
    /// and advances `last_seq` to the current counter. Of two swipes between two polls the later
    /// one wins.
    pub fn poll_fling(&self, last_seq: &mut u32) -> (fling: Option<(u32, u32)>)
        ensures
            fling == polled(self.fling_seq, *old(last_seq), self.fling_x, self.fling_z),
            *final(last_seq) == self.fling_seq,
            fling is Some <==> self.fling_seq != *old(last_seq),
            fling matches Some(velocity) ==> velocity == (self.fling_x, self.fling_z),
    {
        let seq: u32 = self.fling_seq;
        if seq == *last_seq {
            return None;
        }
        *last_seq = seq;
        Some((self.fling_x, self.fling_z))
    }

    /// Physics side: the swipe counter.
    pub fn fling_seq(&self) -> (seq: u32)
        ensures
            seq == self.fling_seq,
    {
        self.fling_seq
    }

    /// Main side: publishes the camera yaw (radians, float bits).
    pub fn set_camera_yaw(&mut self, yaw: u32)
        ensures
            *final(self) == (InputState { camera_yaw: yaw, ..*old(self) }),
    {
        self.camera_yaw = yaw;
    }

    /// Physics side: the camera yaw (radians, float bits).
    pub fn camera_yaw(&self) -> (yaw: u32)
        ensures
            yaw == self.camera_yaw,
    {
        self.camera_yaw
    }
}

/// Pressing and releasing keys touches their own bits only: after a press every bit of the mask
/// is set, after a release none is, and a bit outside the mask keeps its value.
pub proof fn held_bits_are_independent(held: u32, mask: u32, other: u32)
    ensures
        (held | mask) & mask == mask,
        (held & !mask) & mask == 0,
        other & mask == 0 ==> (held | mask) & other == held & other,
        other & mask == 0 ==> (held & !mask) & other == held & other,
{
    assert((held | mask) & mask == mask) by (bit_vector);
    assert((held & !mask) & mask == 0) by (bit_vector);
    assert(other & mask == 0 ==> (held | mask) & other == held & other) by (bit_vector);
    assert(other & mask == 0 ==> (held & !mask) & other == held & other) by (bit_vector);
}

/// The four movement bits do not overlap.
pub proof fn movement_bits_are_distinct()
    ensures
        HELD_FORWARD & HELD_BACK == 0,
        HELD_FORWARD & HELD_LEFT == 0,
        HELD_FORWARD & HELD_RIGHT == 0,
        HELD_BACK & HELD_LEFT == 0,
        HELD_BACK & HELD_RIGHT == 0,
        HELD_LEFT & HELD_RIGHT == 0,
{
    assert(1u32 & 2u32 == 0 && 1u32 & 4u32 == 0 && 1u32 & 8u32 == 0 && 2u32 & 4u32 == 0 && 2u32
        & 8u32 == 0 && 4u32 & 8u32 == 0) by (bit_vector);
}

/// A poll gives the values exactly when the counter differs from the one that was seen last, and
/// then both of them, each in its place.
pub proof fn polls_go_by_the_counter(seq: u32, last_seq: u32, x: u32, z: u32)
    ensures
        polled(seq, last_seq, x, z) is Some <==> seq != last_seq,
        polled(seq, last_seq, x, z) matches Some(values) ==> values.0 == x && values.1 == z,
{
}

/// A poll after one or more publications (fewer than the counter can tell apart) gives the values
/// published last, and the next poll gives nothing until the next publication.
pub proof fn poll_gives_the_last_publication(last_seq: u32, publications: nat, x: u32, z: u32)
    requires
        0 < publications < 0x1_0000_0000,
    ensures
        polled(crate::body_motion::bumped(last_seq, publications), last_seq, x, z) == Some((x, z)),
        polled(
            crate::body_motion::bumped(last_seq, publications),
            crate::body_motion::bumped(last_seq, publications),
            x,
            z,
        ) is None,
{
    crate::body_motion::frames_are_never_missed(last_seq, publications);
}

/// A press sets its bits and a release of the same key takes them back; bits of other keys stay as
/// they were throughout, and so does everything else in the block.
pub proof fn presses_and_releases_cancel(
    pressed: &mut InputState,
    released: &mut InputState,
    mask: u32,
    during: u32,
    after: u32,
)
    requires
        call_ensures(InputState::set_held, (pressed, mask, true), ()),
        call_ensures(InputState::held, (&*final(pressed),), during),
        *old(released) == *final(pressed),
        call_ensures(InputState::set_held, (released, mask, false), ()),
        call_ensures(InputState::held, (&*final(released),), after),
    ensures
        during & mask == mask,
        after & mask == 0,
        during & !mask == old(pressed).held & !mask,
        after & !mask == old(pressed).held & !mask,
        final(released).jump_seq == old(pressed).jump_seq,
        final(released).camera_yaw == old(pressed).camera_yaw,
        final(released).fling_seq == old(pressed).fling_seq,
{
    let held = old(pressed).held;
    assert((held | mask) & mask == mask && ((held | mask) & !mask) & mask == 0 && (held | mask)
        & !mask == held & !mask && ((held | mask) & !mask) & !mask == held & !mask) by (bit_vector);
}

/// A swipe reaches the next poll with its velocity, once: the poll after it gives nothing.
pub proof fn swipes_are_polled_once(
    swiped: &mut InputState,
    last: &mut u32,
    next: &mut u32,
    vx: u32,
    vz: u32,
    first: Option<(u32, u32)>,
    second: Option<(u32, u32)>,
)
    requires
        *old(last) == old(swiped).fling_seq,
        call_ensures(InputState::bump_fling, (swiped, vx, vz), ()),
        call_ensures(InputState::poll_fling, (&*final(swiped), last), first),
        *old(next) == *final(last),
        call_ensures(InputState::poll_fling, (&*final(swiped), next), second),
    ensures
        first == Some((vx, vz)),
        second is None,
        final(swiped).held == old(swiped).held,
        final(swiped).jump_seq == old(swiped).jump_seq,
{
}

} // verus!
