//! The per-frame entry point: one step of the whole protocol.

use vstd::prelude::*;

verus! {

use crate::coords::WorldPoint;
use crate::cursor::LockState;
use crate::cursor::lock_step;
use crate::cursor::spec_lock_step;
use crate::input::InputSnapshot;
use crate::input::primary_just_pressed;
use crate::input::spec_just_pressed;
use crate::pick::PickOutcome;
use crate::pick::pick;
use crate::pick::spec_pick_outcome;
use crate::pick::spec_pick_post;
use crate::registry::BlockRegistry;

/// Everything one frame hands the library: the previous and current input
/// snapshots, and the nearest ray intersection with a block, if any. The
/// intersection must be the current frame's — updated before this step runs —
/// so a pick reflects where the cursor is now, not a stale position.
#[derive(Clone, Copy, Debug)]
pub struct FrameInput {
    pub prev: InputSnapshot,
    pub curr: InputSnapshot,
    pub intersection: Option<WorldPoint>,
}

/// One frame of the protocol: step the cursor-lock state, and resolve at most
/// one pick — only on the just-pressed edge of the primary button (never
/// while it is merely held), and only when the frame carries an intersection
/// point.
pub fn frame_step(reg: &mut BlockRegistry, lock: LockState, input: FrameInput) -> (r: (
    LockState,
    Option<PickOutcome>,
))
    ensures
        r.0 == spec_lock_step(
            lock,
            spec_just_pressed(input.prev.primary_down, input.curr.primary_down),
            spec_just_pressed(input.prev.escape_down, input.curr.escape_down),
        ),
        match input.intersection {
            Some(p) => {
                if spec_just_pressed(input.prev.primary_down, input.curr.primary_down) {
                    &&& r.1 == Some(spec_pick_outcome(old(reg)@, p))
                    &&& final(reg)@ == spec_pick_post(old(reg)@, p)
                } else {
                    &&& r.1 == None::<PickOutcome>
                    &&& final(reg)@ == old(reg)@
                }
            },
            None => r.1 == None::<PickOutcome> && final(reg)@ == old(reg)@,
        },
{
    let next_lock = lock_step(lock, input.prev, input.curr);
    let mut outcome: Option<PickOutcome> = None;
    if primary_just_pressed(input.prev, input.curr) {
        if let Some(p) = input.intersection {
            outcome = Some(pick(reg, p));
        }
    }
    (next_lock, outcome)
}

} // verus!
