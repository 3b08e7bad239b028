//! The cursor-lock controller: a two-state machine over the window's cursor.

use vstd::prelude::*;

verus! {

use crate::input::InputSnapshot;
use crate::input::escape_just_pressed;
use crate::input::primary_just_pressed;
use crate::input::spec_just_pressed;

/// The window's cursor grab mode: captured by the window, or released.
#[derive(Clone, Copy, PartialEq, Eq, Structural, Debug)]
pub enum CursorGrab {
    Locked,
    Released,
}

/// The two cursor-lock states: `Free` shows the cursor and releases the grab,
/// `Locked` hides the cursor and grabs it.
#[derive(Clone, Copy, PartialEq, Eq, Structural, Debug)]
pub enum LockState {
    Free,
    Locked,
}

impl LockState {
    /// Whether the cursor is visible in this state.
    pub open spec fn spec_visible(self) -> bool {
        self is Free
    }

    /// The grab mode the window is put in for this state.
    pub open spec fn spec_grab(self) -> CursorGrab {
        match self {
            LockState::Free => CursorGrab::Released,
            LockState::Locked => CursorGrab::Locked,
        }
    }

    /// Cursor visibility to hand the window for this state.
    pub fn visible(self) -> (r: bool)
        ensures
            r == self.spec_visible(),
    {
        match self {
            LockState::Free => true,
            LockState::Locked => false,
        }
    }

    /// Grab mode to hand the window for this state.
    pub fn grab(self) -> (r: CursorGrab)
        ensures
            r == self.spec_grab(),
    {
        match self {
            LockState::Free => CursorGrab::Released,
            LockState::Locked => CursorGrab::Locked,
        }
    }
}

/// The next lock state: a primary-button press locks, an escape press frees,
/// and anything else keeps the state. The mouse transition is applied before
/// the key's, so escape wins when both presses arrive in one frame.
/// Re-entering the current state on a repeated trigger is a harmless no-op.
pub open spec fn spec_lock_step(s: LockState, primary_just: bool, escape_just: bool) -> LockState {
    if escape_just {
        LockState::Free
    } else if primary_just {
        LockState::Locked
    } else {
        s
    }
}

/// One controller step from an input diff: lock on a just-pressed primary
/// button, free on a just-pressed escape key.
pub fn lock_step(s: LockState, prev: InputSnapshot, curr: InputSnapshot) -> (r: LockState)
    ensures
        r == spec_lock_step(
            s,
            spec_just_pressed(prev.primary_down, curr.primary_down),
            spec_just_pressed(prev.escape_down, curr.escape_down),
        ),
{
    let mut state = s;
    if primary_just_pressed(prev, curr) {
        state = LockState::Locked;
    }
    if escape_just_pressed(prev, curr) {
        state = LockState::Free;
    }
    state
}

} // verus!
