//! Edge-triggered input: a per-frame snapshot of the two controls the
//! library reads, and the previous/current diff that detects a "just
//! pressed" transition.

use vstd::prelude::*;

verus! {

/// Which of the two controls the library reads are held down in one frame.
#[derive(Clone, Copy, PartialEq, Eq, Structural, Debug)]
pub struct InputSnapshot {
    /// The primary mouse button.
    pub primary_down: bool,
    /// The escape key.
    pub escape_down: bool,
}

/// A control is "just pressed" when it is down now and was up in the previous
/// frame: the edge, not the level, so holding a button fires only once.
pub open spec fn spec_just_pressed(was_down: bool, is_down: bool) -> bool {
    !was_down && is_down
}

/// Did the primary mouse button go down this frame?
pub fn primary_just_pressed(prev: InputSnapshot, curr: InputSnapshot) -> (r: bool)
    ensures
        r == spec_just_pressed(prev.primary_down, curr.primary_down),
{
    !prev.primary_down && curr.primary_down
}

/// Did the escape key go down this frame?
pub fn escape_just_pressed(prev: InputSnapshot, curr: InputSnapshot) -> (r: bool)
    ensures
        r == spec_just_pressed(prev.escape_down, curr.escape_down),
{
    !prev.escape_down && curr.escape_down
}

} // verus!
